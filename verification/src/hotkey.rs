//! Key combinations, the actions bound to them, and the table of bindings.

use crate::command::{Command, Meaning};
use crate::ids::WorkspaceId;
use crate::rect::Direction;
use crate::text;
use crate::text::{NumberError, Separator};
use crate::toast::ToastLevel;
use vstd::prelude::*;
use vstd::string::StringExecFns;

verus! {

/// A modifier key.
#[derive(Debug, Clone, Copy, PartialEq, Eq, Structural)]
pub enum Mod {
    Super,
    Ctrl,
    Alt,
    Shift,
}

/// The modifier keys of a combination.
#[derive(Debug, Clone, Copy, PartialEq, Eq, Hash, Structural)]
pub struct Mods {
    pub logo: bool,
    pub ctrl: bool,
    pub alt: bool,
    pub shift: bool,
}

/// `MOD_ALT` of the operating system.
pub const MOD_ALT: u32 = 0x1;

/// `MOD_CONTROL` of the operating system.
pub const MOD_CONTROL: u32 = 0x2;

/// `MOD_SHIFT` of the operating system.
pub const MOD_SHIFT: u32 = 0x4;

/// `MOD_WIN` of the operating system.
pub const MOD_WIN: u32 = 0x8;

/// `MOD_NOREPEAT` of the operating system: a key that is held down counts once.
pub const MOD_NOREPEAT: u32 = 0x4000;

impl Mods {
    pub open spec fn none() -> Mods {
        Mods { logo: false, ctrl: false, alt: false, shift: false }
    }

    pub open spec fn has(self, m: Mod) -> bool {
        match m {
            Mod::Super => self.logo,
            Mod::Ctrl => self.ctrl,
            Mod::Alt => self.alt,
            Mod::Shift => self.shift,
        }
    }

    pub open spec fn with(self, m: Mod) -> Mods {
        match m {
            Mod::Super => Mods { logo: true, ..self },
            Mod::Ctrl => Mods { ctrl: true, ..self },
            Mod::Alt => Mods { alt: true, ..self },
            Mod::Shift => Mods { shift: true, ..self },
        }
    }

    /// No modifier.
    pub fn empty() -> (r: Mods)
        ensures
            r == Mods::none(),
    {
        Mods { logo: false, ctrl: false, alt: false, shift: false }
    }

    pub fn contains(&self, m: Mod) -> (r: bool)
        ensures
            r == self.has(m),
    {
        match m {
            Mod::Super => self.logo,
            Mod::Ctrl => self.ctrl,
            Mod::Alt => self.alt,
            Mod::Shift => self.shift,
        }
    }

    pub fn insert(&mut self, m: Mod)
        ensures
            *final(self) == old(self).with(m),
    {
        match m {
            Mod::Super => {
                self.logo = true;
            },
            Mod::Ctrl => {
                self.ctrl = true;
            },
            Mod::Alt => {
                self.alt = true;
            },
            Mod::Shift => {
                self.shift = true;
            },
        }
    }

    /// The modifiers as the operating system counts them, without repetition.
    pub fn to_win32(&self) -> (r: u32)
        ensures
            r == MOD_NOREPEAT + (if self.logo {
                MOD_WIN as int
            } else {
                0
            }) + (if self.ctrl {
                MOD_CONTROL as int
            } else {
                0
            }) + (if self.alt {
                MOD_ALT as int
            } else {
                0
            }) + (if self.shift {
                MOD_SHIFT as int
            } else {
                0
            }),
            *self == Mods::none() ==> r == 0x4000,
            (r % 2 == 1) == self.alt,
            (r / 2 % 2 == 1) == self.ctrl,
            (r / 4 % 2 == 1) == self.shift,
            (r / 8 % 2 == 1) == self.logo,
            0x4000 <= r <= 0x400f,
    {
        let mut m: u32 = MOD_NOREPEAT;
        if self.logo {
            m = m + MOD_WIN;
        }
        if self.ctrl {
            m = m + MOD_CONTROL;
        }
        if self.alt {
            m = m + MOD_ALT;
        }
        if self.shift {
            m = m + MOD_SHIFT;
        }
        m
    }
}

// ---- key combinations -----------------------------------------------------

/// The modifier of a name in upper case.
pub open spec fn modifier(name: Seq<char>) -> Option<Mod> {
    if name == "SUPER"@ || name == "WIN"@ || name == "META"@ {
        Some(Mod::Super)
    } else if name == "CTRL"@ || name == "CONTROL"@ {
        Some(Mod::Ctrl)
    } else if name == "ALT"@ {
        Some(Mod::Alt)
    } else if name == "SHIFT"@ {
        Some(Mod::Shift)
    } else {
        None
    }
}

fn modifier_of(name: &Vec<char>) -> (r: Option<Mod>)
    ensures
        r == modifier(name@),
{
    if text::reads(name, "SUPER") || text::reads(name, "WIN") || text::reads(name, "META") {
        Some(Mod::Super)
    } else if text::reads(name, "CTRL") || text::reads(name, "CONTROL") {
        Some(Mod::Ctrl)
    } else if text::reads(name, "ALT") {
        Some(Mod::Alt)
    } else if text::reads(name, "SHIFT") {
        Some(Mod::Shift)
    } else {
        None
    }
}

/// The code of a key that is named by its own character, in upper case. The
/// punctuation is that of the US keyboard.
pub open spec fn character_code(c: char) -> Option<u16> {
    if 'A' <= c <= 'Z' || '0' <= c <= '9' {
        Some(c as u16)
    } else if c == ',' {
        Some(0xbcu16)
    } else if c == '.' {
        Some(0xbeu16)
    } else if c == '-' {
        Some(0xbdu16)
    } else if c == '+' || c == '=' {
        Some(0xbbu16)
    } else if c == ';' {
        Some(0xbau16)
    } else if c == '/' {
        Some(0xbfu16)
    } else if c == '`' {
        Some(0xc0u16)
    } else if c == '[' {
        Some(0xdbu16)
    } else if c == '\\' {
        Some(0xdcu16)
    } else if c == ']' {
        Some(0xddu16)
    } else if c == '\'' {
        Some(0xdeu16)
    } else {
        None
    }
}

fn code_of_character(c: char) -> (r: Option<u16>)
    ensures
        r == character_code(c),
{
    if ('A' <= c && c <= 'Z') || ('0' <= c && c <= '9') {
        Some(c as u16)
    } else if c == ',' {
        Some(0xbc)
    } else if c == '.' {
        Some(0xbe)
    } else if c == '-' {
        Some(0xbd)
    } else if c == '+' || c == '=' {
        Some(0xbb)
    } else if c == ';' {
        Some(0xba)
    } else if c == '/' {
        Some(0xbf)
    } else if c == '`' {
        Some(0xc0)
    } else if c == '[' {
        Some(0xdb)
    } else if c == '\\' {
        Some(0xdc)
    } else if c == ']' {
        Some(0xdd)
    } else if c == '\'' {
        Some(0xde)
    } else {
        None
    }
}

/// The number of a function key.
pub open spec fn function_key(name: Seq<char>) -> Option<u16> {
    if name == "F1"@ {
        Some(1u16)
    } else if name == "F2"@ {
        Some(2u16)
    } else if name == "F3"@ {
        Some(3u16)
    } else if name == "F4"@ {
        Some(4u16)
    } else if name == "F5"@ {
        Some(5u16)
    } else if name == "F6"@ {
        Some(6u16)
    } else if name == "F7"@ {
        Some(7u16)
    } else if name == "F8"@ {
        Some(8u16)
    } else if name == "F9"@ {
        Some(9u16)
    } else if name == "F10"@ {
        Some(10u16)
    } else if name == "F11"@ {
        Some(11u16)
    } else if name == "F12"@ {
        Some(12u16)
    } else {
        None
    }
}

fn function_key_of(name: &Vec<char>) -> (r: Option<u16>)
    ensures
        r == function_key(name@),
        r matches Some(n) ==> 1 <= n <= 12,
{
    if text::reads(name, "F1") {
        Some(1)
    } else if text::reads(name, "F2") {
        Some(2)
    } else if text::reads(name, "F3") {
        Some(3)
    } else if text::reads(name, "F4") {
        Some(4)
    } else if text::reads(name, "F5") {
        Some(5)
    } else if text::reads(name, "F6") {
        Some(6)
    } else if text::reads(name, "F7") {
        Some(7)
    } else if text::reads(name, "F8") {
        Some(8)
    } else if text::reads(name, "F9") {
        Some(9)
    } else if text::reads(name, "F10") {
        Some(10)
    } else if text::reads(name, "F11") {
        Some(11)
    } else if text::reads(name, "F12") {
        Some(12)
    } else {
        None
    }
}

/// The code of a key with a name of its own.
pub open spec fn named_code(name: Seq<char>) -> Option<u16> {
    if name == "LEFT"@ {
        Some(0x25u16)
    } else if name == "RIGHT"@ {
        Some(0x27u16)
    } else if name == "UP"@ {
        Some(0x26u16)
    } else if name == "DOWN"@ {
        Some(0x28u16)
    } else if name == "SPACE"@ {
        Some(0x20u16)
    } else if name == "ENTER"@ || name == "RETURN"@ {
        Some(0xdu16)
    } else if name == "TAB"@ {
        Some(0x9u16)
    } else if name == "ESC"@ || name == "ESCAPE"@ {
        Some(0x1bu16)
    } else if name == "BACKSPACE"@ {
        Some(0x8u16)
    } else if name == "DELETE"@ || name == "DEL"@ {
        Some(0x2eu16)
    } else if name == "HOME"@ {
        Some(0x24u16)
    } else if name == "END"@ {
        Some(0x23u16)
    } else if name == "PAGEUP"@ || name == "PGUP"@ {
        Some(0x21u16)
    } else if name == "PAGEDOWN"@ || name == "PGDN"@ {
        Some(0x22u16)
    } else if name == "COMMA"@ {
        Some(0xbcu16)
    } else if name == "PERIOD"@ {
        Some(0xbeu16)
    } else if name == "MINUS"@ {
        Some(0xbdu16)
    } else if name == "PLUS"@ {
        Some(0xbbu16)
    } else {
        None
    }
}

fn code_of_named(name: &Vec<char>) -> (r: Option<u16>)
    ensures
        r == named_code(name@),
{
    if text::reads(name, "LEFT") {
        Some(0x25)
    } else if text::reads(name, "RIGHT") {
        Some(0x27)
    } else if text::reads(name, "UP") {
        Some(0x26)
    } else if text::reads(name, "DOWN") {
        Some(0x28)
    } else if text::reads(name, "SPACE") {
        Some(0x20)
    } else if text::reads(name, "ENTER") || text::reads(name, "RETURN") {
        Some(0xd)
    } else if text::reads(name, "TAB") {
        Some(0x9)
    } else if text::reads(name, "ESC") || text::reads(name, "ESCAPE") {
        Some(0x1b)
    } else if text::reads(name, "BACKSPACE") {
        Some(0x8)
    } else if text::reads(name, "DELETE") || text::reads(name, "DEL") {
        Some(0x2e)
    } else if text::reads(name, "HOME") {
        Some(0x24)
    } else if text::reads(name, "END") {
        Some(0x23)
    } else if text::reads(name, "PAGEUP") || text::reads(name, "PGUP") {
        Some(0x21)
    } else if text::reads(name, "PAGEDOWN") || text::reads(name, "PGDN") {
        Some(0x22)
    } else if text::reads(name, "COMMA") {
        Some(0xbc)
    } else if text::reads(name, "PERIOD") {
        Some(0xbe)
    } else if text::reads(name, "MINUS") {
        Some(0xbd)
    } else if text::reads(name, "PLUS") {
        Some(0xbb)
    } else {
        None
    }
}

/// The virtual key code of a name in upper case.
pub open spec fn key_code(name: Seq<char>) -> Option<u16> {
    if name.len() == 1 {
        character_code(name[0])
    } else {
        match function_key(name) {
            Some(n) => Some((0x6f + n) as u16),
            None => named_code(name),
        }
    }
}

/// The virtual key code of a name in upper case.
pub fn name_to_vk(name: &Vec<char>) -> (r: Option<u16>)
    ensures
        r == key_code(name@),
{
    if name.len() == 1 {
        code_of_character(name[0])
    } else {
        match function_key_of(name) {
            Some(n) => Some(0x6f + n),
            None => code_of_named(name),
        }
    }
}

/// A text with something in backquotes at the end.
pub open spec fn quoting(start: Seq<char>, quoted: Seq<char>) -> Seq<char> {
    start + quoted + "`"@
}

fn quote(start: &str, quoted: &str) -> (r: String)
    ensures
        r@ == quoting(start@, quoted@),
{
    let mut r = String::from_str(start);
    r.append(quoted);
    r.append("`");
    r
}

/// The modifiers and the key of the first parts of a combination, or what is
/// wrong with them.
pub open spec fn keys(parts: Seq<Seq<char>>, all: Seq<char>) -> Result<
    (Mods, Option<u16>),
    Seq<char>,
>
    decreases parts.len(),
{
    if parts.len() == 0 {
        Ok((Mods::none(), None))
    } else {
        match keys(parts.drop_last(), all) {
            Err(e) => Err(e),
            Ok((mods, vk)) => {
                let name = text::uppercase(text::trim(parts.last()));
                if name.len() == 0 {
                    Err(quoting("empty token in `"@, all))
                } else {
                    match modifier(name) {
                        Some(m) => Ok((mods.with(m), vk)),
                        None => if vk is Some {
                            Err(quoting("more than one non-modifier key in `"@, all))
                        } else {
                            match key_code(name) {
                                Some(code) => Ok((mods, Some(code))),
                                None => Err(quoting("unknown key `"@, name)),
                            }
                        },
                    }
                }
            },
        }
    }
}

/// The modifiers and the key of a combination such as `ALT+SHIFT+H`, in any
/// case, or what is wrong with it.
pub open spec fn combo(s: Seq<char>) -> Result<(Mods, u16), Seq<char>> {
    match keys(text::pieces(s, Separator::Plus), s) {
        Err(e) => Err(e),
        Ok((mods, Some(vk))) => Ok((mods, vk)),
        Ok((_, None)) => Err(quoting("no key found in `"@, s)),
    }
}

/// What is wrong with the first parts is wrong with the combination.
proof fn lemma_keys_stuck(parts: Seq<Seq<char>>, all: Seq<char>, k: int)
    requires
        0 <= k <= parts.len(),
        keys(parts.take(k), all) is Err,
    ensures
        keys(parts, all) == keys(parts.take(k), all),
    decreases parts.len(),
{
    if k == parts.len() {
        assert(parts.take(k) =~= parts);
    } else {
        assert(parts.drop_last().take(k) =~= parts.take(k));
        lemma_keys_stuck(parts.drop_last(), all, k);
    }
}

/// Read a key combination such as `ALT+SHIFT+H`, in any case.
pub fn parse_combo(s: &str) -> (r: Result<(Mods, u16), String>)
    ensures
        match r {
            Ok(v) => combo(s@) == Ok::<(Mods, u16), Seq<char>>(v),
            Err(e) => combo(s@) == Err::<(Mods, u16), Seq<char>>(e@),
        },
{
    let parts = text::pieces_of(&text::chars_of(s), Separator::Plus);
    let ghost all = text::views(parts@);
    let mut mods = Mods::empty();
    let mut vk: Option<u16> = None;
    let mut i: usize = 0;
    assert(all.take(0) =~= Seq::<Seq<char>>::empty());
    while i < parts.len()
        invariant
            i <= parts@.len(),
            all == text::views(parts@),
            all == text::pieces(s@, Separator::Plus),
            keys(all.take(i as int), s@) == Ok::<(Mods, Option<u16>), Seq<char>>((mods, vk)),
        decreases parts@.len() - i,
    {
        proof {
            assert(all.take(i + 1).drop_last() =~= all.take(i as int));
            assert(all.take(i + 1).last() == parts@[i as int]@);
        }
        let name = text::uppercase_of(&text::trimmed(&parts[i]));
        if name.len() == 0 {
            proof {
                lemma_keys_stuck(all, s@, i + 1);
            }
            return Err(quote("empty token in `", s));
        }
        match modifier_of(&name) {
            Some(m) => {
                mods.insert(m);
            },
            None => {
                if vk.is_some() {
                    proof {
                        lemma_keys_stuck(all, s@, i + 1);
                    }
                    return Err(quote("more than one non-modifier key in `", s));
                }
                match name_to_vk(&name) {
                    Some(code) => {
                        vk = Some(code);
                    },
                    None => {
                        proof {
                            lemma_keys_stuck(all, s@, i + 1);
                        }
                        return Err(quote("unknown key `", text::string_of(&name).as_str()));
                    },
                }
            },
        }
        i = i + 1;
    }
    assert(all.take(i as int) =~= all);
    match vk {
        Some(code) => Ok((mods, code)),
        None => Err(quote("no key found in `", s)),
    }
}

// ---- actions --------------------------------------------------------------

/// The direction of a word, in any case.
pub open spec fn direction(word: Option<Seq<char>>) -> Result<Direction, Seq<char>> {
    match word {
        None => Err("missing direction"@),
        Some(w) => {
            let low = text::lowercase(w);
            if low == "left"@ {
                Ok(Direction::Left)
            } else if low == "right"@ {
                Ok(Direction::Right)
            } else if low == "up"@ {
                Ok(Direction::Up)
            } else if low == "down"@ {
                Ok(Direction::Down)
            } else {
                Err(quoting("unknown direction `"@, low))
            }
        },
    }
}

/// Read a direction.
fn parse_dir(word: Option<&Vec<char>>) -> (r: Result<Direction, String>)
    ensures
        ({
            let named = direction(
                match word {
                    Some(w) => Some(w@),
                    None => None,
                },
            );
            match r {
                Ok(d) => named == Ok::<Direction, Seq<char>>(d),
                Err(e) => named == Err::<Direction, Seq<char>>(e@),
            }
        }),
{
    match word {
        None => Err(String::from_str("missing direction")),
        Some(w) => {
            let low = text::lowercase_of(w);
            if text::reads(&low, "left") {
                Ok(Direction::Left)
            } else if text::reads(&low, "right") {
                Ok(Direction::Right)
            } else if text::reads(&low, "up") {
                Ok(Direction::Up)
            } else if text::reads(&low, "down") {
                Ok(Direction::Down)
            } else {
                Err(quote("unknown direction `", text::string_of(&low).as_str()))
            }
        },
    }
}

/// The command of an action that is one word.
pub open spec fn simple(verb: Seq<char>) -> Option<Command> {
    if verb == "toggle_float"@ {
        Some(Command::ToggleFloat)
    } else if verb == "toggle_monocle"@ {
        Some(Command::ToggleMonocle)
    } else if verb == "toggle_stack"@ {
        Some(Command::ToggleStack)
    } else if verb == "toggle_layout"@ {
        Some(Command::ToggleLayoutMode)
    } else if verb == "stack_pop"@ {
        Some(Command::StackPop)
    } else if verb == "focus_stack_next"@ {
        Some(Command::FocusStackNext)
    } else if verb == "focus_stack_prev"@ {
        Some(Command::FocusStackPrev)
    } else if verb == "close"@ {
        Some(Command::CloseFocused)
    } else if verb == "toggle_pause"@ {
        Some(Command::TogglePause)
    } else if verb == "reload_config"@ {
        Some(Command::ReloadConfig)
    } else if verb == "peek_toggle"@ {
        Some(Command::PeekToggle)
    } else if verb == "peek_confirm"@ {
        Some(Command::PeekConfirm)
    } else if verb == "quit"@ {
        Some(Command::Quit)
    } else {
        None
    }
}

fn simple_of(verb: &Vec<char>) -> (r: Option<Command>)
    ensures
        r == simple(verb@),
{
    if text::reads(verb, "toggle_float") {
        Some(Command::ToggleFloat)
    } else if text::reads(verb, "toggle_monocle") {
        Some(Command::ToggleMonocle)
    } else if text::reads(verb, "toggle_stack") {
        Some(Command::ToggleStack)
    } else if text::reads(verb, "toggle_layout") {
        Some(Command::ToggleLayoutMode)
    } else if text::reads(verb, "stack_pop") {
        Some(Command::StackPop)
    } else if text::reads(verb, "focus_stack_next") {
        Some(Command::FocusStackNext)
    } else if text::reads(verb, "focus_stack_prev") {
        Some(Command::FocusStackPrev)
    } else if text::reads(verb, "close") {
        Some(Command::CloseFocused)
    } else if text::reads(verb, "toggle_pause") {
        Some(Command::TogglePause)
    } else if text::reads(verb, "reload_config") {
        Some(Command::ReloadConfig)
    } else if text::reads(verb, "peek_toggle") {
        Some(Command::PeekToggle)
    } else if text::reads(verb, "peek_confirm") {
        Some(Command::PeekConfirm)
    } else if text::reads(verb, "quit") {
        Some(Command::Quit)
    } else {
        None
    }
}

/// The command of an action that takes a direction.
pub open spec fn directed(verb: Seq<char>, dir: Direction) -> Option<Command> {
    if verb == "focus"@ {
        Some(Command::FocusDirection(dir))
    } else if verb == "move"@ {
        Some(Command::MoveDirection(dir))
    } else if verb == "focus_monitor"@ {
        Some(Command::FocusMonitor(dir))
    } else if verb == "stack_swallow"@ {
        Some(Command::StackSwallow(dir))
    } else {
        None
    }
}

fn directed_of(verb: &Vec<char>, dir: Direction) -> (r: Option<Command>)
    ensures
        r == directed(verb@, dir),
{
    if text::reads(verb, "focus") {
        Some(Command::FocusDirection(dir))
    } else if text::reads(verb, "move") {
        Some(Command::MoveDirection(dir))
    } else if text::reads(verb, "focus_monitor") {
        Some(Command::FocusMonitor(dir))
    } else if text::reads(verb, "stack_swallow") {
        Some(Command::StackSwallow(dir))
    } else {
        None
    }
}

/// The number after an action, or what is wrong with it.
pub open spec fn number_for(
    word: Option<Seq<char>>,
    least: int,
    most: int,
    missing: Seq<char>,
    bad: Seq<char>,
) -> Result<int, Seq<char>> {
    match word {
        None => Err(missing),
        Some(w) => match text::whole(w, least, most) {
            Ok(n) => Ok(n),
            Err(e) => Err(bad + e.words()),
        },
    }
}

fn complain(bad: &str, e: NumberError) -> (r: String)
    ensures
        r@ == bad@ + e.words(),
{
    let mut r = String::from_str(bad);
    r.append(e.message());
    r
}

fn workspace_for(word: Option<&Vec<char>>, missing: &str, bad: &str) -> (r: Result<
    WorkspaceId,
    String,
>)
    ensures
        ({
            let number = number_for(
                match word {
                    Some(w) => Some(w@),
                    None => None,
                },
                0,
                u32::MAX as int,
                missing@,
                bad@,
            );
            match r {
                Ok(ws) => number == Ok::<int, Seq<char>>(ws.0 as int),
                Err(e) => number == Err::<int, Seq<char>>(e@),
            }
        }),
{
    match word {
        None => Err(String::from_str(missing)),
        Some(w) => match text::read_u32(w) {
            Ok(n) => Ok(WorkspaceId(n)),
            Err(e) => Err(complain(bad, e)),
        },
    }
}

/// What follows the first word of a text.
pub open spec fn after_word(s: Seq<char>) -> Seq<char>
    decreases s.len(),
{
    if s.len() > 0 && !text::space(s.first()) {
        after_word(s.drop_first())
    } else {
        s
    }
}

/// What follows the first two words of a text, without white space around.
pub open spec fn after_two_words(s: Seq<char>) -> Seq<char> {
    text::trim(after_word(text::trim_front(after_word(text::trim_front(s)))))
}

/// Without single quotes around.
pub open spec fn unquoted(s: Seq<char>) -> Seq<char> {
    if s.len() >= 2 && s.first() == '\'' && s.last() == '\'' {
        s.subrange(1, s.len() - 1)
    } else {
        s
    }
}

fn skip_space(s: &Vec<char>, from: usize) -> (r: usize)
    requires
        from <= s@.len(),
    ensures
        from <= r <= s@.len(),
        s@.skip(r as int) == text::trim_front(s@.skip(from as int)),
{
    let mut at: usize = from;
    while at < s.len() && text::is_space(s[at])
        invariant
            from <= at <= s@.len(),
            text::trim_front(s@.skip(at as int)) == text::trim_front(s@.skip(from as int)),
        decreases s@.len() - at,
    {
        assert(s@.skip(at as int).drop_first() =~= s@.skip(at + 1));
        at = at + 1;
    }
    at
}

fn skip_word(s: &Vec<char>, from: usize) -> (r: usize)
    requires
        from <= s@.len(),
    ensures
        from <= r <= s@.len(),
        s@.skip(r as int) == after_word(s@.skip(from as int)),
{
    let mut at: usize = from;
    while at < s.len() && !text::is_space(s[at])
        invariant
            from <= at <= s@.len(),
            after_word(s@.skip(at as int)) == after_word(s@.skip(from as int)),
        decreases s@.len() - at,
    {
        assert(s@.skip(at as int).drop_first() =~= s@.skip(at + 1));
        at = at + 1;
    }
    at
}

/// The text of a notification.
fn notice_of(s: &Vec<char>) -> (r: Vec<char>)
    ensures
        r@ == unquoted(after_two_words(s@)),
{
    assert(s@.skip(0) =~= s@);
    let at = skip_space(s, 0);
    let at = skip_word(s, at);
    let at = skip_space(s, at);
    let at = skip_word(s, at);
    let tail = text::part(s, at, s.len());
    assert(tail@ =~= s@.skip(at as int));
    let tail = text::trimmed(&tail);
    let n: usize = tail.len();
    if n >= 2 && tail[0] == '\'' && tail[n - 1] == '\'' {
        text::part(&tail, 1, n - 1)
    } else {
        tail
    }
}

/// The level of a notification.
pub open spec fn level(word: Seq<char>) -> Option<ToastLevel> {
    if word == "info"@ {
        Some(ToastLevel::Info)
    } else if word == "warn"@ {
        Some(ToastLevel::Warn)
    } else if word == "error"@ {
        Some(ToastLevel::Error)
    } else {
        None
    }
}

fn level_of(word: &Vec<char>) -> (r: Option<ToastLevel>)
    ensures
        r == level(word@),
{
    if text::reads(word, "info") {
        Some(ToastLevel::Info)
    } else if text::reads(word, "warn") {
        Some(ToastLevel::Warn)
    } else if text::reads(word, "error") {
        Some(ToastLevel::Error)
    } else {
        None
    }
}

/// The word at a place, where there is one.
pub open spec fn word_at(all: Seq<Seq<char>>, i: int) -> Option<Seq<char>> {
    if i < all.len() {
        Some(all[i])
    } else {
        None
    }
}

/// What `notify <level> <text>` says.
pub open spec fn notice(s: Seq<char>) -> Result<Meaning, Seq<char>> {
    match word_at(text::words(s), 1) {
        None => Err("notify: missing level"@),
        Some(w) => match level(w) {
            None => Err(quoting("notify: unknown level `"@, w)),
            Some(l) => {
                let said = unquoted(after_two_words(s));
                if said.len() == 0 {
                    Err("notify: missing text"@)
                } else {
                    Ok(Meaning::Notify(l, said))
                }
            },
        },
    }
}

/// Whether an action takes a direction and nothing else.
pub open spec fn takes_direction(verb: Seq<char>) -> bool {
    verb == "focus"@ || verb == "move"@ || verb == "focus_monitor"@ || verb == "stack_swallow"@
}

/// The command that an action stands for, or what is wrong with it.
pub open spec fn action(s: Seq<char>) -> Result<Meaning, Seq<char>> {
    let all = text::words(s);
    if all.len() == 0 {
        Err("empty action"@)
    } else {
        let verb = all[0];
        let arg = word_at(all, 1);
        if takes_direction(verb) {
            match direction(arg) {
                Ok(d) => Ok(Meaning::Plain(directed(verb, d)->0)),
                Err(e) => Err(e),
            }
        } else if verb == "resize"@ {
            match direction(arg) {
                Err(e) => Err(e),
                Ok(dir) => match number_for(
                    word_at(all, 2),
                    i32::MIN as int,
                    i32::MAX as int,
                    "resize: missing delta"@,
                    "resize: bad delta: "@,
                ) {
                    Ok(n) => Ok(Meaning::Plain(Command::Resize { dir, delta_px: n as i32 })),
                    Err(e) => Err(e),
                },
            }
        } else if verb == "workspace"@ {
            match number_for(
                arg,
                0,
                u32::MAX as int,
                "workspace: missing N"@,
                "workspace: bad N: "@,
            ) {
                Ok(n) => Ok(Meaning::Plain(Command::SwitchWorkspace(WorkspaceId(n as u32)))),
                Err(e) => Err(e),
            }
        } else if verb == "move_to_workspace"@ {
            match number_for(
                arg,
                0,
                u32::MAX as int,
                "move_to_workspace: missing N"@,
                "move_to_workspace: bad N: "@,
            ) {
                Ok(n) => Ok(
                    Meaning::Plain(Command::MoveFocusedToWorkspace(WorkspaceId(n as u32))),
                ),
                Err(e) => Err(e),
            }
        } else if verb == "notify"@ {
            notice(s)
        } else {
            match simple(verb) {
                Some(c) => Ok(Meaning::Plain(c)),
                None => Err(quoting("unknown action `"@, verb)),
            }
        }
    }
}

fn resize_of(dir: Option<&Vec<char>>, by: Option<&Vec<char>>) -> (r: Result<Command, String>)
    ensures
        ({
            let dir_word = match dir {
                Some(w) => Some(w@),
                None => None,
            };
            let by_word = match by {
                Some(w) => Some(w@),
                None => None,
            };
            let number = number_for(
                by_word,
                i32::MIN as int,
                i32::MAX as int,
                "resize: missing delta"@,
                "resize: bad delta: "@,
            );
            match r {
                Ok(c) => {
                    &&& direction(dir_word) is Ok
                    &&& number is Ok
                    &&& c == (Command::Resize {
                        dir: direction(dir_word)->Ok_0,
                        delta_px: number->Ok_0 as i32,
                    })
                },
                Err(e) => if direction(dir_word) is Err {
                    direction(dir_word) == Err::<Direction, Seq<char>>(e@)
                } else {
                    number == Err::<int, Seq<char>>(e@)
                },
            }
        }),
{
    let dir = match parse_dir(dir) {
        Ok(d) => d,
        Err(e) => {
            return Err(e);
        },
    };
    match by {
        None => Err(String::from_str("resize: missing delta")),
        Some(w) => match text::read_i32(w) {
            Ok(delta_px) => Ok(Command::Resize { dir, delta_px }),
            Err(e) => Err(complain("resize: bad delta: ", e)),
        },
    }
}

fn notify_of(s: &Vec<char>, word: Option<&Vec<char>>) -> (r: Result<Command, String>)
    requires
        word_at(text::words(s@), 1) == (match word {
            Some(w) => Some(w@),
            None => None,
        }),
    ensures
        match r {
            Ok(c) => notice(s@) == Ok::<Meaning, Seq<char>>(c.meaning()),
            Err(e) => notice(s@) == Err::<Meaning, Seq<char>>(e@),
        },
{
    match word {
        None => Err(String::from_str("notify: missing level")),
        Some(w) => match level_of(w) {
            None => Err(quote("notify: unknown level `", text::string_of(w).as_str())),
            Some(l) => {
                let said = notice_of(s);
                if said.len() == 0 {
                    Err(String::from_str("notify: missing text"))
                } else {
                    Ok(Command::Notify(l, text::string_of(&said)))
                }
            },
        },
    }
}

/// Read an action such as `focus left`.
pub fn parse_action(s: &str) -> (r: Result<Command, String>)
    ensures
        match r {
            Ok(c) => action(s@) == Ok::<Meaning, Seq<char>>(c.meaning()),
            Err(e) => action(s@) == Err::<Meaning, Seq<char>>(e@),
        },
{
    let chars = text::chars_of(s);
    let all = text::words_of(&chars);
    let ghost listed = text::views(all@);
    if all.len() == 0 {
        return Err(String::from_str("empty action"));
    }
    let verb = &all[0];
    assert(verb@ == listed[0]);
    let arg: Option<&Vec<char>> = if all.len() > 1 {
        Some(&all[1])
    } else {
        None
    };
    let third: Option<&Vec<char>> = if all.len() > 2 {
        Some(&all[2])
    } else {
        None
    };
    assert(arg matches Some(w) ==> w@ == listed[1]);
    assert(third matches Some(w) ==> w@ == listed[2]);
    if text::reads(verb, "focus") || text::reads(verb, "move") || text::reads(
        verb,
        "focus_monitor",
    ) || text::reads(verb, "stack_swallow") {
        match parse_dir(arg) {
            Err(e) => Err(e),
            Ok(d) => match directed_of(verb, d) {
                Some(c) => Ok(c),
                None => Err(quote("unknown action `", text::string_of(verb).as_str())),
            },
        }
    } else if text::reads(verb, "resize") {
        resize_of(arg, third)
    } else if text::reads(verb, "workspace") {
        match workspace_for(arg, "workspace: missing N", "workspace: bad N: ") {
            Ok(ws) => Ok(Command::SwitchWorkspace(ws)),
            Err(e) => Err(e),
        }
    } else if text::reads(verb, "move_to_workspace") {
        match workspace_for(arg, "move_to_workspace: missing N", "move_to_workspace: bad N: ") {
            Ok(ws) => Ok(Command::MoveFocusedToWorkspace(ws)),
            Err(e) => Err(e),
        }
    } else if text::reads(verb, "notify") {
        notify_of(&chars, arg)
    } else {
        match simple_of(verb) {
            Some(c) => Ok(c),
            None => Err(quote("unknown action `", text::string_of(verb).as_str())),
        }
    }
}

// ---- what the words mean --------------------------------------------------

/// The names of the modifier keys, and the flags that they set. No other name is
/// one of a modifier.
pub proof fn law_modifiers_set_their_own_flags(m: Mods)
    ensures
        modifier("SUPER"@) == Some(Mod::Super) && modifier("WIN"@) == Some(Mod::Super),
        modifier("META"@) == Some(Mod::Super),
        modifier("CTRL"@) == Some(Mod::Ctrl) && modifier("CONTROL"@) == Some(Mod::Ctrl),
        modifier("ALT"@) == Some(Mod::Alt),
        modifier("SHIFT"@) == Some(Mod::Shift),
        m.with(Mod::Super) == (Mods { logo: true, ctrl: m.ctrl, alt: m.alt, shift: m.shift }),
        m.with(Mod::Ctrl) == (Mods { logo: m.logo, ctrl: true, alt: m.alt, shift: m.shift }),
        m.with(Mod::Alt) == (Mods { logo: m.logo, ctrl: m.ctrl, alt: true, shift: m.shift }),
        m.with(Mod::Shift) == (Mods { logo: m.logo, ctrl: m.ctrl, alt: m.alt, shift: true }),
        m.has(Mod::Super) == m.logo && m.has(Mod::Ctrl) == m.ctrl,
        m.has(Mod::Alt) == m.alt && m.has(Mod::Shift) == m.shift,
        Mods::none() == (Mods { logo: false, ctrl: false, alt: false, shift: false }),
{
    reveal_strlit("SUPER");
    reveal_strlit("WIN");
    reveal_strlit("META");
    reveal_strlit("CTRL");
    reveal_strlit("CONTROL");
    reveal_strlit("ALT");
    reveal_strlit("SHIFT");
    assert("SUPER"@[1] != "SHIFT"@[1]);
    assert("WIN"@[0] != "ALT"@[0]);
    assert("META"@[0] != "CTRL"@[0]);
}

/// The codes of the keys that have a name of their own, as the operating system
/// counts them.
pub proof fn law_named_keys_have_their_codes()
    ensures
        key_code("LEFT"@) == Some(0x25u16),
        key_code("RIGHT"@) == Some(0x27u16),
        key_code("UP"@) == Some(0x26u16),
        key_code("DOWN"@) == Some(0x28u16),
        key_code("SPACE"@) == Some(0x20u16),
        key_code("ENTER"@) == Some(0xdu16),
        key_code("RETURN"@) == Some(0xdu16),
        key_code("TAB"@) == Some(0x9u16),
        key_code("ESC"@) == Some(0x1bu16),
        key_code("ESCAPE"@) == Some(0x1bu16),
        key_code("BACKSPACE"@) == Some(0x8u16),
        key_code("DELETE"@) == Some(0x2eu16),
        key_code("DEL"@) == Some(0x2eu16),
        key_code("HOME"@) == Some(0x24u16),
        key_code("END"@) == Some(0x23u16),
        key_code("PAGEUP"@) == Some(0x21u16),
        key_code("PGUP"@) == Some(0x21u16),
        key_code("PAGEDOWN"@) == Some(0x22u16),
        key_code("PGDN"@) == Some(0x22u16),
        key_code("COMMA"@) == Some(0xbcu16),
        key_code("PERIOD"@) == Some(0xbeu16),
        key_code("MINUS"@) == Some(0xbdu16),
        key_code("PLUS"@) == Some(0xbbu16),
{
    reveal_strlit("LEFT");
    reveal_strlit("RIGHT");
    reveal_strlit("UP");
    reveal_strlit("DOWN");
    reveal_strlit("SPACE");
    reveal_strlit("ENTER");
    reveal_strlit("RETURN");
    reveal_strlit("TAB");
    reveal_strlit("ESC");
    reveal_strlit("ESCAPE");
    reveal_strlit("BACKSPACE");
    reveal_strlit("DELETE");
    reveal_strlit("DEL");
    reveal_strlit("HOME");
    reveal_strlit("END");
    reveal_strlit("PAGEUP");
    reveal_strlit("PGUP");
    reveal_strlit("PAGEDOWN");
    reveal_strlit("PGDN");
    reveal_strlit("COMMA");
    reveal_strlit("PERIOD");
    reveal_strlit("MINUS");
    reveal_strlit("PLUS");
    reveal_strlit("F1");
    reveal_strlit("F2");
    reveal_strlit("F3");
    reveal_strlit("F4");
    reveal_strlit("F5");
    reveal_strlit("F6");
    reveal_strlit("F7");
    reveal_strlit("F8");
    reveal_strlit("F9");
    reveal_strlit("F10");
    reveal_strlit("F11");
    reveal_strlit("F12");
    assert("LEFT"@[0] != "DOWN"@[0]);
    assert("LEFT"@[0] != "HOME"@[0]);
    assert("LEFT"@[0] != "PGUP"@[0]);
    assert("LEFT"@[0] != "PGDN"@[0]);
    assert("LEFT"@[0] != "PLUS"@[0]);
    assert("RIGHT"@[0] != "SPACE"@[0]);
    assert("RIGHT"@[0] != "ENTER"@[0]);
    assert("RIGHT"@[0] != "COMMA"@[0]);
    assert("RIGHT"@[0] != "MINUS"@[0]);
    assert("UP"@[0] != "F1"@[0]);
    assert("UP"@[0] != "F2"@[0]);
    assert("UP"@[0] != "F3"@[0]);
    assert("UP"@[0] != "F4"@[0]);
    assert("UP"@[0] != "F5"@[0]);
    assert("UP"@[0] != "F6"@[0]);
    assert("UP"@[0] != "F7"@[0]);
    assert("UP"@[0] != "F8"@[0]);
    assert("UP"@[0] != "F9"@[0]);
    assert("DOWN"@[0] != "HOME"@[0]);
    assert("DOWN"@[0] != "PGUP"@[0]);
    assert("DOWN"@[0] != "PGDN"@[0]);
    assert("DOWN"@[0] != "PLUS"@[0]);
    assert("SPACE"@[0] != "ENTER"@[0]);
    assert("SPACE"@[0] != "COMMA"@[0]);
    assert("SPACE"@[0] != "MINUS"@[0]);
    assert("ENTER"@[0] != "COMMA"@[0]);
    assert("ENTER"@[0] != "MINUS"@[0]);
    assert("RETURN"@[0] != "ESCAPE"@[0]);
    assert("RETURN"@[0] != "DELETE"@[0]);
    assert("RETURN"@[0] != "PAGEUP"@[0]);
    assert("RETURN"@[0] != "PERIOD"@[0]);
    assert("TAB"@[0] != "ESC"@[0]);
    assert("TAB"@[0] != "DEL"@[0]);
    assert("TAB"@[0] != "END"@[0]);
    assert("TAB"@[0] != "F10"@[0]);
    assert("TAB"@[0] != "F11"@[0]);
    assert("TAB"@[0] != "F12"@[0]);
    assert("ESC"@[0] != "DEL"@[0]);
    assert("ESC"@[1] != "END"@[1]);
    assert("ESC"@[0] != "F10"@[0]);
    assert("ESC"@[0] != "F11"@[0]);
    assert("ESC"@[0] != "F12"@[0]);
    assert("ESCAPE"@[0] != "DELETE"@[0]);
    assert("ESCAPE"@[0] != "PAGEUP"@[0]);
    assert("ESCAPE"@[0] != "PERIOD"@[0]);
    assert("DELETE"@[0] != "PAGEUP"@[0]);
    assert("DELETE"@[0] != "PERIOD"@[0]);
    assert("DEL"@[0] != "END"@[0]);
    assert("DEL"@[0] != "F10"@[0]);
    assert("DEL"@[0] != "F11"@[0]);
    assert("DEL"@[0] != "F12"@[0]);
    assert("HOME"@[0] != "PGUP"@[0]);
    assert("HOME"@[0] != "PGDN"@[0]);
    assert("HOME"@[0] != "PLUS"@[0]);
    assert("END"@[0] != "F10"@[0]);
    assert("END"@[0] != "F11"@[0]);
    assert("END"@[0] != "F12"@[0]);
    assert("PAGEUP"@[1] != "PERIOD"@[1]);
    assert("PGUP"@[2] != "PGDN"@[2]);
    assert("PGUP"@[1] != "PLUS"@[1]);
    assert("PGDN"@[1] != "PLUS"@[1]);
    assert("COMMA"@[0] != "MINUS"@[0]);
    assert("F1"@[1] != "F2"@[1]);
    assert("F1"@[1] != "F3"@[1]);
    assert("F1"@[1] != "F4"@[1]);
    assert("F1"@[1] != "F5"@[1]);
    assert("F1"@[1] != "F6"@[1]);
    assert("F1"@[1] != "F7"@[1]);
    assert("F1"@[1] != "F8"@[1]);
    assert("F1"@[1] != "F9"@[1]);
    assert("F2"@[1] != "F3"@[1]);
    assert("F2"@[1] != "F4"@[1]);
    assert("F2"@[1] != "F5"@[1]);
    assert("F2"@[1] != "F6"@[1]);
    assert("F2"@[1] != "F7"@[1]);
    assert("F2"@[1] != "F8"@[1]);
    assert("F2"@[1] != "F9"@[1]);
    assert("F3"@[1] != "F4"@[1]);
    assert("F3"@[1] != "F5"@[1]);
    assert("F3"@[1] != "F6"@[1]);
    assert("F3"@[1] != "F7"@[1]);
    assert("F3"@[1] != "F8"@[1]);
    assert("F3"@[1] != "F9"@[1]);
    assert("F4"@[1] != "F5"@[1]);
    assert("F4"@[1] != "F6"@[1]);
    assert("F4"@[1] != "F7"@[1]);
    assert("F4"@[1] != "F8"@[1]);
    assert("F4"@[1] != "F9"@[1]);
    assert("F5"@[1] != "F6"@[1]);
    assert("F5"@[1] != "F7"@[1]);
    assert("F5"@[1] != "F8"@[1]);
    assert("F5"@[1] != "F9"@[1]);
    assert("F6"@[1] != "F7"@[1]);
    assert("F6"@[1] != "F8"@[1]);
    assert("F6"@[1] != "F9"@[1]);
    assert("F7"@[1] != "F8"@[1]);
    assert("F7"@[1] != "F9"@[1]);
    assert("F8"@[1] != "F9"@[1]);
    assert("F10"@[2] != "F11"@[2]);
    assert("F10"@[2] != "F12"@[2]);
    assert("F11"@[2] != "F12"@[2]);
}

/// The function keys have the codes from 0x70 on.
pub proof fn law_function_keys_have_their_codes()
    ensures
        key_code("F1"@) == Some(0x70u16),
        key_code("F2"@) == Some(0x71u16),
        key_code("F3"@) == Some(0x72u16),
        key_code("F4"@) == Some(0x73u16),
        key_code("F5"@) == Some(0x74u16),
        key_code("F6"@) == Some(0x75u16),
        key_code("F7"@) == Some(0x76u16),
        key_code("F8"@) == Some(0x77u16),
        key_code("F9"@) == Some(0x78u16),
        key_code("F10"@) == Some(0x79u16),
        key_code("F11"@) == Some(0x7au16),
        key_code("F12"@) == Some(0x7bu16),
{
    reveal_strlit("F1");
    reveal_strlit("F2");
    reveal_strlit("F3");
    reveal_strlit("F4");
    reveal_strlit("F5");
    reveal_strlit("F6");
    reveal_strlit("F7");
    reveal_strlit("F8");
    reveal_strlit("F9");
    reveal_strlit("F10");
    reveal_strlit("F11");
    reveal_strlit("F12");
    assert("F1"@[1] != "F2"@[1]);
    assert("F1"@[1] != "F3"@[1]);
    assert("F1"@[1] != "F4"@[1]);
    assert("F1"@[1] != "F5"@[1]);
    assert("F1"@[1] != "F6"@[1]);
    assert("F1"@[1] != "F7"@[1]);
    assert("F1"@[1] != "F8"@[1]);
    assert("F1"@[1] != "F9"@[1]);
    assert("F2"@[1] != "F3"@[1]);
    assert("F2"@[1] != "F4"@[1]);
    assert("F2"@[1] != "F5"@[1]);
    assert("F2"@[1] != "F6"@[1]);
    assert("F2"@[1] != "F7"@[1]);
    assert("F2"@[1] != "F8"@[1]);
    assert("F2"@[1] != "F9"@[1]);
    assert("F3"@[1] != "F4"@[1]);
    assert("F3"@[1] != "F5"@[1]);
    assert("F3"@[1] != "F6"@[1]);
    assert("F3"@[1] != "F7"@[1]);
    assert("F3"@[1] != "F8"@[1]);
    assert("F3"@[1] != "F9"@[1]);
    assert("F4"@[1] != "F5"@[1]);
    assert("F4"@[1] != "F6"@[1]);
    assert("F4"@[1] != "F7"@[1]);
    assert("F4"@[1] != "F8"@[1]);
    assert("F4"@[1] != "F9"@[1]);
    assert("F5"@[1] != "F6"@[1]);
    assert("F5"@[1] != "F7"@[1]);
    assert("F5"@[1] != "F8"@[1]);
    assert("F5"@[1] != "F9"@[1]);
    assert("F6"@[1] != "F7"@[1]);
    assert("F6"@[1] != "F8"@[1]);
    assert("F6"@[1] != "F9"@[1]);
    assert("F7"@[1] != "F8"@[1]);
    assert("F7"@[1] != "F9"@[1]);
    assert("F8"@[1] != "F9"@[1]);
    assert("F10"@[2] != "F11"@[2]);
    assert("F10"@[2] != "F12"@[2]);
    assert("F11"@[2] != "F12"@[2]);
}

/// A letter or a digit is the code of its own key, and the punctuation has the
/// codes of the US keyboard.
pub proof fn law_characters_have_their_codes(c: char)
    ensures
        'A' <= c <= 'Z' ==> key_code(seq![c]) == Some(c as u16),
        '0' <= c <= '9' ==> key_code(seq![c]) == Some(c as u16),
        key_code(seq![';']) == Some(0xbau16),
        key_code(seq!['=']) == Some(0xbbu16),
        key_code(seq!['+']) == Some(0xbbu16),
        key_code(seq![',']) == Some(0xbcu16),
        key_code(seq!['-']) == Some(0xbdu16),
        key_code(seq!['.']) == Some(0xbeu16),
        key_code(seq!['/']) == Some(0xbfu16),
        key_code(seq!['`']) == Some(0xc0u16),
        key_code(seq!['[']) == Some(0xdbu16),
        key_code(seq!['\\']) == Some(0xdcu16),
        key_code(seq![']']) == Some(0xddu16),
        key_code(seq!['\'']) == Some(0xdeu16),
{
}

/// The part of a combination at `i`, as it is looked up.
pub open spec fn part_name(parts: Seq<Seq<char>>, i: int) -> Seq<char> {
    text::uppercase(text::trim(parts[i]))
}

/// Whether all parts but the one at `k` are modifiers, and that one is a key.
pub open spec fn is_key_at(parts: Seq<Seq<char>>, k: int, vk: u16) -> bool {
    &&& 0 <= k < parts.len()
    &&& modifier(part_name(parts, k)) is None
    &&& key_code(part_name(parts, k)) == Some(vk)
    &&& forall|i: int| 0 <= i < parts.len() && i != k ==> modifier(#[trigger] part_name(parts, i)) is Some
}

proof fn lemma_keys(parts: Seq<Seq<char>>, all: Seq<char>)
    ensures
        match keys(parts, all) {
            Ok((mods, vk)) => {
                &&& forall|i: int| 0 <= i < parts.len() ==> (#[trigger] part_name(parts, i)).len() > 0
                &&& forall|m: Mod| #[trigger]
                    mods.has(m) <==> exists|i: int|
                        0 <= i < parts.len() && modifier(#[trigger] part_name(parts, i)) == Some(m)
                &&& match vk {
                    None => forall|i: int|
                        0 <= i < parts.len() ==> modifier(#[trigger] part_name(parts, i)) is Some,
                    Some(code) => exists|k: int| is_key_at(parts, k, code),
                }
            },
            Err(_) => {
                ||| exists|i: int| 0 <= i < parts.len() && (#[trigger] part_name(parts, i)).len() == 0
                ||| exists|i: int|
                    0 <= i < parts.len() && modifier(#[trigger] part_name(parts, i)) is None && key_code(
                        part_name(parts, i),
                    ) is None
                ||| exists|i: int, j: int|
                    0 <= i < j < parts.len() && modifier(#[trigger] part_name(parts, i)) is None
                        && modifier(#[trigger] part_name(parts, j)) is None
            },
        },
    decreases parts.len(),
{
    if parts.len() > 0 {
        let front = parts.drop_last();
        let n = front.len() as int;
        lemma_keys(front, all);
        assert forall|i: int| 0 <= i < n implies #[trigger] part_name(parts, i) == part_name(
            front,
            i,
        ) by {}
        assert forall|i: int| 0 <= i < n implies #[trigger] part_name(front, i) == part_name(
            parts,
            i,
        ) by {}
        let name = part_name(parts, n);
        match keys(front, all) {
            Err(e) => {},
            Ok((mods, vk)) => {
                if name.len() == 0 {
                } else {
                    match modifier(name) {
                        Some(m) => {
                            assert forall|x: Mod| #[trigger] mods.with(m).has(x) <==> exists|i: int|
                                0 <= i < parts.len() && modifier(#[trigger] part_name(parts, i))
                                    == Some(x) by {
                                assert(mods.has(x) <==> exists|i: int|
                                    0 <= i < n && modifier(#[trigger] part_name(front, i)) == Some(x));
                                if mods.has(x) {
                                    let i = choose|i: int|
                                        0 <= i < n && modifier(#[trigger] part_name(front, i)) == Some(
                                            x,
                                        );
                                    assert(modifier(part_name(parts, i)) == Some(x));
                                }
                                if x == m {
                                    assert(modifier(part_name(parts, n)) == Some(x));
                                }
                                if exists|i: int|
                                    0 <= i < parts.len() && modifier(#[trigger] part_name(parts, i))
                                        == Some(x) {
                                    let i = choose|i: int|
                                        0 <= i < parts.len() && modifier(#[trigger] part_name(parts, i))
                                            == Some(x);
                                    if i < n {
                                        assert(modifier(part_name(front, i)) == Some(x));
                                    }
                                }
                            }
                            if vk is Some {
                                let k = choose|k: int| is_key_at(front, k, vk->0);
                                assert(is_key_at(parts, k, vk->0));
                            }
                        },
                        None => {
                            if vk is Some {
                                let k = choose|k: int| is_key_at(front, k, vk->0);
                                assert(modifier(part_name(parts, k)) is None);
                                assert(modifier(part_name(parts, n)) is None);
                            } else if key_code(name) is Some {
                                assert(is_key_at(parts, n, key_code(name)->0));
                                assert forall|x: Mod| #[trigger] mods.has(x) <==> exists|i: int|
                                    0 <= i < parts.len() && modifier(#[trigger] part_name(parts, i))
                                        == Some(x) by {
                                    if mods.has(x) {
                                        let i = choose|i: int|
                                            0 <= i < n && modifier(#[trigger] part_name(front, i))
                                                == Some(x);
                                        assert(modifier(part_name(parts, i)) == Some(x));
                                    }
                                    if exists|i: int|
                                        0 <= i < parts.len() && modifier(
                                            #[trigger] part_name(parts, i),
                                        ) == Some(x) {
                                        let i = choose|i: int|
                                            0 <= i < parts.len() && modifier(
                                                #[trigger] part_name(parts, i),
                                            ) == Some(x);
                                        assert(modifier(part_name(front, i)) == Some(x));
                                    }
                                }
                            } else {
                                assert(key_code(part_name(parts, n)) is None);
                            }
                        },
                    }
                }
            },
        }
    }
}

/// A combination is made of its parts, whatever their order: it has exactly the
/// modifiers that are named, and exactly one of its parts is the key. Where a part
/// is empty or unknown, or there is not exactly one key, there is none.
pub proof fn law_combination_has_its_parts(s: Seq<char>, parts: Seq<Seq<char>>)
    requires
        parts == text::pieces(s, Separator::Plus),
    ensures
        combo(s) matches Ok(c) ==> exists|k: int| is_key_at(parts, k, c.1),
        combo(s) matches Ok(c) ==> (c.0.logo <==> exists|i: int|
            0 <= i < parts.len() && modifier(#[trigger] part_name(parts, i)) == Some(Mod::Super)),
        combo(s) matches Ok(c) ==> (c.0.ctrl <==> exists|i: int|
            0 <= i < parts.len() && modifier(#[trigger] part_name(parts, i)) == Some(Mod::Ctrl)),
        combo(s) matches Ok(c) ==> (c.0.alt <==> exists|i: int|
            0 <= i < parts.len() && modifier(#[trigger] part_name(parts, i)) == Some(Mod::Alt)),
        combo(s) matches Ok(c) ==> (c.0.shift <==> exists|i: int|
            0 <= i < parts.len() && modifier(#[trigger] part_name(parts, i)) == Some(Mod::Shift)),
        combo(s) is Err ==> forall|k: int, vk: u16| #[trigger]
            is_key_at(parts, k, vk) ==> part_name(parts, k).len() == 0,
{
    lemma_keys(parts, s);
    match keys(parts, s) {
        Ok((mods, vk)) => {
            assert(mods.has(Mod::Super) == mods.logo);
            assert(mods.has(Mod::Ctrl) == mods.ctrl);
            assert(mods.has(Mod::Alt) == mods.alt);
            assert(mods.has(Mod::Shift) == mods.shift);
            if vk is Some {
                let k = choose|k: int| is_key_at(parts, k, vk->0);
                assert(is_key_at(parts, k, combo(s)->Ok_0.1));
            } else {
                assert forall|k: int, c: u16| !(#[trigger] is_key_at(parts, k, c)) by {
                    if is_key_at(parts, k, c) {
                        assert(modifier(part_name(parts, k)) is Some);
                    }
                }
            }
        },
        Err(_) => {
            reveal_strlit("SUPER");
            reveal_strlit("WIN");
            reveal_strlit("META");
            reveal_strlit("CTRL");
            reveal_strlit("CONTROL");
            reveal_strlit("ALT");
            reveal_strlit("SHIFT");
            assert forall|k: int, c: u16|
                !(#[trigger] is_key_at(parts, k, c)) || part_name(parts, k).len() == 0 by {
                if is_key_at(parts, k, c) && part_name(parts, k).len() > 0 {
                    assert forall|i: int| 0 <= i < parts.len() implies (#[trigger] part_name(
                        parts,
                        i,
                    )).len() > 0 && (i != k ==> modifier(part_name(parts, i)) is Some) by {
                        if i != k {
                            assert(modifier(part_name(parts, i)) is Some);
                        }
                    }
                }
            }
        },
    }
}

/// The words `left`, `right`, `up` and `down` are those directions, in any case, and
/// no other word is a direction.
pub proof fn law_words_name_directions(w: Seq<char>)
    ensures
        text::same_letters(w, "left"@) ==> direction(Some(w)) == Ok::<Direction, Seq<char>>(
            Direction::Left,
        ),
        text::same_letters(w, "right"@) ==> direction(Some(w)) == Ok::<Direction, Seq<char>>(
            Direction::Right,
        ),
        text::same_letters(w, "up"@) ==> direction(Some(w)) == Ok::<Direction, Seq<char>>(
            Direction::Up,
        ),
        text::same_letters(w, "down"@) ==> direction(Some(w)) == Ok::<Direction, Seq<char>>(
            Direction::Down,
        ),
        direction(Some(w)) is Ok ==> text::same_letters(w, "left"@) || text::same_letters(
            w,
            "right"@,
        ) || text::same_letters(w, "up"@) || text::same_letters(w, "down"@),
        direction(None) is Err,
{
    reveal_strlit("left");
    reveal_strlit("right");
    reveal_strlit("up");
    reveal_strlit("down");
    assert(text::lowercase("left"@) =~= "left"@);
    assert(text::lowercase("right"@) =~= "right"@);
    assert(text::lowercase("up"@) =~= "up"@);
    assert(text::lowercase("down"@) =~= "down"@);
    assert("left"@[0] != "down"@[0]);
}

/// The words that the actions begin with are told apart.
proof fn lemma_verbs_differ()
    ensures
        "focus"@.len() == 5,
        "move"@.len() == 4,
        "focus_monitor"@.len() == 13,
        "stack_swallow"@.len() == 13,
        "resize"@.len() == 6,
        "workspace"@.len() == 9,
        "move_to_workspace"@.len() == 17,
        "notify"@.len() == 6,
        "toggle_float"@.len() == 12,
        "toggle_monocle"@.len() == 14,
        "toggle_stack"@.len() == 12,
        "toggle_layout"@.len() == 13,
        "stack_pop"@.len() == 9,
        "focus_stack_next"@.len() == 16,
        "focus_stack_prev"@.len() == 16,
        "close"@.len() == 5,
        "toggle_pause"@.len() == 12,
        "reload_config"@.len() == 13,
        "peek_toggle"@.len() == 11,
        "peek_confirm"@.len() == 12,
        "quit"@.len() == 4,
        "focus"@ != "close"@,
        "move"@ != "quit"@,
        "focus_monitor"@ != "stack_swallow"@,
        "focus_monitor"@ != "toggle_layout"@,
        "focus_monitor"@ != "reload_config"@,
        "stack_swallow"@ != "toggle_layout"@,
        "stack_swallow"@ != "reload_config"@,
        "resize"@ != "notify"@,
        "workspace"@ != "stack_pop"@,
        "toggle_float"@ != "toggle_stack"@,
        "toggle_float"@ != "toggle_pause"@,
        "toggle_float"@ != "peek_confirm"@,
        "toggle_stack"@ != "toggle_pause"@,
        "toggle_stack"@ != "peek_confirm"@,
        "toggle_layout"@ != "reload_config"@,
        "focus_stack_next"@ != "focus_stack_prev"@,
        "toggle_pause"@ != "peek_confirm"@,
{
    reveal_strlit("focus");
    reveal_strlit("move");
    reveal_strlit("focus_monitor");
    reveal_strlit("stack_swallow");
    reveal_strlit("resize");
    reveal_strlit("workspace");
    reveal_strlit("move_to_workspace");
    reveal_strlit("notify");
    reveal_strlit("toggle_float");
    reveal_strlit("toggle_monocle");
    reveal_strlit("toggle_stack");
    reveal_strlit("toggle_layout");
    reveal_strlit("stack_pop");
    reveal_strlit("focus_stack_next");
    reveal_strlit("focus_stack_prev");
    reveal_strlit("close");
    reveal_strlit("toggle_pause");
    reveal_strlit("reload_config");
    reveal_strlit("peek_toggle");
    reveal_strlit("peek_confirm");
    reveal_strlit("quit");
    assert("focus"@[0] != "close"@[0]);
    assert("move"@[0] != "quit"@[0]);
    assert("focus_monitor"@[0] != "stack_swallow"@[0]);
    assert("focus_monitor"@[0] != "toggle_layout"@[0]);
    assert("focus_monitor"@[0] != "reload_config"@[0]);
    assert("stack_swallow"@[0] != "toggle_layout"@[0]);
    assert("stack_swallow"@[0] != "reload_config"@[0]);
    assert("resize"@[0] != "notify"@[0]);
    assert("workspace"@[0] != "stack_pop"@[0]);
    assert("toggle_float"@[7] != "toggle_stack"@[7]);
    assert("toggle_float"@[7] != "toggle_pause"@[7]);
    assert("toggle_float"@[0] != "peek_confirm"@[0]);
    assert("toggle_stack"@[7] != "toggle_pause"@[7]);
    assert("toggle_stack"@[0] != "peek_confirm"@[0]);
    assert("toggle_layout"@[0] != "reload_config"@[0]);
    assert("focus_stack_next"@[12] != "focus_stack_prev"@[12]);
    assert("toggle_pause"@[0] != "peek_confirm"@[0]);
}

/// The actions of one word, each with its command.
pub proof fn law_plain_actions(s: Seq<char>)
    requires
        text::words(s).len() > 0,
    ensures
        text::words(s)[0] == "toggle_float"@ ==> action(s) == Ok::<Meaning, Seq<char>>(
            Meaning::Plain(Command::ToggleFloat),
        ),
        text::words(s)[0] == "toggle_monocle"@ ==> action(s) == Ok::<Meaning, Seq<char>>(
            Meaning::Plain(Command::ToggleMonocle),
        ),
        text::words(s)[0] == "toggle_stack"@ ==> action(s) == Ok::<Meaning, Seq<char>>(
            Meaning::Plain(Command::ToggleStack),
        ),
        text::words(s)[0] == "toggle_layout"@ ==> action(s) == Ok::<Meaning, Seq<char>>(
            Meaning::Plain(Command::ToggleLayoutMode),
        ),
        text::words(s)[0] == "stack_pop"@ ==> action(s) == Ok::<Meaning, Seq<char>>(
            Meaning::Plain(Command::StackPop),
        ),
        text::words(s)[0] == "focus_stack_next"@ ==> action(s) == Ok::<Meaning, Seq<char>>(
            Meaning::Plain(Command::FocusStackNext),
        ),
        text::words(s)[0] == "focus_stack_prev"@ ==> action(s) == Ok::<Meaning, Seq<char>>(
            Meaning::Plain(Command::FocusStackPrev),
        ),
        text::words(s)[0] == "close"@ ==> action(s) == Ok::<Meaning, Seq<char>>(
            Meaning::Plain(Command::CloseFocused),
        ),
        text::words(s)[0] == "toggle_pause"@ ==> action(s) == Ok::<Meaning, Seq<char>>(
            Meaning::Plain(Command::TogglePause),
        ),
        text::words(s)[0] == "reload_config"@ ==> action(s) == Ok::<Meaning, Seq<char>>(
            Meaning::Plain(Command::ReloadConfig),
        ),
        text::words(s)[0] == "peek_toggle"@ ==> action(s) == Ok::<Meaning, Seq<char>>(
            Meaning::Plain(Command::PeekToggle),
        ),
        text::words(s)[0] == "peek_confirm"@ ==> action(s) == Ok::<Meaning, Seq<char>>(
            Meaning::Plain(Command::PeekConfirm),
        ),
        text::words(s)[0] == "quit"@ ==> action(s) == Ok::<Meaning, Seq<char>>(
            Meaning::Plain(Command::Quit),
        ),
{
    lemma_verbs_differ();
}

/// The actions that take a direction, each with its command: the word behind the
/// action says where to. A resize takes a number of pixels too.
pub proof fn law_actions_with_a_direction(s: Seq<char>, d: Direction, n: int)
    requires
        text::words(s).len() >= 2,
        match d {
            Direction::Left => text::same_letters(text::words(s)[1], "left"@),
            Direction::Right => text::same_letters(text::words(s)[1], "right"@),
            Direction::Up => text::same_letters(text::words(s)[1], "up"@),
            Direction::Down => text::same_letters(text::words(s)[1], "down"@),
        },
    ensures
        text::words(s)[0] == "focus"@ ==> action(s) == Ok::<Meaning, Seq<char>>(
            Meaning::Plain(Command::FocusDirection(d)),
        ),
        text::words(s)[0] == "move"@ ==> action(s) == Ok::<Meaning, Seq<char>>(
            Meaning::Plain(Command::MoveDirection(d)),
        ),
        text::words(s)[0] == "focus_monitor"@ ==> action(s) == Ok::<Meaning, Seq<char>>(
            Meaning::Plain(Command::FocusMonitor(d)),
        ),
        text::words(s)[0] == "stack_swallow"@ ==> action(s) == Ok::<Meaning, Seq<char>>(
            Meaning::Plain(Command::StackSwallow(d)),
        ),
        text::words(s)[0] == "resize"@ && text::words(s).len() >= 3 && 0 <= n <= i32::MAX
            && text::words(s)[2] == text::decimal(n as nat) ==> action(s) == Ok::<
            Meaning,
            Seq<char>,
        >(Meaning::Plain(Command::Resize { dir: d, delta_px: n as i32 })),
        text::words(s)[0] == "resize"@ && text::words(s).len() >= 3 && 0 <= n <= 0x8000_0000
            && text::words(s)[2] == seq!['-'] + text::decimal(n as nat) ==> action(s) == Ok::<
            Meaning,
            Seq<char>,
        >(Meaning::Plain(Command::Resize { dir: d, delta_px: (-n) as i32 })),
{
    lemma_verbs_differ();
    law_words_name_directions(text::words(s)[1]);
    if n >= 0 {
        text::law_numbers_are_read_back(n as nat, i32::MIN as int, i32::MAX as int);
    }
}

/// The actions that take the number of a workspace, each with its command.
pub proof fn law_actions_with_a_workspace(s: Seq<char>, n: u32)
    requires
        text::words(s).len() >= 2,
        text::words(s)[1] == text::decimal(n as nat),
    ensures
        text::words(s)[0] == "workspace"@ ==> action(s) == Ok::<Meaning, Seq<char>>(
            Meaning::Plain(Command::SwitchWorkspace(WorkspaceId(n))),
        ),
        text::words(s)[0] == "move_to_workspace"@ ==> action(s) == Ok::<Meaning, Seq<char>>(
            Meaning::Plain(Command::MoveFocusedToWorkspace(WorkspaceId(n))),
        ),
{
    lemma_verbs_differ();
    text::law_numbers_are_read_back(n as nat, 0, u32::MAX as int);
}

/// A text without any action, or with an action that there is not, is no action.
pub proof fn law_unknown_actions_are_refused(s: Seq<char>)
    ensures
        text::words(s).len() == 0 ==> action(s) == Err::<Meaning, Seq<char>>("empty action"@),
        action(s) is Ok ==> text::words(s).len() > 0 && {
            let verb = text::words(s)[0];
            ||| verb == "focus"@
            ||| verb == "move"@
            ||| verb == "focus_monitor"@
            ||| verb == "stack_swallow"@
            ||| verb == "resize"@
            ||| verb == "workspace"@
            ||| verb == "move_to_workspace"@
            ||| verb == "notify"@
            ||| verb == "toggle_float"@
            ||| verb == "toggle_monocle"@
            ||| verb == "toggle_stack"@
            ||| verb == "toggle_layout"@
            ||| verb == "stack_pop"@
            ||| verb == "focus_stack_next"@
            ||| verb == "focus_stack_prev"@
            ||| verb == "close"@
            ||| verb == "toggle_pause"@
            ||| verb == "reload_config"@
            ||| verb == "peek_toggle"@
            ||| verb == "peek_confirm"@
            ||| verb == "quit"@
        },
{
}

/// The levels of a notification, by their words, and the text behind them.
pub proof fn law_notify_says_the_text(s: Seq<char>)
    requires
        text::words(s).len() >= 2,
        text::words(s)[0] == "notify"@,
    ensures
        ({
            let said = unquoted(after_two_words(s));
            let word = text::words(s)[1];
            &&& said.len() > 0 && word == "info"@ ==> action(s) == Ok::<Meaning, Seq<char>>(
                Meaning::Notify(ToastLevel::Info, said),
            )
            &&& said.len() > 0 && word == "warn"@ ==> action(s) == Ok::<Meaning, Seq<char>>(
                Meaning::Notify(ToastLevel::Warn, said),
            )
            &&& said.len() > 0 && word == "error"@ ==> action(s) == Ok::<Meaning, Seq<char>>(
                Meaning::Notify(ToastLevel::Error, said),
            )
            &&& action(s) is Ok ==> said.len() > 0 && (word == "info"@ || word == "warn"@ || word
                == "error"@)
        }),
{
    lemma_verbs_differ();
    reveal_strlit("info");
    reveal_strlit("warn");
    reveal_strlit("error");
    assert("info"@[0] != "warn"@[0]);
}

// ---- the table of bindings ------------------------------------------------

/// The number of a binding.
#[derive(Debug, Clone, Copy, PartialEq, Eq, Hash, Structural)]
pub struct HotkeyId(pub u32);

/// A key combination that was pressed.
#[derive(Debug, Clone, Copy, PartialEq, Eq, Structural)]
pub struct HotkeyMatch {
    pub id: HotkeyId,
    pub mods: Mods,
    pub vk: u16,
}

/// The numbers of the combinations to listen for.
#[derive(Debug, Clone)]
pub struct HotkeyTable {
    pub entries: Vec<(Mods, u16, HotkeyId)>,
}

/// Whether the entry at `i` is that of a combination.
pub open spec fn is_entry(entries: Seq<(Mods, u16, HotkeyId)>, i: int, key: (Mods, u16)) -> bool {
    &&& 0 <= i < entries.len()
    &&& entries[i].0 == key.0
    &&& entries[i].1 == key.1
}

impl View for HotkeyTable {
    type V = Map<(Mods, u16), HotkeyId>;

    open spec fn view(&self) -> Map<(Mods, u16), HotkeyId> {
        Map::new(
            |key: (Mods, u16)| exists|i: int| is_entry(self.entries@, i, key),
            |key: (Mods, u16)| self.entries@[choose|i: int| is_entry(self.entries@, i, key)].2,
        )
    }
}

impl HotkeyTable {
    /// No combination has two entries.
    pub open spec fn distinct(&self) -> bool {
        forall|i: int, j: int|
            0 <= i < self.entries@.len() && 0 <= j < self.entries@.len() && i != j ==> (
            #[trigger] self.entries@[i]).0 != (#[trigger] self.entries@[j]).0 || self.entries@[i].1
                != self.entries@[j].1
    }

    /// The combination that was pressed, by the number that the system has for
    /// it: combinations are registered in order, from 1. One that the system did
    /// not accept is never pressed.
    pub fn match_for(&self, accepted: &Vec<bool>, win_id: i32) -> (r: Option<HotkeyMatch>)
        ensures
            r == (if 1 <= win_id <= self.entries@.len() && win_id <= accepted@.len()
                && accepted@[win_id - 1] {
                Some(
                    HotkeyMatch {
                        id: self.entries@[win_id - 1].2,
                        mods: self.entries@[win_id - 1].0,
                        vk: self.entries@[win_id - 1].1,
                    },
                )
            } else {
                None
            }),
    {
        if win_id < 1 {
            return None;
        }
        let at: usize = (win_id - 1) as usize;
        if at < self.entries.len() && at < accepted.len() && accepted[at] {
            Some(
                HotkeyMatch {
                    id: self.entries[at].2,
                    mods: self.entries[at].0,
                    vk: self.entries[at].1,
                },
            )
        } else {
            None
        }
    }

    proof fn lemma_entry(&self, i: int)
        requires
            self.distinct(),
            0 <= i < self.entries@.len(),
        ensures
            self@.contains_key((self.entries@[i].0, self.entries@[i].1)),
            self@[(self.entries@[i].0, self.entries@[i].1)] == self.entries@[i].2,
    {
        let key = (self.entries@[i].0, self.entries@[i].1);
        assert(is_entry(self.entries@, i, key));
        let k = choose|k: int| is_entry(self.entries@, k, key);
        assert(is_entry(self.entries@, k, key));
    }

    pub fn new() -> (r: Self)
        ensures
            r.distinct(),
            r@ == Map::<(Mods, u16), HotkeyId>::empty(),
    {
        let r = HotkeyTable { entries: Vec::new() };
        assert(r@ =~= Map::<(Mods, u16), HotkeyId>::empty());
        r
    }

    /// Enter a combination, in place of an earlier entry.
    pub fn insert(&mut self, mods: Mods, vk: u16, id: HotkeyId)
        requires
            old(self).distinct(),
        ensures
            final(self).distinct(),
            final(self)@ == old(self)@.insert((mods, vk), id),
    {
        let ghost before = *self;
        let ghost key = (mods, vk);
        let mut i: usize = 0;
        while i < self.entries.len()
            invariant
                i <= self.entries@.len(),
                *self == before,
                before == *old(self),
                before.distinct(),
                key == (mods, vk),
                forall|j: int| 0 <= j < i ==> !is_entry(self.entries@, j, key),
            decreases self.entries@.len() - i,
        {
            if self.entries[i].0 == mods && self.entries[i].1 == vk {
                self.entries.set(i, (mods, vk, id));
                proof {
                    assert(is_entry(before.entries@, i as int, key));
                    Self::lemma_replaced(before, *self, i as int, key, id);
                }
                return;
            }
            i = i + 1;
        }
        self.entries.push((mods, vk, id));
        proof {
            let n = before.entries@.len() as int;
            assert forall|a: int, b: int|
                0 <= a < self.entries@.len() && 0 <= b < self.entries@.len() && a != b implies (
            #[trigger] self.entries@[a]).0 != (#[trigger] self.entries@[b]).0 || self.entries@[a].1
                != self.entries@[b].1 by {
                if a == n {
                    assert(!is_entry(before.entries@, b, key));
                } else if b == n {
                    assert(!is_entry(before.entries@, a, key));
                } else {
                    assert(self.entries@[a] == before.entries@[a]);
                    assert(self.entries@[b] == before.entries@[b]);
                }
            }
            Self::lemma_extended(before, *self, key, id);
        }
    }

    proof fn lemma_replaced(
        before: HotkeyTable,
        after: HotkeyTable,
        at: int,
        key: (Mods, u16),
        id: HotkeyId,
    )
        requires
            before.distinct(),
            is_entry(before.entries@, at, key),
            after.entries@ == before.entries@.update(at, (key.0, key.1, id)),
        ensures
            after.distinct(),
            after@ == before@.insert(key, id),
    {
        assert forall|a: int, b: int|
            0 <= a < after.entries@.len() && 0 <= b < after.entries@.len() && a != b implies (
        #[trigger] after.entries@[a]).0 != (#[trigger] after.entries@[b]).0 || after.entries@[a].1
            != after.entries@[b].1 by {
            assert(before.entries@[a].0 != before.entries@[b].0 || before.entries@[a].1
                != before.entries@[b].1);
        }
        assert forall|k: (Mods, u16)| #[trigger]
            after@.contains_key(k) <==> before@.insert(key, id).contains_key(k) by {
            if after@.contains_key(k) {
                let i = choose|i: int| is_entry(after.entries@, i, k);
                assert(is_entry(after.entries@, i, k));
                assert(is_entry(before.entries@, i, k));
            }
            if before@.contains_key(k) {
                let i = choose|i: int| is_entry(before.entries@, i, k);
                assert(is_entry(before.entries@, i, k));
                assert(is_entry(after.entries@, i, k));
            }
            assert(is_entry(after.entries@, at, key));
        }
        assert forall|k: (Mods, u16)| #[trigger] after@.contains_key(k) implies after@[k]
            == before@.insert(key, id)[k] by {
            let i = choose|i: int| is_entry(after.entries@, i, k);
            assert(is_entry(after.entries@, i, k));
            after.lemma_entry(i);
            if i != at {
                before.lemma_entry(i);
                assert(after.entries@[i].0 != after.entries@[at].0 || after.entries@[i].1
                    != after.entries@[at].1);
            }
        }
        assert(after@ =~= before@.insert(key, id));
    }

    proof fn lemma_extended(
        before: HotkeyTable,
        after: HotkeyTable,
        key: (Mods, u16),
        id: HotkeyId,
    )
        requires
            before.distinct(),
            after.distinct(),
            after.entries@ == before.entries@.push((key.0, key.1, id)),
        ensures
            after@ == before@.insert(key, id),
    {
        let n = before.entries@.len() as int;
        assert forall|k: (Mods, u16)| #[trigger]
            after@.contains_key(k) <==> before@.insert(key, id).contains_key(k) by {
            if after@.contains_key(k) {
                let i = choose|i: int| is_entry(after.entries@, i, k);
                assert(is_entry(after.entries@, i, k));
                if i < n {
                    assert(is_entry(before.entries@, i, k));
                }
            }
            if before@.contains_key(k) {
                let i = choose|i: int| is_entry(before.entries@, i, k);
                assert(is_entry(before.entries@, i, k));
                assert(is_entry(after.entries@, i, k));
            }
            assert(is_entry(after.entries@, n, key));
        }
        assert forall|k: (Mods, u16)| #[trigger] after@.contains_key(k) implies after@[k]
            == before@.insert(key, id)[k] by {
            let i = choose|i: int| is_entry(after.entries@, i, k);
            assert(is_entry(after.entries@, i, k));
            after.lemma_entry(i);
            if i < n {
                before.lemma_entry(i);
                assert(after.entries@[i].0 != after.entries@[n].0 || after.entries@[i].1
                    != after.entries@[n].1);
            }
        }
        assert(after@ =~= before@.insert(key, id));
    }
}

/// The commands of all bindings, and the table of their combinations. The
/// binding with number `n` has the command at `n - 1`.
pub struct HotkeyRouter {
    pub commands: Vec<Command>,
    pub table: HotkeyTable,
}

/// The outcome of reading bindings: a table of combinations with the numbers of
/// commands, the commands, and what is wrong with the bindings left out.
pub struct Bindings {
    pub table: Map<(Mods, u16), HotkeyId>,
    pub commands: Seq<Meaning>,
    pub errors: Seq<Seq<char>>,
}

impl Bindings {
    /// The command with a number.
    pub open spec fn command(self, id: HotkeyId) -> Option<Meaning> {
        if 1 <= id.0 <= self.commands.len() {
            Some(self.commands[id.0 - 1])
        } else {
            None
        }
    }
}

/// The key combination and the action of a binding.
pub open spec fn binding(b: (String, String)) -> Result<((Mods, u16), Meaning), Seq<char>> {
    match combo(b.0@) {
        Err(e) => Err(e),
        Ok(key) => match action(b.1@) {
            Err(e) => Err(e),
            Ok(meaning) => Ok((key, meaning)),
        },
    }
}

/// What is said of a binding that is left out.
pub open spec fn complaint(b: (String, String), e: Seq<char>) -> Seq<char> {
    b.0@ + " = "@ + b.1@ + " → "@ + e
}

/// The outcome of reading bindings one after the other. Where a combination is
/// bound twice, the later binding counts.
pub open spec fn bindings(all: Seq<(String, String)>) -> Bindings
    decreases all.len(),
{
    if all.len() == 0 {
        Bindings { table: Map::empty(), commands: Seq::empty(), errors: Seq::empty() }
    } else {
        let before = bindings(all.drop_last());
        match binding(all.last()) {
            Ok((key, meaning)) => Bindings {
                table: before.table.insert(key, HotkeyId((before.commands.len() + 1) as u32)),
                commands: before.commands.push(meaning),
                errors: before.errors,
            },
            Err(e) => Bindings { errors: before.errors.push(complaint(all.last(), e)), ..before },
        }
    }
}

pub open spec fn meanings(all: Seq<Command>) -> Seq<Meaning> {
    all.map_values(|c: Command| c.meaning())
}

pub open spec fn texts(all: Seq<String>) -> Seq<Seq<char>> {
    all.map_values(|s: String| s@)
}

fn read_binding(b: &(String, String)) -> (r: Result<(Mods, u16, Command), String>)
    ensures
        match r {
            Ok(v) => binding(*b) == Ok::<((Mods, u16), Meaning), Seq<char>>(
                ((v.0, v.1), v.2.meaning()),
            ),
            Err(e) => binding(*b) == Err::<((Mods, u16), Meaning), Seq<char>>(e@),
        },
{
    match parse_combo(b.0.as_str()) {
        Err(e) => Err(e),
        Ok((mods, vk)) => match parse_action(b.1.as_str()) {
            Err(e) => Err(e),
            Ok(c) => Ok((mods, vk, c)),
        },
    }
}

fn complain_of(b: &(String, String), e: &String) -> (r: String)
    ensures
        r@ == complaint(*b, e@),
{
    let mut r = b.0.clone();
    r.append(" = ");
    r.append(b.1.as_str());
    r.append(" → ");
    r.append(e.as_str());
    r
}

/// There are no more commands than bindings.
proof fn lemma_bindings_len(all: Seq<(String, String)>)
    ensures
        bindings(all).commands.len() <= all.len(),
    decreases all.len(),
{
    if all.len() > 0 {
        lemma_bindings_len(all.drop_last());
    }
}

/// Every number in the table is that of a command.
pub proof fn law_every_combination_has_a_command(all: Seq<(String, String)>, key: (Mods, u16))
    requires
        all.len() < u32::MAX,
    ensures
        bindings(all).table.contains_key(key) ==> 1 <= bindings(all).table[key].0 <= bindings(
            all,
        ).commands.len(),
    decreases all.len(),
{
    if all.len() > 0 {
        law_every_combination_has_a_command(all.drop_last(), key);
        lemma_bindings_len(all.drop_last());
    }
}

/// A binding that is left out changes neither the table nor the commands of the
/// others.
pub proof fn law_bad_binding_is_skipped(all: Seq<(String, String)>, bad: (String, String))
    requires
        binding(bad) is Err,
    ensures
        bindings(all.push(bad)).table == bindings(all).table,
        bindings(all.push(bad)).commands == bindings(all).commands,
        bindings(all.push(bad)).errors.len() == bindings(all).errors.len() + 1,
{
    assert(all.push(bad).drop_last() =~= all);
}

/// The binding of a combination that comes last is the one that counts: pressing the
/// combination leads to its action. A combination that no binding has leads nowhere.
pub proof fn law_last_binding_counts(all: Seq<(String, String)>, key: (Mods, u16), i: int)
    requires
        all.len() < u32::MAX,
    ensures
        0 <= i < all.len() && (binding(all[i]) matches Ok(b) && b.0 == key) && (forall|j: int|
            i < j < all.len() ==> (binding(#[trigger] all[j]) matches Ok(b) ==> b.0 != key)) ==> {
            &&& bindings(all).table.contains_key(key)
            &&& bindings(all).command(bindings(all).table[key]) == Some(binding(all[i])->Ok_0.1)
        },
        bindings(all).table.contains_key(key) ==> exists|j: int|
            0 <= j < all.len() && (binding(#[trigger] all[j]) matches Ok(b) && b.0 == key),
    decreases all.len(),
{
    if all.len() > 0 {
        let front = all.drop_last();
        let n = front.len() as int;
        let before = bindings(front);
        lemma_bindings_len(front);
        law_last_binding_counts(front, key, i);
        law_every_combination_has_a_command(front, key);
        if bindings(all).table.contains_key(key) {
            if before.table.contains_key(key) {
                let j = choose|j: int|
                    0 <= j < front.len() && (binding(#[trigger] front[j]) matches Ok(b) && b.0 == key);
                assert(all[j] == front[j]);
            } else {
                assert(all[n] == all.last());
            }
        }
        if 0 <= i < n && (binding(all[i]) matches Ok(b) && b.0 == key) && (forall|j: int|
            i < j < all.len() ==> (binding(#[trigger] all[j]) matches Ok(b) ==> b.0 != key)) {
            assert(front[i] == all[i]);
            assert forall|j: int| i < j < front.len() implies (binding(#[trigger] front[j]) matches Ok(
                b,
            ) ==> b.0 != key) by {
                assert(front[j] == all[j]);
            }
            assert(binding(all[n]) matches Ok(b) ==> b.0 != key);
        }
    }
}

impl HotkeyRouter {
    /// Read the bindings of combinations to actions. What is said of the ones
    /// left out comes along.
    pub fn build(bindings: &Vec<(String, String)>) -> (r: (HotkeyRouter, Vec<String>))
        requires
            bindings@.len() < u32::MAX,
        ensures
            r.0.table.distinct(),
            r.0.table@ == self::bindings(bindings@).table,
            meanings(r.0.commands@) == self::bindings(bindings@).commands,
            texts(r.1@) == self::bindings(bindings@).errors,
    {
        let ghost all = bindings@;
        let mut table = HotkeyTable::new();
        let mut commands: Vec<Command> = Vec::new();
        let mut errors: Vec<String> = Vec::new();
        let mut i: usize = 0;
        assert(all.take(0) =~= Seq::<(String, String)>::empty());
        assert(meanings(commands@) =~= Seq::<Meaning>::empty());
        assert(texts(errors@) =~= Seq::<Seq<char>>::empty());
        while i < bindings.len()
            invariant
                i <= bindings@.len(),
                all == bindings@,
                all.len() < u32::MAX,
                table.distinct(),
                table@ == self::bindings(all.take(i as int)).table,
                meanings(commands@) == self::bindings(all.take(i as int)).commands,
                texts(errors@) == self::bindings(all.take(i as int)).errors,
            decreases bindings@.len() - i,
        {
            let ghost before = self::bindings(all.take(i as int));
            proof {
                assert(all.take(i + 1).drop_last() =~= all.take(i as int));
                assert(all.take(i + 1).last() == all[i as int]);
                lemma_bindings_len(all.take(i as int));
                assert(commands@.len() == before.commands.len());
            }
            match read_binding(&bindings[i]) {
                Ok((mods, vk, c)) => {
                    let number: u32 = commands.len() as u32 + 1;
                    table.insert(mods, vk, HotkeyId(number));
                    commands.push(c);
                    assert(meanings(commands@) =~= before.commands.push(c.meaning()));
                },
                Err(e) => {
                    errors.push(complain_of(&bindings[i], &e));
                    assert(texts(errors@) =~= before.errors.push(complaint(all[i as int], e@)));
                },
            }
            i = i + 1;
        }
        assert(all.take(i as int) =~= all);
        (HotkeyRouter { commands, table }, errors)
    }

    /// The command with a number.
    pub fn command_for(&self, id: HotkeyId) -> (r: Option<Command>)
        ensures
            r == (if 1 <= id.0 <= self.commands@.len() {
                Some(self.commands@[id.0 - 1])
            } else {
                None
            }),
    {
        if 1 <= id.0 && (id.0 as usize) <= self.commands.len() {
            Some(self.commands[id.0 as usize - 1].copied())
        } else {
            None
        }
    }
}

/// The text of a notification is what follows the two words, whatever it holds, without
/// the single quotes around it.
pub proof fn law_text_follows_two_words(a: Seq<char>, b: Seq<char>, said: Seq<char>)
    requires
        text::one_word(a),
        text::one_word(b),
        said.len() > 0,
        said[0] != '\'',
        !text::space(said.first()) && !text::space(said.last()),
    ensures
        unquoted(after_two_words(a + seq![' '] + b + seq![' '] + said)) == said,
        unquoted(after_two_words(a + seq![' '] + b + seq![' '] + (seq!['\''] + said + seq!['\''])))
            == said,
{
    lemma_after_two(a, b, said);
    let marked = seq!['\''] + said + seq!['\''];
    text::law_white_space('\'');
    assert(marked.first() == '\'' && marked.last() == '\'');
    lemma_after_two(a, b, marked);
    assert(unquoted(marked) =~= said);
}

proof fn lemma_after_two(a: Seq<char>, b: Seq<char>, said: Seq<char>)
    requires
        text::one_word(a),
        text::one_word(b),
        said.len() > 0,
        !text::space(said.first()) && !text::space(said.last()),
    ensures
        after_two_words(a + seq![' '] + b + seq![' '] + said) == said,
{
    text::law_white_space(' ');
    let end = seq![' '] + said;
    let rest = b + end;
    let tail = seq![' '] + rest;
    let s = a + seq![' '] + b + seq![' '] + said;
    assert(s =~= a + tail);
    assert(!text::space(a[0]));
    assert(text::trim_front(s) == s);
    lemma_after_word(a, tail);
    assert(tail.drop_first() =~= rest);
    assert(!text::space(b[0]));
    assert(rest[0] == b[0]);
    assert(text::trim_front(rest) == rest);
    assert(text::trim_front(tail) == rest);
    lemma_after_word(b, end);
    assert(end.drop_first() =~= said);
    assert(text::trim_front(said) == said);
    assert(text::trim_front(end) == said);
    assert(text::trim_back(said) == said);
}

proof fn lemma_after_word(w: Seq<char>, rest: Seq<char>)
    requires
        forall|i: int| 0 <= i < w.len() ==> !text::space(#[trigger] w[i]),
        rest.len() > 0 && text::space(rest[0]),
    ensures
        after_word(w + rest) == rest,
    decreases w.len(),
{
    if w.len() == 0 {
        assert(w + rest =~= rest);
    } else {
        let less = w.drop_first();
        assert forall|i: int| 0 <= i < less.len() implies !text::space(#[trigger] less[i]) by {
            assert(less[i] == w[i + 1]);
        }
        lemma_after_word(less, rest);
        assert(!text::space(w[0]));
        assert((w + rest).drop_first() =~= less + rest);
    }
}

} // verus!
