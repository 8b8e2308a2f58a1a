//! The command line.

use crate::text;
use crate::text::{chars_of, string_of, trimmed};
use vstd::prelude::*;
use vstd::string::StringExecFns;

verus! {

/// What is done with the entry that starts the program when a user signs in.
#[derive(Debug, Clone)]
pub enum AutostartAction {
    Enable,
    Disable,
    Status,
    /// A word that is none of these.
    Unknown(String),
}

/// What the program is asked to do.
#[derive(Debug, Clone)]
pub enum Subcommand {
    /// Run the window manager.
    Daemon,
    /// Show the windows again that were hidden before a crash.
    Restore,
    /// Print what would be managed.
    Dryrun,
    Autostart(AutostartAction),
    /// Send an action to the running window manager; `None` where none was
    /// given.
    Cmd(Option<String>),
    /// Ask the running window manager; `None` where no topic was given.
    Query(Option<String>),
    Help,
    /// A word that is none of these.
    Unknown(String),
}

/// What the program is asked to do, whatever the strings that it holds.
pub enum Asked {
    Daemon,
    Restore,
    Dryrun,
    Enable,
    Disable,
    Status,
    UnknownAutostart(Seq<char>),
    Cmd(Option<Seq<char>>),
    Query(Option<Seq<char>>),
    Help,
    Unknown(Seq<char>),
}

pub open spec fn text_of(t: Option<String>) -> Option<Seq<char>> {
    match t {
        Some(s) => Some(s@),
        None => None,
    }
}

impl Subcommand {
    pub open spec fn asked(self) -> Asked {
        match self {
            Subcommand::Daemon => Asked::Daemon,
            Subcommand::Restore => Asked::Restore,
            Subcommand::Dryrun => Asked::Dryrun,
            Subcommand::Autostart(AutostartAction::Enable) => Asked::Enable,
            Subcommand::Autostart(AutostartAction::Disable) => Asked::Disable,
            Subcommand::Autostart(AutostartAction::Status) => Asked::Status,
            Subcommand::Autostart(AutostartAction::Unknown(s)) => Asked::UnknownAutostart(s@),
            Subcommand::Cmd(t) => Asked::Cmd(text_of(t)),
            Subcommand::Query(t) => Asked::Query(text_of(t)),
            Subcommand::Help => Asked::Help,
            Subcommand::Unknown(s) => Asked::Unknown(s@),
        }
    }
}

/// The argument at `i`; an empty one where there is none.
pub open spec fn arg(args: Seq<String>, i: int) -> Seq<char> {
    if 0 <= i < args.len() {
        args[i]@
    } else {
        Seq::empty()
    }
}

/// Arguments with spaces between them.
pub open spec fn joined(args: Seq<String>) -> Seq<char>
    decreases args.len(),
{
    if args.len() == 0 {
        Seq::empty()
    } else if args.len() == 1 {
        args[0]@
    } else {
        joined(args.drop_last()) + " "@ + args.last()@
    }
}

/// A text without the white space around, where that is not nothing.
pub open spec fn given(s: Seq<char>) -> Option<Seq<char>> {
    if text::trim(s).len() == 0 {
        None
    } else {
        Some(text::trim(s))
    }
}

pub open spec fn autostart_asked(word: Seq<char>) -> Asked {
    if word == "enable"@ || word == "on"@ {
        Asked::Enable
    } else if word == "disable"@ || word == "off"@ {
        Asked::Disable
    } else if word == "status"@ || word == Seq::<char>::empty() {
        Asked::Status
    } else {
        Asked::UnknownAutostart(word)
    }
}

/// What arguments ask for.
pub open spec fn asked(args: Seq<String>) -> Asked {
    let word = arg(args, 0);
    if word == Seq::<char>::empty() {
        Asked::Daemon
    } else if word == "restore"@ {
        Asked::Restore
    } else if word == "dryrun"@ {
        Asked::Dryrun
    } else if word == "autostart"@ {
        autostart_asked(arg(args, 1))
    } else if word == "cmd"@ {
        Asked::Cmd(given(joined(args.skip(1))))
    } else if word == "query"@ {
        Asked::Query(given(arg(args, 1)))
    } else if word == "help"@ || word == "-h"@ || word == "--help"@ {
        Asked::Help
    } else {
        Asked::Unknown(word)
    }
}

fn arg_at(args: &Vec<String>, i: usize) -> (r: Vec<char>)
    ensures
        r@ == arg(args@, i as int),
{
    if i < args.len() {
        chars_of(args[i].as_str())
    } else {
        let none: Vec<char> = Vec::new();
        assert(none@ =~= Seq::<char>::empty());
        none
    }
}

/// The arguments from the second on, with spaces between them.
fn rest_joined(args: &Vec<String>) -> (r: Vec<char>)
    requires
        args@.len() > 0,
    ensures
        r@ == joined(args@.skip(1)),
{
    let ghost rest = args@.skip(1);
    let mut out = String::new();
    assert(out@ =~= Seq::<char>::empty());
    let mut i: usize = 1;
    assert(rest.take(0) =~= Seq::<String>::empty());
    while i < args.len()
        invariant
            1 <= i <= args@.len(),
            rest == args@.skip(1),
            out@ == joined(rest.take(i - 1)),
        decreases args@.len() - i,
    {
        proof {
            assert(rest.take(i as int).drop_last() =~= rest.take(i - 1));
            assert(rest.take(i as int).last() == args@[i as int]);
            if i == 1 {
                assert(out@ + args@[1]@ =~= args@[1]@);
            }
        }
        if i > 1 {
            out.append(" ");
        }
        out.append(args[i].as_str());
        i = i + 1;
    }
    assert(rest.take(i - 1) =~= rest);
    chars_of(out.as_str())
}

fn given_in(s: &Vec<char>) -> (r: Option<String>)
    ensures
        text_of(r) == given(s@),
{
    let t = trimmed(s);
    if t.len() == 0 {
        None
    } else {
        Some(string_of(&t))
    }
}

fn read_autostart(word: &Vec<char>) -> (r: AutostartAction)
    ensures
        Subcommand::Autostart(r).asked() == autostart_asked(word@),
{
    if text::reads(word, "enable") || text::reads(word, "on") {
        AutostartAction::Enable
    } else if text::reads(word, "disable") || text::reads(word, "off") {
        AutostartAction::Disable
    } else if text::reads(word, "status") || word.len() == 0 {
        assert(word@.len() == 0 ==> word@ =~= Seq::<char>::empty());
        AutostartAction::Status
    } else {
        AutostartAction::Unknown(string_of(word))
    }
}

/// Read the arguments of the program.
pub fn parse_args(args: &Vec<String>) -> (r: Subcommand)
    ensures
        r.asked() == asked(args@),
{
    let word = arg_at(args, 0);
    if word.len() == 0 {
        assert(word@ =~= Seq::<char>::empty());
        Subcommand::Daemon
    } else if text::reads(&word, "restore") {
        Subcommand::Restore
    } else if text::reads(&word, "dryrun") {
        Subcommand::Dryrun
    } else if text::reads(&word, "autostart") {
        Subcommand::Autostart(read_autostart(&arg_at(args, 1)))
    } else if text::reads(&word, "cmd") {
        Subcommand::Cmd(given_in(&rest_joined(args)))
    } else if text::reads(&word, "query") {
        Subcommand::Query(given_in(&arg_at(args, 1)))
    } else if text::reads(&word, "help") || text::reads(&word, "-h") || text::reads(
        &word,
        "--help",
    ) {
        Subcommand::Help
    } else {
        Subcommand::Unknown(string_of(&word))
    }
}

/// Each word of the command line asks for what it names; without one the window manager
/// runs.
pub proof fn law_words_name_what_is_asked(args: Seq<String>)
    ensures
        args.len() == 0 ==> asked(args) is Daemon,
        args.len() > 0 ==> {
            let word = args[0]@;
            &&& word.len() == 0 ==> asked(args) is Daemon
            &&& word == "restore"@ ==> asked(args) is Restore
            &&& word == "dryrun"@ ==> asked(args) is Dryrun
            &&& word == "autostart"@ && args.len() == 1 ==> asked(args) is Status
            &&& word == "autostart"@ && args.len() > 1 ==> {
                let how = args[1]@;
                &&& how == "enable"@ || how == "on"@ ==> asked(args) is Enable
                &&& how == "disable"@ || how == "off"@ ==> asked(args) is Disable
                &&& how == "status"@ || how.len() == 0 ==> asked(args) is Status
                &&& asked(args) is Enable || asked(args) is Disable || asked(args) is Status
                    || asked(args) == Asked::UnknownAutostart(how)
            }
            &&& word == "cmd"@ ==> asked(args) is Cmd
            &&& word == "query"@ ==> asked(args) is Query
            &&& word == "help"@ || word == "-h"@ || word == "--help"@ ==> asked(args) is Help
            &&& asked(args) is Unknown ==> asked(args) == Asked::Unknown(word) && word
                != "restore"@ && word != "dryrun"@ && word != "autostart"@ && word != "cmd"@ && word
                != "query"@ && word != "help"@ && word != "-h"@ && word != "--help"@
        },
{
    reveal_strlit("restore");
    reveal_strlit("dryrun");
    reveal_strlit("autostart");
    reveal_strlit("cmd");
    reveal_strlit("query");
    reveal_strlit("help");
    reveal_strlit("-h");
    reveal_strlit("--help");
    reveal_strlit("enable");
    reveal_strlit("on");
    reveal_strlit("disable");
    reveal_strlit("off");
    reveal_strlit("status");
    assert("dryrun"@[0] != "--help"@[0]);
    assert("enable"@[0] != "status"@[0]);
    assert(Seq::<char>::empty().len() == 0);
    if args.len() > 0 && args[0]@.len() == 0 {
        assert(args[0]@ =~= Seq::<char>::empty());
    }
    if args.len() > 1 && args[1]@.len() == 0 {
        assert(args[1]@ =~= Seq::<char>::empty());
    }
}

/// An action of several words is handed on with one space between any two of them, and a
/// question is the word behind `query`; white space around is left out.
pub proof fn law_actions_are_handed_on(args: Seq<String>, a: String, b: String)
    requires
        args.len() == 3,
        args[1] == a && args[2] == b,
    ensures
        args[0]@ == "cmd"@ && a@.len() > 0 && b@.len() > 0 && !text::space(a@[0])
            && !text::space(b@.last()) ==> asked(args) == Asked::Cmd(
            Some(a@ + seq![' '] + b@),
        ),
        args[0]@ == "query"@ && a@.len() > 0 && !text::space(a@[0]) && !text::space(
            a@.last(),
        ) ==> asked(args) == Asked::Query(Some(a@)),
{
    law_words_name_what_is_asked(args);
    reveal_strlit("restore");
    reveal_strlit("dryrun");
    reveal_strlit("autostart");
    reveal_strlit("cmd");
    reveal_strlit("query");
    reveal_strlit(" ");
    assert(" "@ =~= seq![' ']);
    assert(Seq::<char>::empty().len() == 0);
    let rest = args.skip(1);
    assert(rest =~= seq![a, b]);
    assert(rest.drop_last() =~= seq![a]);
    assert(joined(seq![a]) == a@);
    assert(joined(rest) == a@ + " "@ + b@);
    let s = a@ + seq![' '] + b@;
    if a@.len() > 0 && b@.len() > 0 && !text::space(a@[0]) && !text::space(b@.last()) {
        assert(s[0] == a@[0] && s.last() == b@.last());
        assert(text::trim_front(s) == s && text::trim_back(s) == s);
    }
    if a@.len() > 0 && !text::space(a@[0]) && !text::space(a@.last()) {
        assert(text::trim_front(a@) == a@ && text::trim_back(a@) == a@);
    }
}

} // verus!
