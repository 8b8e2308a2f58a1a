//! Which windows are managed.
//!
//! Most windows with a frame are. Rules carve out the others, but the parts of
//! the shell are never managed.

use crate::rules;
use crate::rules::{first_matching_action, Rule, RuleAction};
use crate::text;
use vstd::prelude::*;

verus! {

/// The style of a window with a title bar.
pub const WS_CAPTION: u32 = 0x00c0_0000;

/// The style of a pop-up window.
pub const WS_POPUP: u32 = 0x8000_0000;

/// The extended style of a tool window.
pub const WS_EX_TOOLWINDOW: u32 = 0x80;

/// The extended style of a window that does not become active.
pub const WS_EX_NOACTIVATE: u32 = 0x0800_0000;

/// The window classes of the shell.
pub open spec fn shell_classes() -> Seq<Seq<char>> {
    seq![
        "Progman"@,
        "WorkerW"@,
        "Shell_TrayWnd"@,
        "Shell_SecondaryTrayWnd"@,
        "NotifyIconOverflowWindow"@,
        "TaskListThumbnailWnd"@,
        "TopLevelWindowForOverflowXamlIsland"@,
        "Windows.UI.Core.CoreWindow"@,
        "ApplicationFrameHost"@,
        "MultitaskingViewFrame"@,
    ]
}

/// Whether a window class is one of the shell's, in any case.
pub open spec fn of_shell(class: Seq<char>) -> bool {
    exists|i: int|
        0 <= i < shell_classes().len() && text::same_letters(#[trigger] shell_classes()[i], class)
}

/// Whether a window class is one of the shell's.
pub fn is_shell_class(class: &str) -> (r: bool)
    ensures
        r == of_shell(class@),
{
    let all: [&str; 10] = [
        "Progman",
        "WorkerW",
        "Shell_TrayWnd",
        "Shell_SecondaryTrayWnd",
        "NotifyIconOverflowWindow",
        "TaskListThumbnailWnd",
        "TopLevelWindowForOverflowXamlIsland",
        "Windows.UI.Core.CoreWindow",
        "ApplicationFrameHost",
        "MultitaskingViewFrame",
    ];
    assert forall|k: int| 0 <= k < 10 implies (#[trigger] all@[k])@ == shell_classes()[k] by {}
    let mut i: usize = 0;
    while i < 10
        invariant
            i <= 10,
            forall|k: int| 0 <= k < 10 ==> (#[trigger] all@[k])@ == shell_classes()[k],
            forall|k: int|
                0 <= k < i ==> !text::same_letters(#[trigger] shell_classes()[k], class@),
        decreases 10 - i,
    {
        if text::is_same_letters(all[i], class) {
            assert(all@[i as int]@ == shell_classes()[i as int]);
            return true;
        }
        assert(all@[i as int]@ == shell_classes()[i as int]);
        i = i + 1;
    }
    false
}

/// What is known of a window.
#[derive(Debug, Clone)]
pub struct WindowFacts {
    pub alive: bool,
    pub visible: bool,
    pub minimized: bool,
    pub cloaked_by_shell: bool,
    pub has_owner: bool,
    pub style: u32,
    pub ex_style: u32,
    /// The window class; empty where it cannot be read.
    pub class: String,
    /// The title; empty where it cannot be read.
    pub title: String,
    /// Whether the title could be read.
    pub title_known: bool,
    /// The name of the program.
    pub exe: String,
}

/// Whether a window can be managed by its state and its style: it is there to be
/// seen, it belongs to no other window, and it has a frame or is a pop-up.
pub open spec fn looks_manageable(
    alive: bool,
    visible: bool,
    minimized: bool,
    cloaked_by_shell: bool,
    has_owner: bool,
    style: u32,
    ex_style: u32,
) -> bool {
    &&& alive && visible && !minimized && !cloaked_by_shell && !has_owner
    &&& ex_style & WS_EX_TOOLWINDOW == 0
    &&& ex_style & WS_EX_NOACTIVATE == 0
    &&& style & WS_CAPTION != 0 || style & WS_POPUP != 0
}

/// Whether a window is managed. Of the rules only the first that matches counts,
/// and only where it says to ignore the window.
pub open spec fn manageable(f: WindowFacts, all: Seq<Rule>) -> bool {
    &&& looks_manageable(
        f.alive,
        f.visible,
        f.minimized,
        f.cloaked_by_shell,
        f.has_owner,
        f.style,
        f.ex_style,
    )
    &&& !of_shell(f.class@)
    &&& rules::action_for(all, f.exe@, f.class@, f.title@) != Some(RuleAction::Ignore)
}

/// Whether a window is managed.
pub fn is_manageable_inputs(
    alive: bool,
    visible: bool,
    minimized: bool,
    cloaked_by_shell: bool,
    has_owner: bool,
    style: u32,
    ex_style: u32,
    class: &str,
    title: &str,
    exe: &str,
    rules: &Vec<Rule>,
) -> (r: bool)
    ensures
        r == (looks_manageable(
            alive,
            visible,
            minimized,
            cloaked_by_shell,
            has_owner,
            style,
            ex_style,
        ) && !of_shell(class@) && rules::action_for(rules@, exe@, class@, title@) != Some(
            RuleAction::Ignore,
        )),
{
    if !alive || !visible || minimized || cloaked_by_shell || has_owner {
        return false;
    }
    if (ex_style & WS_EX_TOOLWINDOW) != 0 || (ex_style & WS_EX_NOACTIVATE) != 0 {
        return false;
    }
    if (style & WS_CAPTION) == 0 && (style & WS_POPUP) == 0 {
        return false;
    }
    if is_shell_class(class) {
        return false;
    }
    match first_matching_action(rules, exe, class, title) {
        Some(RuleAction::Ignore) => false,
        _ => true,
    }
}

/// Whether a window is managed.
pub fn is_manageable(win: &WindowFacts, rules: &Vec<Rule>) -> (r: bool)
    ensures
        r == manageable(*win, rules@),
{
    is_manageable_inputs(
        win.alive,
        win.visible,
        win.minimized,
        win.cloaked_by_shell,
        win.has_owner,
        win.style,
        win.ex_style,
        win.class.as_str(),
        win.title.as_str(),
        win.exe.as_str(),
        rules,
    )
}

/// No rule makes a window of the shell manageable.
pub proof fn law_shell_is_never_managed(f: WindowFacts, all: Seq<Rule>)
    requires
        of_shell(f.class@),
    ensures
        !manageable(f, all),
{
}

/// A window that is managed is there to be seen, belongs to no other window, becomes
/// active, is no tool window, and has a title bar or is a pop-up.
pub proof fn law_managed_window_can_be_used(f: WindowFacts, all: Seq<Rule>)
    requires
        manageable(f, all),
    ensures
        f.alive && f.visible,
        !f.minimized && !f.cloaked_by_shell && !f.has_owner,
        f.ex_style & 0x80u32 == 0 && f.ex_style & 0x0800_0000u32 == 0,
        f.style & 0x00c0_0000u32 != 0 || f.style & 0x8000_0000u32 != 0,
{
}

/// Such a window is managed unless it is the shell's or the first rule that matches it
/// says to ignore it.
pub proof fn law_usable_window_is_managed(f: WindowFacts, all: Seq<Rule>)
    requires
        f.alive && f.visible,
        !f.minimized && !f.cloaked_by_shell && !f.has_owner,
        f.ex_style & 0x80u32 == 0 && f.ex_style & 0x0800_0000u32 == 0,
        f.style & 0x00c0_0000u32 != 0 || f.style & 0x8000_0000u32 != 0,
        !of_shell(f.class@),
    ensures
        !manageable(f, all) <==> rules::action_for(all, f.exe@, f.class@, f.title@) == Some(
            RuleAction::Ignore,
        ),
{
}

/// The shell's windows are those of the desktop, of the task bars, of the parts that
/// open from them, and of the frames of its programs.
pub proof fn law_shell_has_its_classes(class: Seq<char>)
    ensures
        of_shell(class) <==> {
            ||| text::same_letters("Progman"@, class)
            ||| text::same_letters("WorkerW"@, class)
            ||| text::same_letters("Shell_TrayWnd"@, class)
            ||| text::same_letters("Shell_SecondaryTrayWnd"@, class)
            ||| text::same_letters("NotifyIconOverflowWindow"@, class)
            ||| text::same_letters("TaskListThumbnailWnd"@, class)
            ||| text::same_letters("TopLevelWindowForOverflowXamlIsland"@, class)
            ||| text::same_letters("Windows.UI.Core.CoreWindow"@, class)
            ||| text::same_letters("ApplicationFrameHost"@, class)
            ||| text::same_letters("MultitaskingViewFrame"@, class)
        },
{
    let all = shell_classes();
    assert(all.len() == 10);
    assert(all[0] == "Progman"@ && all[1] == "WorkerW"@ && all[2] == "Shell_TrayWnd"@);
    assert(all[3] == "Shell_SecondaryTrayWnd"@ && all[4] == "NotifyIconOverflowWindow"@);
    assert(all[5] == "TaskListThumbnailWnd"@);
    assert(all[6] == "TopLevelWindowForOverflowXamlIsland"@);
    assert(all[7] == "Windows.UI.Core.CoreWindow"@ && all[8] == "ApplicationFrameHost"@);
    assert(all[9] == "MultitaskingViewFrame"@);
}

} // verus!
