//! The decisions of the event loop.
//!
//! The program around the library waits for events, hands them in and carries
//! out what is asked of it.

use crate::command::{Command, Meaning};
use crate::config;
use crate::config::{same_bindings, AlreadyVisible, Config};
use crate::desk::{Act, DeskModel, Effect, Theme};
use crate::filter;
use crate::filter::{is_manageable, WindowFacts};
use crate::hotkey;
use crate::hotkey::{HotkeyId, HotkeyRouter};
use crate::ids::{WindowId, WorkspaceId};
use crate::model;
use crate::model::keeping;
use crate::model::laws;
use crate::model::monitors;
use crate::model::replay;
use crate::model::sheltering;
use crate::model::topology;
use crate::model::veil;
use crate::model::{AlreadyVisibleBehaviour, Gaps, WmError, World};
use crate::monitor::MonitorInfo;
use crate::rules::Rule;
use crate::settings;
use crate::settings::{bar_height, compose_gaps, has_fitting_gaps, map_layout, theme_of};
use crate::state::WindowManager;
use crate::text;
use crate::text::decimal_of;
use crate::toast::ToastLevel;
use crate::window::ManagedWindow;
use vstd::prelude::*;
use vstd::string::StringExecFns;

verus! {

// ---- routing --------------------------------------------------------------

/// What becomes of a hotkey.
#[derive(Debug, Clone)]
pub enum Route {
    /// Nothing.
    Drop,
    /// The command waits in line with those from elsewhere.
    Queue(Command),
    /// The command is run at once.
    Run(Command),
}

/// What becomes of a hotkey, whatever the string that its command holds.
pub enum Way {
    Drop,
    Queue(Meaning),
    Run(Meaning),
}

impl Route {
    pub open spec fn way(self) -> Way {
        match self {
            Route::Drop => Way::Drop,
            Route::Queue(c) => Way::Queue(c.meaning()),
            Route::Run(c) => Way::Run(c.meaning()),
        }
    }
}

/// Whether a command is about the window manager itself, so that it works while
/// tiling is paused.
pub open spec fn works_paused(m: Meaning) -> bool {
    m == Meaning::Plain(Command::TogglePause) || m == Meaning::Plain(Command::Quit) || m
        == Meaning::Plain(Command::ReloadConfig)
}

/// What becomes of a hotkey with this command.
pub open spec fn way_of(m: Option<Meaning>, paused: bool) -> Way {
    match m {
        None => Way::Drop,
        Some(m) => if paused && !works_paused(m) {
            Way::Drop
        } else if m == Meaning::Plain(Command::Quit) || m == Meaning::Plain(
            Command::ReloadConfig,
        ) {
            Way::Queue(m)
        } else {
            Way::Run(m)
        },
    }
}

/// While tiling is paused, a hotkey does nothing but resume, quit or reload.
pub proof fn law_paused_hotkeys_pass(m: Option<Meaning>)
    ensures
        match way_of(m, true) {
            Way::Drop => true,
            Way::Queue(c) => works_paused(c),
            Way::Run(c) => c == Meaning::Plain(Command::TogglePause),
        },
{
}

/// What a command that waited in line is for.
#[derive(Debug, Clone)]
pub enum Duty {
    /// End the program.
    Stop,
    /// Read the configuration again.
    Reload,
    /// Forget windows that are no longer there.
    Reap,
    /// Run the command.
    Run(Command),
}

/// What a command is for.
pub open spec fn duty(cmd: Command) -> Duty {
    match cmd {
        Command::Quit => Duty::Stop,
        Command::ReloadConfig => Duty::Reload,
        Command::ConfigChanged => Duty::Reload,
        Command::Reap => Duty::Reap,
        other => Duty::Run(other),
    }
}

/// What a command is for.
pub fn duty_of(cmd: Command) -> (r: Duty)
    ensures
        r == duty(cmd),
{
    match cmd {
        Command::Quit => Duty::Stop,
        Command::ReloadConfig => Duty::Reload,
        Command::ConfigChanged => Duty::Reload,
        Command::Reap => Duty::Reap,
        other => Duty::Run(other),
    }
}

// ---- the list of windows on disk ------------------------------------------

/// Whether a list holds the handles of all windows, each once and in rising
/// order.
pub open spec fn is_snapshot(ids: Seq<isize>, windows: Map<WindowId, ManagedWindow>) -> bool {
    &&& rises(ids)
    &&& forall|id: WindowId| #[trigger] windows.contains_key(id) <==> ids.contains(id.0)
}

/// Whether a list is in rising order.
pub open spec fn rises(ids: Seq<isize>) -> bool {
    forall|i: int, j: int| 0 <= i < j < ids.len() ==> #[trigger] ids[i] < #[trigger] ids[j]
}

/// There is only one list of the same windows: while no window comes or goes,
/// nothing has to be written.
pub proof fn law_snapshot_is_unique(
    a: Seq<isize>,
    b: Seq<isize>,
    windows: Map<WindowId, ManagedWindow>,
)
    requires
        is_snapshot(a, windows),
        is_snapshot(b, windows),
    ensures
        a == b,
{
    assert forall|n: isize| a.contains(n) <==> b.contains(n) by {
        assert(windows.contains_key(WindowId(n)) <==> a.contains(n));
    }
    lemma_rising_lists(a, b);
}

/// Two rising lists of the same numbers are the same.
proof fn lemma_rising_lists(a: Seq<isize>, b: Seq<isize>)
    requires
        rises(a),
        rises(b),
        forall|n: isize| a.contains(n) <==> b.contains(n),
    ensures
        a == b,
    decreases a.len(),
{
    if a.len() == 0 {
        if b.len() > 0 {
            assert(b.contains(b[0]));
        }
        assert(a =~= b);
    } else {
        assert(a.contains(a.last()));
        assert(b.contains(a.last()));
        let k = choose|k: int| 0 <= k < b.len() && b[k] == a.last();
        assert(b.contains(b.last()));
        assert(a.contains(b.last()));
        let j = choose|j: int| 0 <= j < a.len() && a[j] == b.last();
        assert(a.last() == b.last()) by {
            if j < a.len() - 1 {
                assert(a[j] < a[a.len() - 1]);
            }
            if k < b.len() - 1 {
                assert(b[k] < b[b.len() - 1]);
            }
        }
        let a1 = a.drop_last();
        let b1 = b.drop_last();
        assert forall|n: isize| a1.contains(n) <==> b1.contains(n) by {
            if a1.contains(n) {
                let i = choose|i: int| 0 <= i < a1.len() && a1[i] == n;
                assert(a[i] < a[a.len() - 1]);
                assert(a.contains(n));
                assert(b.contains(n));
                let m = choose|m: int| 0 <= m < b.len() && b[m] == n;
                assert(b1[m] == n);
            }
            if b1.contains(n) {
                let i = choose|i: int| 0 <= i < b1.len() && b1[i] == n;
                assert(b[i] < b[b.len() - 1]);
                assert(b.contains(n));
                assert(a.contains(n));
                let m = choose|m: int| 0 <= m < a.len() && a[m] == n;
                assert(a1[m] == n);
            }
        }
        lemma_rising_lists(a1, b1);
        assert(a =~= a1.push(a.last()));
        assert(b =~= b1.push(b.last()));
    }
}

/// Put a number into a rising list.
fn put_in(ids: &mut Vec<isize>, n: isize)
    requires
        rises(old(ids)@),
        !old(ids)@.contains(n),
    ensures
        rises(final(ids)@),
        forall|m: isize| #[trigger] final(ids)@.contains(m) <==> old(ids)@.contains(m) || m == n,
{
    let ghost before = ids@;
    let mut at: usize = 0;
    while at < ids.len() && ids[at] < n
        invariant
            at <= ids@.len(),
            ids@ == before,
            forall|k: int| 0 <= k < at ==> #[trigger] ids@[k] < n,
        decreases ids@.len() - at,
    {
        at = at + 1;
    }
    assert forall|k: int| at <= k < before.len() implies n < #[trigger] before[k] by {
        assert(before.contains(before[k]));
        assert(before.contains(before[at as int]));
        if k > at {
            assert(before[at as int] < before[k]);
        }
    }
    ids.insert(at, n);
    proof {
        let after = ids@;
        assert(after =~= before.insert(at as int, n));
        assert forall|i: int, j: int| 0 <= i < j < after.len() implies #[trigger] after[i]
            < #[trigger] after[j] by {
            if i < at && j > at {
                assert(before[i] < before[j - 1]);
            } else if i < at && j < at {
                assert(before[i] < before[j]);
            } else if i > at {
                assert(before[i - 1] < before[j - 1]);
            }
        }
        assert forall|m: isize| #[trigger] after.contains(m) <==> before.contains(m) || m == n by {
            if before.contains(m) {
                let k = choose|k: int| 0 <= k < before.len() && before[k] == m;
                assert(after[if k < at {
                    k
                } else {
                    k + 1
                }] == m);
            }
            if m == n {
                assert(after[at as int] == m);
            }
            if after.contains(m) && m != n {
                let k = choose|k: int| 0 <= k < after.len() && after[k] == m;
                assert(before[if k < at {
                    k
                } else {
                    k - 1
                }] == m);
            }
        }
    }
}

/// The handles of all managed windows in rising order.
pub fn snapshot_ids(wm: &WindowManager) -> (r: Vec<isize>)
    requires
        wm.inv(),
    ensures
        is_snapshot(r@, wm@.windows),
{
    let mut out: Vec<isize> = Vec::new();
    let mut i: usize = 0;
    while i < wm.windows.items.len()
        invariant
            i <= wm.windows.items@.len(),
            wm.inv(),
            rises(out@),
            forall|n: isize|
                #[trigger] out@.contains(n) <==> exists|k: int|
                    0 <= k < i && (#[trigger] wm.windows.items@[k]).id.0 == n,
        decreases wm.windows.items@.len() - i,
    {
        let n: isize = wm.windows.items[i].id.0;
        let ghost before = out@;
        proof {
            if out@.contains(n) {
                let k = choose|k: int| 0 <= k < i && (#[trigger] wm.windows.items@[k]).id.0 == n;
                assert(wm.windows.items@[k].id != wm.windows.items@[i as int].id);
            }
        }
        put_in(&mut out, n);
        proof {
            assert forall|m: isize| #[trigger] out@.contains(m) <==> exists|k: int|
                0 <= k < i + 1 && (#[trigger] wm.windows.items@[k]).id.0 == m by {
                if out@.contains(m) {
                    if m == n {
                        assert(wm.windows.items@[i as int].id.0 == m);
                    } else {
                        assert(before.contains(m));
                    }
                }
                if exists|k: int| 0 <= k < i + 1 && (#[trigger] wm.windows.items@[k]).id.0 == m {
                    let k = choose|k: int|
                        0 <= k < i + 1 && (#[trigger] wm.windows.items@[k]).id.0 == m;
                    if k < i {
                        assert(before.contains(m));
                    }
                }
            }
        }
        i = i + 1;
    }
    proof {
        assert forall|id: WindowId| #[trigger] wm@.windows.contains_key(id) <==> out@.contains(
            id.0,
        ) by {
            if wm@.windows.contains_key(id) {
                wm.windows.lemma_found(id);
            }
            if out@.contains(id.0) {
                let k = choose|k: int|
                    0 <= k < wm.windows.items@.len() && (#[trigger] wm.windows.items@[k]).id.0
                        == id.0;
                wm.windows.lemma_at(k);
                assert(wm.windows.items@[k].id == id);
            }
        }
    }
    out
}

/// How long a list of windows on disk may be behind, in nanoseconds.
pub const SAVE_EVERY: u64 = 5_000_000_000;

/// Whether it is time to look at the list on disk again.
pub fn is_save_due(elapsed: u64) -> (r: bool)
    ensures
        r == (elapsed > SAVE_EVERY),
        r == (elapsed > 5_000_000_000),
{
    elapsed > SAVE_EVERY
}

fn same_ids(a: &Vec<isize>, b: &Vec<isize>) -> (r: bool)
    ensures
        r == (a@ == b@),
{
    if a.len() != b.len() {
        return false;
    }
    let mut i: usize = 0;
    while i < a.len()
        invariant
            i <= a@.len(),
            a@.len() == b@.len(),
            forall|k: int| 0 <= k < i ==> #[trigger] a@[k] == b@[k],
        decreases a@.len() - i,
    {
        if a[i] != b[i] {
            return false;
        }
        i = i + 1;
    }
    assert(a@ =~= b@);
    true
}

// ---- changes of the configuration file ------------------------------------

/// How far apart two changes have to be to count as two, in nanoseconds.
pub const SETTLE: u64 = 200_000_000;

/// Lets the first of several changes in a row pass.
#[derive(Debug, Clone, Copy, PartialEq, Eq, Structural)]
pub struct Debounce {
    /// The last change that passed.
    pub last: Option<u64>,
}

impl Debounce {
    pub fn new() -> (r: Debounce)
        ensures
            r.last is None,
    {
        Debounce { last: None }
    }

    /// Whether a change passes.
    pub fn passes(&mut self, now: u64) -> (r: bool)
        ensures
            r == (match old(self).last {
                None => true,
                Some(t) => now - t >= SETTLE,
            }),
            r <==> (old(self).last matches Some(t) ==> now - t >= 200_000_000),
            final(self).last == (if r {
                Some(now)
            } else {
                old(self).last
            }),
    {
        let r = match self.last {
            None => true,
            Some(t) => now >= t && now - t >= SETTLE,
        };
        if r {
            self.last = Some(now);
        }
        r
    }
}

// ---- looking without touching ---------------------------------------------

/// What would be done with all windows.
#[derive(Debug, Clone)]
pub struct Survey {
    /// Whether each window would be managed; `None` for one that cannot be seen.
    pub verdicts: Vec<Option<bool>>,
    pub managed: usize,
    pub skipped: usize,
}

/// Whether a window would be managed; `None` for one that cannot be seen.
pub open spec fn verdict(f: WindowFacts, all: Seq<Rule>) -> Option<bool> {
    if f.alive && f.visible {
        Some(filter::manageable(f, all))
    } else {
        None
    }
}

/// How many windows have a verdict.
pub open spec fn tally(verdicts: Seq<Option<bool>>, managed: bool) -> nat
    decreases verdicts.len(),
{
    if verdicts.len() == 0 {
        0
    } else {
        tally(verdicts.drop_last(), managed) + if verdicts.last() == Some(managed) {
            1nat
        } else {
            0nat
        }
    }
}

/// Find out what would be done with all windows.
pub fn survey(all: &Vec<WindowFacts>, rules: &Vec<Rule>) -> (r: Survey)
    ensures
        r.verdicts@ == all@.map_values(|f: WindowFacts| verdict(f, rules@)),
        r.managed == tally(r.verdicts@, true),
        r.skipped == tally(r.verdicts@, false),
{
    let mut verdicts: Vec<Option<bool>> = Vec::new();
    let mut managed: usize = 0;
    let mut skipped: usize = 0;
    let mut i: usize = 0;
    while i < all.len()
        invariant
            i <= all@.len(),
            verdicts@.len() == i,
            forall|k: int| 0 <= k < i ==> #[trigger] verdicts@[k] == verdict(all@[k], rules@),
            managed == tally(verdicts@, true),
            skipped == tally(verdicts@, false),
            managed <= i,
            skipped <= i,
        decreases all@.len() - i,
    {
        let ghost before = verdicts@;
        let seen = all[i].alive && all[i].visible;
        let v = if seen {
            Some(is_manageable(&all[i], rules))
        } else {
            None
        };
        match v {
            Some(true) => {
                managed = managed + 1;
            },
            Some(false) => {
                skipped = skipped + 1;
            },
            None => {},
        }
        verdicts.push(v);
        assert(verdicts@.drop_last() =~= before);
        i = i + 1;
    }
    assert(verdicts@ =~= all@.map_values(|f: WindowFacts| verdict(f, rules@)));
    Survey { verdicts, managed, skipped }
}

// ---- the loop's state -----------------------------------------------------

/// What the event loop keeps.
pub struct Daemon {
    pub wm: WindowManager,
    pub rules: Vec<Rule>,
    pub router: HotkeyRouter,
    /// The bindings that the router was built from.
    pub keybindings: Vec<(String, String)>,
    /// The height that the status bars were started with.
    pub bar_height: i32,
    /// The list of windows that is on disk.
    pub saved: Vec<isize>,
}

/// Whether a router has exactly the bindings' combinations and commands.
pub open spec fn serves(router: HotkeyRouter, all: Seq<(String, String)>) -> bool {
    &&& router.table.distinct()
    &&& router.table@ == hotkey::bindings(all).table
    &&& hotkey::meanings(router.commands@) == hotkey::bindings(all).commands
}

/// All workspaces in order.
pub open spec fn all_workspaces(w: World) -> Seq<WorkspaceId> {
    Seq::new(w.workspaces.len(), |i: int| WorkspaceId((i + 1) as u32))
}

/// The configured behaviour for a workspace that is already visible.
pub open spec fn behaviour(cfg: Config) -> AlreadyVisibleBehaviour {
    match cfg.general.on_workspace_already_visible {
        AlreadyVisible::FocusOtherMonitor => AlreadyVisibleBehaviour::FocusOtherMonitor,
        AlreadyVisible::Swap => AlreadyVisibleBehaviour::Swap,
    }
}

/// The first state, on the monitors that were found.
pub open spec fn first_state(cfg: Config, infos: Seq<MonitorInfo>) -> World {
    monitors::unstarted(
        cfg.general.workspace_count as nat,
        settings::gaps_of(cfg, settings::bar_room(cfg) as int),
        behaviour(cfg),
    ).enrolled_all(infos, infos.len() as int).refocused().with_layout_mode(
        settings::layout_mode(cfg.general.layout),
    )
}

/// Whether another configuration can be taken over: its gaps suit every monitor.
pub open spec fn can_reload(w: World, cfg: Config, bar_height: i32) -> bool {
    &&& settings::gaps_fit(cfg, bar_height as int)
    &&& forall|i: int|
        0 <= i < w.monitors.len() ==> settings::gaps_of(cfg, bar_height as int).suit(
            (#[trigger] w.monitors[i]).info,
        )
}

/// The state after another configuration was taken over. The status bars keep
/// the height that they have, and their room at the top.
pub open spec fn reconfigured(w: World, cfg: Config, bar_height: i32, theme: Theme) -> World {
    let warned = if settings::bar_room(cfg) != bar_height {
        w.say(Act::Notify(ToastLevel::Warn, "Bar height changed; restart to apply"@))
    } else {
        w
    };
    let spaced = World { gaps: settings::gaps_of(cfg, bar_height as int), ..warned };
    let styled = spaced.with_layout_mode(settings::layout_mode(cfg.general.layout)).say(
        Act::Restyle(theme),
    );
    let set = World { on_already_visible: behaviour(cfg), ..styled };
    set.retiled_each(all_workspaces(set)).say(Act::Notify(ToastLevel::Info, "Config reloaded"@))
}

/// What is said of bindings that were taken over.
pub open spec fn rebound_notice(n: nat) -> Seq<char> {
    "Bindings reloaded ("@ + text::decimal(n) + ")"@
}

impl Daemon {
    pub open spec fn inv(&self) -> bool {
        self.wm.inv() && serves(self.router, self.keybindings@)
    }

    /// Start on the monitors that were found. What is said of bindings that are
    /// left out comes along.
    pub fn start(cfg: &Config, rules: Vec<Rule>, infos: Vec<MonitorInfo>) -> (r: Result<
        (Daemon, Vec<String>),
        WmError,
    >)
        requires
            settings::gaps_fit(*cfg, settings::bar_room(*cfg) as int),
            infos@.len() < u32::MAX,
            cfg.keybindings@.len() < u32::MAX,
            forall|i: int|
                0 <= i < infos@.len() ==> settings::gaps_of(
                    *cfg,
                    settings::bar_room(*cfg) as int,
                ).suit(#[trigger] infos@[i]),
        ensures
            r matches Err(e) ==> e == WmError::NoMonitors && infos@.len() == 0,
            r matches Ok(d) ==> {
                &&& infos@.len() > 0
                &&& d.0.inv()
                &&& d.0.wm@ == first_state(*cfg, infos@)
                &&& d.0.rules@ == rules@
                &&& d.0.keybindings@ == cfg.keybindings@
                &&& hotkey::texts(d.1@) == hotkey::bindings(cfg.keybindings@).errors
                &&& d.0.bar_height == settings::bar_room(*cfg)
                &&& d.0.saved@.len() == 0
            },
    {
        let height: i32 = bar_height(cfg);
        let gaps = compose_gaps(cfg, height);
        let behaviour = match cfg.general.on_workspace_already_visible {
            AlreadyVisible::FocusOtherMonitor => AlreadyVisibleBehaviour::FocusOtherMonitor,
            AlreadyVisible::Swap => AlreadyVisibleBehaviour::Swap,
        };
        match WindowManager::new(infos, cfg.general.workspace_count, gaps, behaviour) {
            Err(e) => Err(e),
            Ok(found) => {
                let mut wm = found;
                wm.apply_layout_mode_all(map_layout(cfg.general.layout));
                let keybindings = copy_bindings(&cfg.keybindings);
                let (router, errors) = HotkeyRouter::build(&keybindings);
                Ok(
                    (
                        Daemon {
                            wm,
                            rules,
                            router,
                            keybindings,
                            bar_height: height,
                            saved: Vec::new(),
                        },
                        errors,
                    ),
                )
            },
        }
    }

    /// What becomes of a hotkey.
    pub fn on_hotkey(&self, id: HotkeyId) -> (r: Route)
        requires
            self.inv(),
        ensures
            r.way() == way_of(
                hotkey::bindings(self.keybindings@).command(id),
                self.wm@.paused,
            ),
    {
        match self.router.command_for(id) {
            None => Route::Drop,
            Some(cmd) => {
                let own = match &cmd {
                    Command::TogglePause | Command::Quit | Command::ReloadConfig => true,
                    _ => false,
                };
                if self.wm.paused && !own {
                    return Route::Drop;
                }
                match cmd {
                    Command::Quit => Route::Queue(Command::Quit),
                    Command::ReloadConfig => Route::Queue(Command::ReloadConfig),
                    other => Route::Run(other),
                }
            },
        }
    }

    /// The router for the bindings of another configuration, where they are
    /// others, and what is said of the bindings that are left out.
    pub fn rebinding(&self, cfg: &Config) -> (r: Option<(HotkeyRouter, Vec<String>)>)
        requires
            cfg.keybindings@.len() < u32::MAX,
        ensures
            match r {
                None => config::same_texts(cfg.keybindings@, self.keybindings@),
                Some(built) => {
                    &&& !config::same_texts(cfg.keybindings@, self.keybindings@)
                    &&& serves(built.0, cfg.keybindings@)
                    &&& hotkey::texts(built.1@) == hotkey::bindings(cfg.keybindings@).errors
                },
            },
    {
        if same_bindings(&cfg.keybindings, &self.keybindings) {
            None
        } else {
            Some(HotkeyRouter::build(&cfg.keybindings))
        }
    }

    /// Take over the router of another configuration, after the keyboard
    /// listener has.
    pub fn rebound(&mut self, cfg: &Config, router: HotkeyRouter)
        requires
            old(self).inv(),
            serves(router, cfg.keybindings@),
        ensures
            final(self).inv(),
            final(self).wm@ == old(self).wm@.say(
                Act::Notify(ToastLevel::Info, rebound_notice(router.commands@.len())),
            ),
            final(self).router == router,
            final(self).keybindings@ == cfg.keybindings@,
            final(self).rules == old(self).rules,
            final(self).bar_height == old(self).bar_height,
            final(self).saved == old(self).saved,
    {
        let n: usize = router.commands.len();
        let mut notice = String::from_str("Bindings reloaded (");
        let number = decimal_of(n as u64);
        notice.append(number.as_str());
        notice.append(")");
        self.keybindings = copy_bindings(&cfg.keybindings);
        self.router = router;
        self.wm.say(Effect::Notify(ToastLevel::Info, notice));
    }

    /// Keep the bindings: the keyboard listener did not take over the others.
    pub fn rebind_failed(&mut self)
        requires
            old(self).inv(),
        ensures
            final(self).inv(),
            final(self).wm@ == old(self).wm@.say(
                Act::Notify(ToastLevel::Error, "Keybinding reload failed"@),
            ),
            final(self).router == old(self).router,
            final(self).keybindings == old(self).keybindings,
            final(self).rules == old(self).rules,
            final(self).bar_height == old(self).bar_height,
            final(self).saved == old(self).saved,
    {
        self.wm.say(
            Effect::Notify(ToastLevel::Error, String::from_str("Keybinding reload failed")),
        );
    }

    /// Whether another configuration can be taken over: its gaps suit every
    /// monitor.
    pub fn can_apply(&self, cfg: &Config) -> (r: bool)
        requires
            self.inv(),
        ensures
            r == can_reload(self.wm@, *cfg, self.bar_height),
    {
        if !has_fitting_gaps(cfg, self.bar_height) {
            return false;
        }
        let gaps = compose_gaps(cfg, self.bar_height);
        let mut i: usize = 0;
        while i < self.wm.monitors.len()
            invariant
                i <= self.wm.monitors@.len(),
                settings::gaps_fit(*cfg, self.bar_height as int),
                gaps == settings::gaps_of(*cfg, self.bar_height as int),
                forall|k: int|
                    0 <= k < i ==> gaps.suit((#[trigger] self.wm.monitors@[k]).info),
            decreases self.wm.monitors@.len() - i,
        {
            if !gaps.are_suited(&self.wm.monitors[i].info) {
                assert(!gaps.suit(self.wm@.monitors[i as int].info));
                return false;
            }
            i = i + 1;
        }
        true
    }

    /// Take over another configuration, apart from its bindings.
    pub fn apply_config(&mut self, cfg: &Config, new_rules: Vec<Rule>)
        requires
            old(self).inv(),
            can_reload(old(self).wm@, *cfg, old(self).bar_height),
        ensures
            final(self).inv(),
            exists|theme: Theme| #[trigger]
                settings::is_theme(theme, *cfg) && final(self).wm@ == reconfigured(
                    old(self).wm@,
                    *cfg,
                    old(self).bar_height,
                    theme,
                ),
            final(self).rules@ == new_rules@,
            final(self).router == old(self).router,
            final(self).keybindings == old(self).keybindings,
            final(self).bar_height == old(self).bar_height,
            final(self).saved == old(self).saved,
    {
        if bar_height(cfg) != self.bar_height {
            self.wm.say(
                Effect::Notify(
                    ToastLevel::Warn,
                    String::from_str("Bar height changed; restart to apply"),
                ),
            );
        }
        self.rules = new_rules;
        let ghost warned = self.wm@;
        self.wm.gaps = compose_gaps(cfg, self.bar_height);
        assert(self.wm@.sound()) by {
            assert(warned.sound());
        }
        self.wm.apply_layout_mode_all(map_layout(cfg.general.layout));
        let theme = theme_of(cfg);
        self.wm.say(Effect::Restyle(theme));
        self.wm.on_already_visible = match cfg.general.on_workspace_already_visible {
            AlreadyVisible::FocusOtherMonitor => AlreadyVisibleBehaviour::FocusOtherMonitor,
            AlreadyVisible::Swap => AlreadyVisibleBehaviour::Swap,
        };
        self.wm.retile_all();
        self.wm.say(Effect::Notify(ToastLevel::Info, String::from_str("Config reloaded")));
        assert(settings::is_theme(theme, *cfg));
    }

    /// The list of windows to write to disk, where it is another one.
    pub fn ids_to_save(&self) -> (r: Option<Vec<isize>>)
        requires
            self.inv(),
        ensures
            match r {
                Some(ids) => is_snapshot(ids@, self.wm@.windows) && ids@ != self.saved@,
                None => is_snapshot(self.saved@, self.wm@.windows),
            },
    {
        let ids = snapshot_ids(&self.wm);
        if same_ids(&ids, &self.saved) {
            None
        } else {
            Some(ids)
        }
    }

    /// Note what was written to disk.
    pub fn note_saved(&mut self, ids: Vec<isize>)
        requires
            old(self).inv(),
        ensures
            *final(self) == (Daemon { saved: ids, ..*old(self) }),
    {
        self.saved = ids;
    }
}

/// The same bindings once more.
fn copy_bindings(all: &Vec<(String, String)>) -> (r: Vec<(String, String)>)
    ensures
        r@ == all@,
{
    let mut out: Vec<(String, String)> = Vec::new();
    let mut i: usize = 0;
    while i < all.len()
        invariant
            i <= all@.len(),
            out@.len() == i,
            forall|k: int| 0 <= k < i ==> #[trigger] out@[k] == all@[k],
        decreases all@.len() - i,
    {
        out.push((all[i].0.clone(), all[i].1.clone()));
        i = i + 1;
    }
    assert(out@ =~= all@);
    out
}

/// Another configuration keeps the invariant. The room of the status bars is
/// kept.
pub proof fn law_reload_keeps_order(w: World, cfg: Config, bar_height: i32, theme: Theme)
    requires
        w.wf(),
        can_reload(w, cfg, bar_height),
    ensures
        reconfigured(w, cfg, bar_height, theme).wf(),
        reconfigured(w, cfg, bar_height, theme).gaps.top == cfg.general.outer_gap_top + bar_height,
{
    let warning = Act::Notify(ToastLevel::Warn, "Bar height changed; restart to apply"@);
    keeping::lemma_said(w, warning);
    let warned = if settings::bar_room(cfg) != bar_height {
        w.say(warning)
    } else {
        w
    };
    let spaced = World { gaps: settings::gaps_of(cfg, bar_height as int), ..warned };
    lemma_spaced(warned, spaced.gaps);
    let mode = settings::layout_mode(cfg.general.layout);
    laws::law_layout_mode_moves_no_tile(spaced, mode, WorkspaceId(1), model::nowhere());
    let styled = spaced.with_layout_mode(mode).say(Act::Restyle(theme));
    keeping::lemma_said(spaced.with_layout_mode(mode), Act::Restyle(theme));
    let set = World { on_already_visible: behaviour(cfg), ..styled };
    lemma_behaving(styled, behaviour(cfg));
    topology::lemma_retiled_each(set, all_workspaces(set));
    let tiled = set.retiled_each(all_workspaces(set));
    laws::lemma_notes_hold(set, tiled);
    keeping::lemma_said(tiled, Act::Notify(ToastLevel::Info, "Config reloaded"@));
}

/// Another configuration keeps the windows hidden that have to be.
pub proof fn law_reload_keeps_the_veil(w: World, cfg: Config, bar_height: i32, theme: Theme)
    requires
        w.wf(),
        w.veiled(),
        can_reload(w, cfg, bar_height),
    ensures
        reconfigured(w, cfg, bar_height, theme).veiled(),
{
    let warning = Act::Notify(ToastLevel::Warn, "Bar height changed; restart to apply"@);
    keeping::lemma_said(w, warning);
    let warned = if settings::bar_room(cfg) != bar_height {
        w.say(warning)
    } else {
        w
    };
    let spaced = World { gaps: settings::gaps_of(cfg, bar_height as int), ..warned };
    lemma_spaced(warned, spaced.gaps);
    veil::lemma_same(w, spaced);
    let mode = settings::layout_mode(cfg.general.layout);
    laws::law_layout_mode_moves_no_tile(spaced, mode, WorkspaceId(1), model::nowhere());
    veil::law_layout_mode_keeps_the_veil(spaced, mode);
    let styled = spaced.with_layout_mode(mode).say(Act::Restyle(theme));
    keeping::lemma_said(spaced.with_layout_mode(mode), Act::Restyle(theme));
    let set = World { on_already_visible: behaviour(cfg), ..styled };
    lemma_behaving(styled, behaviour(cfg));
    veil::lemma_same(spaced.with_layout_mode(mode), set);
    sheltering::lemma_each_retiled(set, all_workspaces(set));
    let tiled = set.retiled_each(all_workspaces(set));
    veil::lemma_same(tiled, reconfigured(w, cfg, bar_height, theme));
}

/// Other gaps keep the invariant.
proof fn lemma_spaced(w: World, gaps: Gaps)
    requires
        w.wf(),
        forall|i: int| 0 <= i < w.monitors.len() ==> gaps.suit((#[trigger] w.monitors[i]).info),
    ensures
        (World { gaps, ..w }).wf(),
{
    let after = World { gaps, ..w };
    laws::lemma_rest_of_wf(w, after);
}

/// Another behaviour keeps the invariant.
proof fn lemma_behaving(w: World, b: AlreadyVisibleBehaviour)
    requires
        w.wf(),
    ensures
        (World { on_already_visible: b, ..w }).wf(),
{
    laws::lemma_rest_of_wf(w, World { on_already_visible: b, ..w });
}

/// Another configuration can be taken over again on other answers: up to the
/// first request that is answered otherwise, the requests are the same.
pub proof fn law_reload_can_run_again(
    w: World,
    other: DeskModel,
    cfg: Config,
    bar_height: i32,
    theme: Theme,
)
    requires
        w.desk.fresh(),
        other.fresh(),
    ensures
        replay::kin(
            reconfigured(replay::on(w, other), cfg, bar_height, theme),
            reconfigured(w, cfg, bar_height, theme),
        ),
{
    let v = replay::on(w, other);
    assert(v.desk.log =~= w.desk.log);
    let warning = Act::Notify(ToastLevel::Warn, "Bar height changed; restart to apply"@);
    let warns = settings::bar_room(cfg) != bar_height;
    replay::lemma_said(v.desk, warning);
    let v1 = set_up(v, cfg, bar_height, theme);
    let w1 = set_up(w, cfg, bar_height, theme);
    replay::lemma_said(
        if warns {
            v.desk.said(warning)
        } else {
            v.desk
        },
        Act::Restyle(theme),
    );
    assert(v1.workspaces =~= w1.workspaces);
    assert(replay::twins(v1, w1));
    assert(all_workspaces(v1) =~= all_workspaces(w1));
    let all = all_workspaces(w1);
    replay::lemma_retiled_each_kin(v1, w1, all);
    let v2 = v1.retiled_each(all);
    let w2 = w1.retiled_each(all);
    let notice = Act::Notify(ToastLevel::Info, "Config reloaded"@);
    if replay::parted(v2, w2) {
        replay::lemma_said(v2.desk, notice);
        replay::lemma_said(w2.desk, notice);
        replay::lemma_parted(v2, w2, v2.say(notice), w2.say(notice));
    }
}

/// With another configuration, before the retiling.
spec fn set_up(w: World, cfg: Config, bar_height: i32, theme: Theme) -> World {
    let warned = if settings::bar_room(cfg) != bar_height {
        w.say(Act::Notify(ToastLevel::Warn, "Bar height changed; restart to apply"@))
    } else {
        w
    };
    let spaced = World { gaps: settings::gaps_of(cfg, bar_height as int), ..warned };
    let styled = spaced.with_layout_mode(settings::layout_mode(cfg.general.layout)).say(
        Act::Restyle(theme),
    );
    World { on_already_visible: behaviour(cfg), ..styled }
}

// ---- what all of this adds up to --------------------------------------------

/// A hotkey's command runs at once, but for the two that are queued: the end of the
/// program, and reading the configuration again.
pub proof fn law_hotkeys_run(cmd: Command)
    ensures
        way_of(None, false) is Drop && way_of(None, true) is Drop,
        cmd is Quit || cmd is ReloadConfig ==> way_of(Some(Meaning::Plain(cmd)), false)
            == Way::Queue(Meaning::Plain(cmd)),
        !(cmd is Quit) && !(cmd is ReloadConfig) ==> way_of(Some(Meaning::Plain(cmd)), false)
            == Way::Run(Meaning::Plain(cmd)),
        way_of(Some(Meaning::Plain(cmd)), true) is Drop <==> !(cmd is TogglePause) && !(cmd is Quit)
            && !(cmd is ReloadConfig),
{
}

/// The end of the program stops it, a changed configuration is read again, the windows
/// that are gone are forgotten, and any other command runs.
pub proof fn law_commands_have_their_duties(cmd: Command)
    ensures
        duty(cmd) is Stop <==> cmd is Quit,
        duty(cmd) is Reload <==> cmd is ReloadConfig || cmd is ConfigChanged,
        duty(cmd) is Reap <==> cmd is Reap,
        duty(cmd) matches Duty::Run(c) ==> c == cmd,
{
}

/// A configuration that is taken over counts from then on: its gaps, its layout on every
/// workspace, and what it says of workspaces that are visible already. The user is told,
/// also where the height of the bars would need another start.
pub proof fn law_reload_takes_the_settings_over(
    w: World,
    cfg: Config,
    bar_height: i32,
    theme: Theme,
    i: int,
)
    requires
        settings::gaps_fit(cfg, bar_height as int),
        0 <= i < w.workspaces.len(),
    ensures
        ({
            let after = reconfigured(w, cfg, bar_height, theme);
            &&& after.gaps.inner == cfg.general.gap
            &&& after.gaps.top == cfg.general.outer_gap_top + bar_height
            &&& after.gaps.right == cfg.general.outer_gap_right
            &&& after.gaps.bottom == cfg.general.outer_gap_bottom
            &&& after.gaps.left == cfg.general.outer_gap_left
            &&& cfg.general.on_workspace_already_visible is Swap <==> after.on_already_visible
                is Swap
            &&& after.workspaces.len() == w.workspaces.len()
            &&& cfg.general.layout is Spiral <==> after.workspaces[i].tree.mode is Spiral
            &&& after.workspaces[i].tree.tree == w.workspaces[i].tree.tree
            &&& after.workspaces[i].floating == w.workspaces[i].floating
            &&& after.focused_window == w.focused_window
            &&& after.desk.log.last() == Act::Notify(ToastLevel::Info, "Config reloaded"@)
        }),
{
    let set = set_up(w, cfg, bar_height, theme);
    let all = all_workspaces(set);
    topology::lemma_retiled_each(set, all);
}

/// The program starts with as many workspaces as are configured, all of them empty, with
/// the configured gaps, layout and behaviour, and not paused.
pub proof fn law_start_takes_the_settings_over(cfg: Config, infos: Seq<MonitorInfo>, i: int)
    requires
        settings::gaps_fit(cfg, settings::bar_room(cfg) as int),
        0 <= i < cfg.general.workspace_count,
    ensures
        ({
            let w = first_state(cfg, infos);
            &&& w.workspaces.len() == cfg.general.workspace_count
            &&& w.workspaces[i].id.0 == i + 1
            &&& w.workspaces[i].tree.tree is None && w.workspaces[i].floating.len() == 0
            &&& !w.workspaces[i].monocle
            &&& cfg.general.layout is Spiral <==> w.workspaces[i].tree.mode is Spiral
            &&& w.gaps.inner == cfg.general.gap
            &&& w.gaps.top == cfg.general.outer_gap_top + settings::bar_room(cfg)
            &&& w.gaps.right == cfg.general.outer_gap_right
            &&& w.gaps.bottom == cfg.general.outer_gap_bottom
            &&& w.gaps.left == cfg.general.outer_gap_left
            &&& cfg.general.on_workspace_already_visible is Swap <==> w.on_already_visible is Swap
            &&& !w.paused
            &&& w.focused_window is None
        }),
{
    let empty = monitors::unstarted(
        cfg.general.workspace_count as nat,
        settings::gaps_of(cfg, settings::bar_room(cfg) as int),
        behaviour(cfg),
    );
    lemma_enrolled_keeps(empty, infos, infos.len() as int, i);
}

proof fn lemma_enrolled_keeps(w: World, infos: Seq<MonitorInfo>, n: int, i: int)
    requires
        0 <= n <= infos.len(),
        0 <= i < w.workspaces.len(),
    ensures
        ({
            let after = w.enrolled_all(infos, n);
            let m = after.workspaces[i];
            &&& after.workspaces.len() == w.workspaces.len()
            &&& after == (World { monitors: after.monitors, workspaces: after.workspaces, ..w })
            &&& m == (crate::workspace::WorkspaceModel {
                active_monitor: m.active_monitor,
                last_seen_monitor: m.last_seen_monitor,
                ..w.workspaces[i]
            })
        }),
    decreases n,
{
    if n > 0 {
        lemma_enrolled_keeps(w, infos, n - 1, i);
    }
}

/// Every window with a verdict is counted once, with those that would be managed or with
/// the others.
pub proof fn law_survey_counts_every_window(verdicts: Seq<Option<bool>>, managed: bool)
    ensures
        tally(verdicts.push(Some(managed)), managed) == tally(verdicts, managed) + 1,
        tally(verdicts.push(Some(!managed)), managed) == tally(verdicts, managed),
        tally(verdicts.push(None), managed) == tally(verdicts, managed),
        tally(Seq::empty(), managed) == 0,
{
    assert(verdicts.push(Some(managed)).drop_last() =~= verdicts);
    assert(verdicts.push(Some(!managed)).drop_last() =~= verdicts);
    assert(verdicts.push(None).drop_last() =~= verdicts);
}

/// Only windows that can be seen get a verdict, and it is whether they would be managed.
pub proof fn law_verdict_is_on_visible_windows(f: WindowFacts, all: Seq<Rule>)
    ensures
        verdict(f, all) is None <==> !f.alive || !f.visible,
        verdict(f, all) == Some(true) <==> filter::manageable(f, all),
        filter::manageable(f, all) ==> verdict(f, all) is Some,
{
}

/// Hotkeys do what their bindings say, for the bindings that are taken over.
pub proof fn law_hotkeys_follow_their_bindings(router: HotkeyRouter, all: Seq<(String, String)>)
    requires
        serves(router, all),
    ensures
        router.table@ == hotkey::bindings(all).table,
        router.commands@.len() == hotkey::bindings(all).commands.len(),
        forall|i: int|
            0 <= i < router.commands@.len() ==> (#[trigger] router.commands@[i]).meaning()
                == hotkey::bindings(all).commands[i],
{
    assert(hotkey::meanings(router.commands@).len() == router.commands@.len());
    assert forall|i: int| 0 <= i < router.commands@.len() implies (
    #[trigger] router.commands@[i]).meaning() == hotkey::bindings(all).commands[i] by {
        assert(hotkey::meanings(router.commands@)[i] == router.commands@[i].meaning());
    }
}

} // verus!
