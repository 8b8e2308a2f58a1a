//! The configuration.

use crate::model::AlreadyVisibleBehaviour;
use crate::rules;
use crate::rules::{RawRule, Rule, RuleError, RuleFault};
use vstd::prelude::*;
use vstd::string::StringExecFns;

verus! {

/// The corner radius of the focus frame that fits the windows of the desktop.
pub const DEFAULT_RADIUS: i32 = 8;

/// How a workspace's tiles are split, as it is written down.
#[derive(Debug, Clone, Copy, PartialEq, Eq, Structural)]
pub enum LayoutKind {
    Dwindle,
    Spiral,
}

impl Default for LayoutKind {
    fn default() -> (r: Self)
        ensures
            r == LayoutKind::Dwindle,
    {
        LayoutKind::Dwindle
    }
}

/// What to do when a workspace is already visible, as it is written down.
#[derive(Debug, Clone, Copy, PartialEq, Eq, Structural)]
pub enum AlreadyVisible {
    FocusOtherMonitor,
    Swap,
}

impl From<AlreadyVisible> for AlreadyVisibleBehaviour {
    fn from(v: AlreadyVisible) -> (r: Self) {
        match v {
            AlreadyVisible::FocusOtherMonitor => AlreadyVisibleBehaviour::FocusOtherMonitor,
            AlreadyVisible::Swap => AlreadyVisibleBehaviour::Swap,
        }
    }
}

impl vstd::std_specs::convert::FromSpecImpl<AlreadyVisible> for AlreadyVisibleBehaviour {
    open spec fn obeys_from_spec() -> bool {
        true
    }

    open spec fn from_spec(v: AlreadyVisible) -> AlreadyVisibleBehaviour {
        match v {
            AlreadyVisible::FocusOtherMonitor => AlreadyVisibleBehaviour::FocusOtherMonitor,
            AlreadyVisible::Swap => AlreadyVisibleBehaviour::Swap,
        }
    }
}

/// The general settings.
#[derive(Debug, Clone)]
pub struct General {
    pub gap: i32,
    pub outer_gap_top: i32,
    pub outer_gap_right: i32,
    pub outer_gap_bottom: i32,
    pub outer_gap_left: i32,
    pub workspace_count: u32,
    pub on_workspace_already_visible: AlreadyVisible,
    /// The colour of the focus frame, as `#RRGGBB`.
    pub focused_border_color: String,
    /// The width of the focus frame; 0 for none.
    pub border_width: i32,
    pub corner_radius: i32,
    pub bar_enabled: bool,
    pub layout: LayoutKind,
}

impl General {
    /// The settings where none are written down.
    pub open spec fn usual(self) -> bool {
        &&& self.gap == 8
        &&& self.outer_gap_top == 0
        &&& self.outer_gap_right == 0
        &&& self.outer_gap_bottom == 0
        &&& self.outer_gap_left == 0
        &&& self.workspace_count == 5
        &&& self.on_workspace_already_visible == AlreadyVisible::Swap
        &&& self.focused_border_color@ == "#4FC3F7"@
        &&& self.border_width == 3
        &&& self.corner_radius == DEFAULT_RADIUS
        &&& self.bar_enabled
        &&& self.layout == LayoutKind::Dwindle
    }
}

impl Default for General {
    fn default() -> (r: Self)
        ensures
            r.usual(),
    {
        General {
            gap: 8,
            outer_gap_top: 0,
            outer_gap_right: 0,
            outer_gap_bottom: 0,
            outer_gap_left: 0,
            workspace_count: 5,
            on_workspace_already_visible: AlreadyVisible::Swap,
            focused_border_color: String::from_str("#4FC3F7"),
            border_width: 3,
            corner_radius: DEFAULT_RADIUS,
            bar_enabled: true,
            layout: LayoutKind::Dwindle,
        }
    }
}

/// The colours of the status bar, each as `#RRGGBB`.
#[derive(Debug, Clone)]
pub struct BarColorsConfig {
    pub background: String,
    pub foreground: String,
    pub active_bg: String,
    pub active_fg: String,
    pub visible_outline: String,
    pub dim_fg: String,
}

impl BarColorsConfig {
    /// The settings where none are written down.
    pub open spec fn usual(self) -> bool {
        &&& self.background@ == "#1E1E2E"@
        &&& self.foreground@ == "#C0C0C0"@
        &&& self.active_bg@ == "#4FC3F7"@
        &&& self.active_fg@ == "#101018"@
        &&& self.visible_outline@ == "#808080"@
        &&& self.dim_fg@ == "#606060"@
    }
}

impl Default for BarColorsConfig {
    fn default() -> (r: Self)
        ensures
            r.usual(),
    {
        BarColorsConfig {
            background: String::from_str("#1E1E2E"),
            foreground: String::from_str("#C0C0C0"),
            active_bg: String::from_str("#4FC3F7"),
            active_fg: String::from_str("#101018"),
            visible_outline: String::from_str("#808080"),
            dim_fg: String::from_str("#606060"),
        }
    }
}

/// The settings of the status bar.
#[derive(Debug, Clone)]
pub struct Bar {
    pub height: i32,
    pub show_icon: bool,
    pub show_workspaces: bool,
    pub show_focused_title: bool,
    pub show_clock: bool,
    pub show_battery: bool,
    pub show_network: bool,
    pub show_pause_indicator: bool,
    pub colors: BarColorsConfig,
}

impl Bar {
    /// The settings where none are written down.
    pub open spec fn usual(self) -> bool {
        &&& self.height == 28
        &&& self.show_icon && self.show_workspaces && self.show_focused_title && self.show_clock
        &&& self.show_battery && self.show_network && self.show_pause_indicator
        &&& self.colors.usual()
    }
}

impl Default for Bar {
    fn default() -> (r: Self)
        ensures
            r.usual(),
    {
        Bar {
            height: 28,
            show_icon: true,
            show_workspaces: true,
            show_focused_title: true,
            show_clock: true,
            show_battery: true,
            show_network: true,
            show_pause_indicator: true,
            colors: BarColorsConfig::default(),
        }
    }
}

/// The corner that notifications are stacked in, as it is written down.
#[derive(Debug, Clone, Copy, PartialEq, Eq, Structural)]
pub enum NotificationAnchor {
    TopRight,
}

impl Default for NotificationAnchor {
    fn default() -> (r: Self)
        ensures
            r == NotificationAnchor::TopRight,
    {
        NotificationAnchor::TopRight
    }
}

/// The colours of notifications, each as `#RRGGBB`.
#[derive(Debug, Clone)]
pub struct NotificationColors {
    pub info_bg: String,
    pub info_fg: String,
    pub warn_bg: String,
    pub warn_fg: String,
    pub error_bg: String,
    pub error_fg: String,
}

impl NotificationColors {
    /// The settings where none are written down.
    pub open spec fn usual(self) -> bool {
        &&& self.info_bg@ == "#4FC3F7"@
        &&& self.info_fg@ == "#101018"@
        &&& self.warn_bg@ == "#F9A825"@
        &&& self.warn_fg@ == "#101018"@
        &&& self.error_bg@ == "#E53935"@
        &&& self.error_fg@ == "#FFFFFF"@
    }
}

impl Default for NotificationColors {
    fn default() -> (r: Self)
        ensures
            r.usual(),
    {
        NotificationColors {
            info_bg: String::from_str("#4FC3F7"),
            info_fg: String::from_str("#101018"),
            warn_bg: String::from_str("#F9A825"),
            warn_fg: String::from_str("#101018"),
            error_bg: String::from_str("#E53935"),
            error_fg: String::from_str("#FFFFFF"),
        }
    }
}

/// The settings of notifications.
#[derive(Debug, Clone)]
pub struct Notifications {
    pub enabled: bool,
    /// How long a notification is fully visible, in milliseconds.
    pub ttl_ms: u32,
    /// How many notifications a monitor shows at most.
    pub max_concurrent: u32,
    pub anchor: NotificationAnchor,
    pub colors: NotificationColors,
}

impl Notifications {
    /// The settings where none are written down.
    pub open spec fn usual(self) -> bool {
        &&& self.enabled
        &&& self.ttl_ms == 2200
        &&& self.max_concurrent == 3
        &&& self.anchor == NotificationAnchor::TopRight
        &&& self.colors.usual()
    }
}

impl Default for Notifications {
    fn default() -> (r: Self)
        ensures
            r.usual(),
    {
        Notifications {
            enabled: true,
            ttl_ms: 2200,
            max_concurrent: 3,
            anchor: NotificationAnchor::TopRight,
            colors: NotificationColors::default(),
        }
    }
}

/// All settings.
#[derive(Debug, Clone)]
pub struct Config {
    pub general: General,
    pub bar: Bar,
    pub notifications: Notifications,
    /// Key combinations and their actions, in the order of the combinations.
    pub keybindings: Vec<(String, String)>,
    pub raw_rules: Vec<RawRule>,
}

impl Default for Config {
    fn default() -> (r: Self)
        ensures
            r.general.usual(),
            r.bar.usual(),
            r.notifications.usual(),
            r.keybindings@.len() == 0,
            r.raw_rules@.len() == 0,
    {
        Config {
            general: General::default(),
            bar: Bar::default(),
            notifications: Notifications::default(),
            keybindings: Vec::new(),
            raw_rules: Vec::new(),
        }
    }
}

impl Config {
    /// Compile the rules for windows.
    pub fn compile_rules(&self) -> (r: Result<Vec<Rule>, RuleError>)
        ensures
            match r {
                Ok(all) => rules::compiled_all(self.raw_rules@) == Ok::<Seq<Rule>, RuleFault>(
                    all@,
                ),
                Err(e) => rules::compiled_all(self.raw_rules@) == Err::<Seq<Rule>, RuleFault>(
                    e.fault(),
                ),
            },
    {
        rules::compile_all(&self.raw_rules)
    }
}

/// Whether two lists of bindings have the same texts.
pub open spec fn same_texts(a: Seq<(String, String)>, b: Seq<(String, String)>) -> bool {
    &&& a.len() == b.len()
    &&& forall|i: int|
        0 <= i < a.len() ==> (#[trigger] a[i]).0@ == b[i].0@ && a[i].1@ == b[i].1@
}

/// Whether two lists of bindings have the same texts.
pub fn same_bindings(a: &Vec<(String, String)>, b: &Vec<(String, String)>) -> (r: bool)
    ensures
        r == same_texts(a@, b@),
{
    if a.len() != b.len() {
        return false;
    }
    let mut i: usize = 0;
    while i < a.len()
        invariant
            i <= a@.len(),
            a@.len() == b@.len(),
            forall|k: int|
                0 <= k < i ==> (#[trigger] a@[k]).0@ == b@[k].0@ && a@[k].1@ == b@[k].1@,
        decreases a@.len() - i,
    {
        if a[i].0 != b[i].0 || a[i].1 != b[i].1 {
            return false;
        }
        i = i + 1;
    }
    true
}

/// Where nothing is written down there are five workspaces with gaps of 8 pixels and none
/// at the edges, a frame of 3 pixels, a bar of 28 pixels with all its parts, and up to
/// three notifications of 2200 milliseconds at the top right.
pub proof fn law_usual_settings(g: General, b: Bar, n: Notifications)
    requires
        g.usual(),
        b.usual(),
        n.usual(),
    ensures
        g.workspace_count == 5,
        g.gap == 8,
        g.outer_gap_top == 0 && g.outer_gap_right == 0,
        g.outer_gap_bottom == 0 && g.outer_gap_left == 0,
        g.border_width == 3 && g.corner_radius == 8,
        g.bar_enabled,
        g.layout is Dwindle,
        g.on_workspace_already_visible is Swap,
        b.height == 28,
        b.show_icon && b.show_workspaces && b.show_focused_title && b.show_clock,
        b.show_battery && b.show_network && b.show_pause_indicator,
        n.enabled,
        n.ttl_ms == 2200,
        n.max_concurrent == 3,
        n.anchor is TopRight,
{
}

/// Two lists of bindings are the same where they have the same combinations and the same
/// actions in the same order.
pub proof fn law_same_bindings_have_the_same_texts(
    a: Seq<(String, String)>,
    b: Seq<(String, String)>,
    x: (String, String),
    y: (String, String),
)
    ensures
        same_texts(a.push(x), b.push(y)) <==> same_texts(a, b) && x.0@ == y.0@ && x.1@ == y.1@,
        same_texts(a, b) ==> a.len() == b.len(),
        same_texts(a, a),
{
    let p = a.push(x);
    let q = b.push(y);
    if same_texts(p, q) {
        assert(p[a.len() as int].0@ == q[a.len() as int].0@);
        assert(p[a.len() as int].1@ == q[a.len() as int].1@);
        assert forall|k: int| 0 <= k < a.len() implies (#[trigger] a[k]).0@ == b[k].0@ && a[k].1@
            == b[k].1@ by {
            assert(p[k] == a[k] && q[k] == b[k]);
        }
    }
}

} // verus!
