//! Rules for windows.

use crate::text;
use regex::Regex;
use vstd::prelude::*;

verus! {

/// `regex::Regex`, a compiled regular expression.
#[verifier::external_type_specification]
#[verifier::external_body]
pub struct ExRegex(regex::Regex);

/// What `regex::Regex::new` makes of a pattern: a regular expression, or what is
/// said of the pattern. A pattern is refused whose compiled form is over a limit
/// in bytes; just at that limit the answer differs between machines whose pointers
/// differ in width.
pub uninterp spec fn regex_built(pattern: Seq<char>) -> Result<regex::Regex, Seq<char>>;

/// What `regex::Regex::is_match` says: whether a text holds a match.
pub uninterp spec fn regex_found(re: regex::Regex, text: Seq<char>) -> bool;

/// Compile a pattern with `regex::Regex::new`. The result depends on the pattern
/// alone; an error is turned into its text.
#[verifier::external_body]
fn build_regex(pattern: &str) -> (r: Result<Regex, String>)
    ensures
        match r {
            Ok(re) => regex_built(pattern@) == Ok::<regex::Regex, Seq<char>>(re),
            Err(e) => regex_built(pattern@) == Err::<regex::Regex, Seq<char>>(e@),
        },
{
    match Regex::new(pattern) {
        Ok(re) => Ok(re),
        Err(e) => Err(e.to_string()),
    }
}

/// `regex::Regex::is_match`: the result depends on the regular expression and
/// the text alone.
pub assume_specification[ regex::Regex::is_match ](re: &regex::Regex, haystack: &str) -> (r: bool)
    ensures
        r == regex_found(*re, haystack@),
;

/// The action of a rule as it is written down.
#[derive(Debug, Clone, Copy, PartialEq, Eq, Structural)]
pub enum RawRuleAction {
    Ignore,
    Float,
    Tile,
    /// Put the window on the workspace that the rule names.
    Workspace,
}

/// What is done with a window that a rule matches.
#[derive(Debug, Clone, Copy, PartialEq, Eq, Structural)]
pub enum RuleAction {
    Ignore,
    Float,
    Tile,
    Workspace(u32),
}

/// What a rule asks of a window.
#[derive(Debug, Clone)]
pub struct RuleMatcher {
    /// The name of the program, in any case.
    pub exe: Option<String>,
    /// A regular expression for the window class.
    pub class: Option<String>,
    /// A regular expression for the title.
    pub title: Option<String>,
}

/// A rule as it is written down.
#[derive(Debug, Clone)]
pub struct RawRule {
    pub matcher: RuleMatcher,
    pub action: RawRuleAction,
    /// The workspace for [`RawRuleAction::Workspace`].
    pub workspace: Option<u32>,
}

/// A rule with its regular expressions.
#[derive(Debug, Clone)]
pub struct Rule {
    pub exe: Option<String>,
    pub class_re: Option<Regex>,
    pub title_re: Option<Regex>,
    pub action: RuleAction,
}

/// Why a rule was rejected.
#[derive(Debug, Clone)]
pub enum RuleError {
    /// The pattern for the class is not a regular expression.
    BadClass(RuleMatcher, String),
    /// The pattern for the title is not a regular expression.
    BadTitle(RuleMatcher, String),
    /// The rule names no workspace to put the window on.
    MissingWorkspace(RuleMatcher),
    /// There is no workspace 0.
    ZeroWorkspace(RuleMatcher),
}

/// Why a rule was rejected, whatever the strings that say so.
pub enum RuleFault {
    BadClass(RuleMatcher, Seq<char>),
    BadTitle(RuleMatcher, Seq<char>),
    MissingWorkspace(RuleMatcher),
    ZeroWorkspace(RuleMatcher),
}

impl RuleError {
    pub open spec fn fault(self) -> RuleFault {
        match self {
            RuleError::BadClass(m, e) => RuleFault::BadClass(m, e@),
            RuleError::BadTitle(m, e) => RuleFault::BadTitle(m, e@),
            RuleError::MissingWorkspace(m) => RuleFault::MissingWorkspace(m),
            RuleError::ZeroWorkspace(m) => RuleFault::ZeroWorkspace(m),
        }
    }
}

fn copy_text(s: &Option<String>) -> (r: Option<String>)
    ensures
        r == *s,
{
    match s {
        Some(t) => Some(t.clone()),
        None => None,
    }
}

impl RuleMatcher {
    fn copied(&self) -> (r: RuleMatcher)
        ensures
            r == *self,
    {
        RuleMatcher {
            exe: copy_text(&self.exe),
            class: copy_text(&self.class),
            title: copy_text(&self.title),
        }
    }
}

impl Default for RuleMatcher {
    fn default() -> (r: Self)
        ensures
            r == (RuleMatcher { exe: None, class: None, title: None }),
    {
        RuleMatcher { exe: None, class: None, title: None }
    }
}

// ---- matching -------------------------------------------------------------

/// Whether the answers to what a rule asks make it match: it asks something,
/// and no answer is no.
pub open spec fn all_agree(exe: Option<bool>, class: Option<bool>, title: Option<bool>) -> bool {
    &&& exe is Some || class is Some || title is Some
    &&& exe != Some(false)
    &&& class != Some(false)
    &&& title != Some(false)
}

/// Whether the answers to what a rule asks make it match.
pub fn verdict(exe: Option<bool>, class: Option<bool>, title: Option<bool>) -> (r: bool)
    ensures
        r == all_agree(exe, class, title),
{
    (exe.is_some() || class.is_some() || title.is_some()) && exe != Some(false) && class != Some(
        false,
    ) && title != Some(false)
}

impl Rule {
    /// Whether the rule matches a window. A rule that asks nothing matches none.
    pub open spec fn applies(self, exe: Seq<char>, class: Seq<char>, title: Seq<char>) -> bool {
        all_agree(
            match self.exe {
                Some(want) => Some(text::same_letters(want@, exe)),
                None => None,
            },
            match self.class_re {
                Some(re) => Some(regex_found(re, class)),
                None => None,
            },
            match self.title_re {
                Some(re) => Some(regex_found(re, title)),
                None => None,
            },
        )
    }

    /// Whether the rule matches a window.
    pub fn matches(&self, exe: &str, class: &str, title: &str) -> (r: bool)
        ensures
            r == self.applies(exe@, class@, title@),
    {
        let named = match &self.exe {
            Some(want) => Some(text::is_same_letters(want.as_str(), exe)),
            None => None,
        };
        let classed = match &self.class_re {
            Some(re) => Some(re.is_match(class)),
            None => None,
        };
        let titled = match &self.title_re {
            Some(re) => Some(re.is_match(title)),
            None => None,
        };
        verdict(named, classed, titled)
    }
}

/// Whether the rule at `i` is the first that matches a window.
pub open spec fn is_first_match(
    rules: Seq<Rule>,
    i: int,
    exe: Seq<char>,
    class: Seq<char>,
    title: Seq<char>,
) -> bool {
    &&& 0 <= i < rules.len()
    &&& rules[i].applies(exe, class, title)
    &&& forall|j: int| 0 <= j < i ==> !(#[trigger] rules[j]).applies(exe, class, title)
}

/// The action of the first rule that matches a window.
pub open spec fn action_for(
    rules: Seq<Rule>,
    exe: Seq<char>,
    class: Seq<char>,
    title: Seq<char>,
) -> Option<RuleAction> {
    if exists|i: int| is_first_match(rules, i, exe, class, title) {
        Some(rules[choose|i: int| is_first_match(rules, i, exe, class, title)].action)
    } else {
        None
    }
}

proof fn lemma_first_match(
    rules: Seq<Rule>,
    i: int,
    exe: Seq<char>,
    class: Seq<char>,
    title: Seq<char>,
)
    requires
        is_first_match(rules, i, exe, class, title),
    ensures
        action_for(rules, exe, class, title) == Some(rules[i].action),
{
    let k = choose|k: int| is_first_match(rules, k, exe, class, title);
    assert(is_first_match(rules, k, exe, class, title));
    if k < i {
        assert(!rules[k].applies(exe, class, title));
    } else if i < k {
        assert(!rules[i].applies(exe, class, title));
    }
}

/// The action of the first rule that matches a window.
pub fn first_matching_action(rules: &Vec<Rule>, exe: &str, class: &str, title: &str) -> (r: Option<
    RuleAction,
>)
    ensures
        r == action_for(rules@, exe@, class@, title@),
{
    let mut i: usize = 0;
    while i < rules.len()
        invariant
            i <= rules@.len(),
            forall|j: int|
                0 <= j < i ==> !(#[trigger] rules@[j]).applies(exe@, class@, title@),
        decreases rules@.len() - i,
    {
        if rules[i].matches(exe, class, title) {
            proof {
                lemma_first_match(rules@, i as int, exe@, class@, title@);
            }
            return Some(rules[i].action);
        }
        i = i + 1;
    }
    None
}

/// Where a rule matches, no rule behind it counts.
pub proof fn law_first_match_wins(
    front: Seq<Rule>,
    rest: Seq<Rule>,
    exe: Seq<char>,
    class: Seq<char>,
    title: Seq<char>,
)
    requires
        action_for(front, exe, class, title) is Some,
    ensures
        action_for(front + rest, exe, class, title) == action_for(front, exe, class, title),
{
    let i = choose|i: int| is_first_match(front, i, exe, class, title);
    assert(is_first_match(front, i, exe, class, title));
    let all = front + rest;
    assert forall|j: int| 0 <= j < i implies !(#[trigger] all[j]).applies(exe, class, title) by {
        assert(all[j] == front[j]);
    }
    assert(is_first_match(all, i, exe, class, title));
    lemma_first_match(all, i, exe, class, title);
    lemma_first_match(front, i, exe, class, title);
}

// ---- compiling ------------------------------------------------------------

/// The outcome of compiling a pattern, where there is one.
pub open spec fn built(pattern: Option<String>) -> Option<Result<Regex, Seq<char>>> {
    match pattern {
        Some(p) => Some(regex_built(p@)),
        None => None,
    }
}

/// The regular expression, where a pattern was compiled.
pub open spec fn made(built: Option<Result<Regex, Seq<char>>>) -> Option<Regex> {
    match built {
        Some(Ok(re)) => Some(re),
        _ => None,
    }
}

/// The action of a rule, or why there is none.
pub open spec fn resolved(raw: RawRule) -> Result<RuleAction, RuleFault> {
    match raw.action {
        RawRuleAction::Ignore => Ok(RuleAction::Ignore),
        RawRuleAction::Float => Ok(RuleAction::Float),
        RawRuleAction::Tile => Ok(RuleAction::Tile),
        RawRuleAction::Workspace => match raw.workspace {
            None => Err(RuleFault::MissingWorkspace(raw.matcher)),
            Some(n) => if n == 0 {
                Err(RuleFault::ZeroWorkspace(raw.matcher))
            } else {
                Ok(RuleAction::Workspace(n))
            },
        },
    }
}

/// A rule with what its patterns were compiled to. What is wrong with the class
/// counts first, then the title, then the workspace.
pub open spec fn assembled(
    raw: RawRule,
    class: Option<Result<Regex, Seq<char>>>,
    title: Option<Result<Regex, Seq<char>>>,
) -> Result<Rule, RuleFault> {
    match class {
        Some(Err(e)) => Err(RuleFault::BadClass(raw.matcher, e)),
        _ => match title {
            Some(Err(e)) => Err(RuleFault::BadTitle(raw.matcher, e)),
            _ => match resolved(raw) {
                Err(f) => Err(f),
                Ok(action) => Ok(
                    Rule {
                        exe: raw.matcher.exe,
                        class_re: made(class),
                        title_re: made(title),
                        action,
                    },
                ),
            },
        },
    }
}

/// The outcome of compiling a pattern as a plain value.
pub open spec fn outcome(built: Option<Result<Regex, String>>) -> Option<
    Result<Regex, Seq<char>>,
> {
    match built {
        Some(Ok(re)) => Some(Ok(re)),
        Some(Err(e)) => Some(Err(e@)),
        None => None,
    }
}

/// The action of a rule.
fn resolve(raw: &RawRule) -> (r: Result<RuleAction, RuleError>)
    ensures
        match r {
            Ok(a) => resolved(*raw) == Ok::<RuleAction, RuleFault>(a),
            Err(e) => resolved(*raw) == Err::<RuleAction, RuleFault>(e.fault()),
        },
{
    match raw.action {
        RawRuleAction::Ignore => Ok(RuleAction::Ignore),
        RawRuleAction::Float => Ok(RuleAction::Float),
        RawRuleAction::Tile => Ok(RuleAction::Tile),
        RawRuleAction::Workspace => match raw.workspace {
            None => Err(RuleError::MissingWorkspace(raw.matcher.copied())),
            Some(n) => if n == 0 {
                Err(RuleError::ZeroWorkspace(raw.matcher.copied()))
            } else {
                Ok(RuleAction::Workspace(n))
            },
        },
    }
}

/// Put a rule together from what its patterns were compiled to.
pub fn assemble(
    raw: &RawRule,
    class: Option<Result<Regex, String>>,
    title: Option<Result<Regex, String>>,
) -> (r: Result<Rule, RuleError>)
    ensures
        match r {
            Ok(rule) => assembled(*raw, outcome(class), outcome(title)) == Ok::<Rule, RuleFault>(
                rule,
            ),
            Err(e) => assembled(*raw, outcome(class), outcome(title)) == Err::<Rule, RuleFault>(
                e.fault(),
            ),
        },
{
    let class_re = match class {
        Some(Err(e)) => {
            return Err(RuleError::BadClass(raw.matcher.copied(), e));
        },
        Some(Ok(re)) => Some(re),
        None => None,
    };
    let title_re = match title {
        Some(Err(e)) => {
            return Err(RuleError::BadTitle(raw.matcher.copied(), e));
        },
        Some(Ok(re)) => Some(re),
        None => None,
    };
    match resolve(raw) {
        Err(e) => Err(e),
        Ok(action) => Ok(Rule { exe: copy_text(&raw.matcher.exe), class_re, title_re, action }),
    }
}

/// Compile a pattern, where there is one.
fn build(pattern: &Option<String>) -> (r: Option<Result<Regex, String>>)
    ensures
        outcome(r) == built(*pattern),
{
    match pattern {
        Some(p) => Some(build_regex(p.as_str())),
        None => None,
    }
}

/// A rule as it is written down, compiled.
pub open spec fn compiled(raw: RawRule) -> Result<Rule, RuleFault> {
    assembled(raw, built(raw.matcher.class), built(raw.matcher.title))
}

/// All rules, compiled; the first that is wrong counts.
pub open spec fn compiled_all(raw: Seq<RawRule>) -> Result<Seq<Rule>, RuleFault>
    decreases raw.len(),
{
    if raw.len() == 0 {
        Ok(Seq::empty())
    } else {
        match compiled_all(raw.drop_last()) {
            Err(f) => Err(f),
            Ok(rules) => match compiled(raw.last()) {
                Err(f) => Err(f),
                Ok(rule) => Ok(rules.push(rule)),
            },
        }
    }
}

proof fn lemma_compiled_stuck(raw: Seq<RawRule>, k: int)
    requires
        0 <= k <= raw.len(),
        compiled_all(raw.take(k)) is Err,
    ensures
        compiled_all(raw) == compiled_all(raw.take(k)),
    decreases raw.len(),
{
    if k == raw.len() {
        assert(raw.take(k) =~= raw);
    } else {
        assert(raw.drop_last().take(k) =~= raw.take(k));
        lemma_compiled_stuck(raw.drop_last(), k);
    }
}

/// Compile all rules.
pub fn compile_all(raw: &Vec<RawRule>) -> (r: Result<Vec<Rule>, RuleError>)
    ensures
        match r {
            Ok(rules) => compiled_all(raw@) == Ok::<Seq<Rule>, RuleFault>(rules@),
            Err(e) => compiled_all(raw@) == Err::<Seq<Rule>, RuleFault>(e.fault()),
        },
{
    let mut out: Vec<Rule> = Vec::new();
    let mut i: usize = 0;
    assert(raw@.take(0) =~= Seq::<RawRule>::empty());
    while i < raw.len()
        invariant
            i <= raw@.len(),
            compiled_all(raw@.take(i as int)) == Ok::<Seq<Rule>, RuleFault>(out@),
        decreases raw@.len() - i,
    {
        proof {
            assert(raw@.take(i + 1).drop_last() =~= raw@.take(i as int));
            assert(raw@.take(i + 1).last() == raw@[i as int]);
        }
        let class = build(&raw[i].matcher.class);
        let title = build(&raw[i].matcher.title);
        match assemble(&raw[i], class, title) {
            Ok(rule) => {
                out.push(rule);
            },
            Err(e) => {
                proof {
                    lemma_compiled_stuck(raw@, i + 1);
                }
                return Err(e);
            },
        }
        i = i + 1;
    }
    assert(raw@.take(i as int) =~= raw@);
    Ok(out)
}

/// A rule matches a window where it asks something and the window has all that it asks:
/// the name of the program in any case, the class and the title as its patterns find
/// them.
pub proof fn law_rule_asks_for_all(
    r: Rule,
    exe: Seq<char>,
    class: Seq<char>,
    title: Seq<char>,
)
    ensures
        r.exe is None && r.class_re is None && r.title_re is None ==> !r.applies(exe, class, title),
        r.exe is Some || r.class_re is Some || r.title_re is Some ==> (r.applies(exe, class, title)
            <==> {
            &&& r.exe matches Some(want) ==> text::same_letters(want@, exe)
            &&& r.class_re matches Some(re) ==> regex_found(re, class)
            &&& r.title_re matches Some(re) ==> regex_found(re, title)
        }),
{
}

/// A rule keeps its action; one that names a workspace needs its number, which is not 0.
/// Its patterns stay with the class and with the title.
pub proof fn law_rule_keeps_its_action(raw: RawRule)
    ensures
        compiled(raw) matches Ok(rule) ==> {
            &&& raw.action is Ignore <==> rule.action is Ignore
            &&& raw.action is Float <==> rule.action is Float
            &&& raw.action is Tile <==> rule.action is Tile
            &&& raw.action is Workspace <==> rule.action is Workspace
            &&& raw.action is Workspace ==> raw.workspace == Some(rule.action->Workspace_0)
                && rule.action->Workspace_0 > 0
            &&& rule.exe == raw.matcher.exe
            &&& raw.matcher.class is None <==> rule.class_re is None
            &&& raw.matcher.title is None <==> rule.title_re is None
            &&& raw.matcher.class matches Some(p) ==> regex_built(p@) == Ok::<Regex, Seq<char>>(
                rule.class_re->0,
            )
            &&& raw.matcher.title matches Some(p) ==> regex_built(p@) == Ok::<Regex, Seq<char>>(
                rule.title_re->0,
            )
        },
        compiled(raw) is Err <==> {
            ||| raw.matcher.class matches Some(p) && regex_built(p@) is Err
            ||| raw.matcher.title matches Some(p) && regex_built(p@) is Err
            ||| raw.action is Workspace && (raw.workspace is None || raw.workspace == Some(0u32))
        },
{
}

/// The rules are compiled in their order; all of them, or none where one is wrong, and
/// then it is said what is wrong with the first such.
pub proof fn law_rules_keep_their_order(raw: Seq<RawRule>)
    ensures
        match compiled_all(raw) {
            Ok(all) => all.len() == raw.len() && forall|i: int|
                0 <= i < raw.len() ==> compiled(#[trigger] raw[i]) == Ok::<Rule, RuleFault>(all[i]),
            Err(f) => exists|i: int|
                0 <= i < raw.len() && compiled(#[trigger] raw[i]) == Err::<Rule, RuleFault>(f)
                    && forall|j: int| 0 <= j < i ==> compiled(#[trigger] raw[j]) is Ok,
        },
    decreases raw.len(),
{
    if raw.len() > 0 {
        let front = raw.drop_last();
        law_rules_keep_their_order(front);
        match compiled_all(front) {
            Ok(all) => {
                assert forall|j: int| 0 <= j < front.len() implies compiled(#[trigger] raw[j])
                    == Ok::<Rule, RuleFault>(all[j]) by {
                    assert(front[j] == raw[j]);
                }
                assert(compiled(raw[raw.len() - 1]) == compiled(raw.last()));
            },
            Err(f) => {
                let i = choose|i: int|
                    0 <= i < front.len() && compiled(#[trigger] front[i]) == Err::<
                        Rule,
                        RuleFault,
                    >(f) && forall|j: int| 0 <= j < i ==> compiled(#[trigger] front[j]) is Ok;
                assert(raw[i] == front[i]);
                assert forall|j: int| 0 <= j < i implies compiled(#[trigger] raw[j]) is Ok by {
                    assert(front[j] == raw[j]);
                }
            },
        }
    }
}

} // verus!
