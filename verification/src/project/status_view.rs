use vstd::prelude::*;
use crate::project::{Draft, Group, Layer, Profile, Rule, strings_view};
use crate::project::status::{
    ActionCounts, CompletionState, CompletionView, Evaluation, FINISH_COMMAND, NEXT_LIMIT, OverallStatus,
    OverallView, RecordedReport, RecordedView, RuleCounts, RuleView, RunStateView, State, behavior_completion,
    behavior_completion_spec, obligations_state_spec, rule_obligations_spec, rule_view, run_state_of,
    run_state_of_spec, unexercised_count, copy_strings, copy_text, option_text, run_state_view, static_strs,
    DraftView,
};
use crate::project::option_view;
use crate::project::runstate::Classification;
use crate::tree::{Tree, key_compare, key_less, lemma_lookup, lemma_lookup_at, lookup};
use crate::report::{CoverageStatus, RunStatus};
use crate::project::status::RecordedObligation;
use crate::structure::{LayerStatus, RuleResult, RuleStatus, StructureReport};
use crate::text::{append, decimal, decimal_text, joined, starts_with, str_eq, strip_prefix_text};

verus! {

/// What the status reads of a loaded project: its name and manifest, its profile, its rules,
/// contract groups and drafts, how many actions its behavior contract declares, and whether
/// it has active structure contracts.
pub struct ProjectSummary {
    pub name: String,
    pub manifest: String,
    pub profile: Option<Profile>,
    pub rules: Vec<Rule>,
    pub groups: Vec<Group>,
    pub drafts: Vec<Draft>,
    pub actions: usize,
    pub has_structure: bool,
}

/// Whether the project has an active behavior contract.
pub open spec fn has_behavior_spec(p: ProjectSummary) -> bool {
    exists|i: int| 0 <= i < p.groups@.len() && (#[trigger] p.groups@[i]).layer == Layer::Behavior
}

impl ProjectSummary {
    /// Whether the project has an active behavior contract.
    pub fn has_behavior(&self) -> (b: bool)
        ensures
            b == has_behavior_spec(*self),
    {
        let mut i: usize = 0;
        while i < self.groups.len()
            invariant
                i <= self.groups.len(),
                forall|j: int| 0 <= j < i ==> (#[trigger] self.groups@[j]).layer != Layer::Behavior,
            decreases self.groups.len() - i,
        {
            match self.groups[i].layer {
                Layer::Behavior => {
                    return true;
                },
                Layer::Structure => {},
            }
            i += 1;
        }
        false
    }
}

// ---------------------------------------------------------------------------------------
// Completion.
// ---------------------------------------------------------------------------------------

/// Whether the project may be declared complete, and why: structure first, then behavior.
pub open spec fn completion_spec(
    p: ProjectSummary,
    e: Evaluation,
    state: State,
    s: StructureReport,
) -> (CompletionState, Seq<char>) {
    let behavior = has_behavior_spec(p);
    if !behavior && !p.has_structure {
        (
            CompletionState::NoActiveContracts,
            "no active contracts; promote a draft with `use behavior` or `use structure` in project.bla"@,
        )
    } else if s.status == LayerStatus::Red {
        (
            CompletionState::StructureRed,
            "structure: "@ + decimal(s.violated as nat) + " of "@ + decimal(s.total as nat) + " rules violated"@,
        )
    } else if s.status == LayerStatus::Error {
        (
            CompletionState::StructureError,
            "structure could not be evaluated: "@ + match s.first_error {
                Some(m) => m@,
                None => "provider failure"@,
            },
        )
    } else if behavior {
        let (b, reason) = behavior_completion_spec(p.profile is Some, e, state);
        if b == CompletionState::Green && p.has_structure {
            (CompletionState::Green, "canonical verification and structure are GREEN"@)
        } else {
            (b, reason)
        }
    } else {
        (CompletionState::Green, "structure is GREEN; no behavior contracts are active"@)
    }
}

/// The finish command a completion names: when a profile is declared or there is no
/// behavior contract to verify.
pub open spec fn completion_command(p: ProjectSummary) -> bool {
    p.profile is Some || !has_behavior_spec(p)
}

/// Whether the project may be declared complete, and why.
pub fn completion(p: &ProjectSummary, e: &Evaluation, state: State, s: &StructureReport) -> (c: CompletionView)
    ensures
        (c.state, c.reason@) == completion_spec(*p, *e, state, *s),
        c.allowed == (c.state == CompletionState::Green),
        c.command is Some == completion_command(*p),
        c.command matches Some(w) ==> w@ == FINISH_COMMAND@,
{
    let behavior = p.has_behavior();
    let command: Option<&'static str> = if p.profile.is_some() || !behavior {
        Some(FINISH_COMMAND)
    } else {
        None
    };
    let (state_c, reason): (CompletionState, String) = if !behavior && !p.has_structure {
        (
            CompletionState::NoActiveContracts,
            "no active contracts; promote a draft with `use behavior` or `use structure` in project.bla".to_owned(),
        )
    } else if s.status == LayerStatus::Red {
        let mut m = joined("structure: ", decimal_text(s.violated as u64).as_str());
        append(&mut m, " of ");
        append(&mut m, decimal_text(s.total as u64).as_str());
        append(&mut m, " rules violated");
        (CompletionState::StructureRed, m)
    } else if s.status == LayerStatus::Error {
        let mut m = "structure could not be evaluated: ".to_owned();
        match &s.first_error {
            Some(first) => append(&mut m, first.as_str()),
            None => append(&mut m, "provider failure"),
        }
        (CompletionState::StructureError, m)
    } else if behavior {
        let (b, r) = behavior_completion(p.profile.is_some(), e, state);
        if b == CompletionState::Green && p.has_structure {
            (CompletionState::Green, "canonical verification and structure are GREEN".to_owned())
        } else {
            (b, r)
        }
    } else {
        (CompletionState::Green, "structure is GREEN; no behavior contracts are active".to_owned())
    };
    let allowed = state_c == CompletionState::Green;
    CompletionView { state: state_c, allowed, command, reason }
}

// ---------------------------------------------------------------------------------------
// Rules.
// ---------------------------------------------------------------------------------------

/// The recorded report the status may read: none while a run is under way or interrupted, or
/// when the record is stale.
pub open spec fn usable(e: Evaluation) -> Option<RecordedReport> {
    if e.stale || run_state_of_spec(e) is Some {
        None
    } else {
        e.report
    }
}

/// The state a rule takes when there is no usable report.
pub open spec fn fallback(e: Evaluation) -> State {
    match run_state_of_spec(e) {
        Some(s) => s,
        None => if e.stale {
            State::Stale
        } else {
            State::Unverified
        },
    }
}

/// The state a rule has under the usable report, or the fallback.
pub open spec fn rule_state(rule: Rule, report: Option<RecordedReport>, fallback: State) -> State {
    match report {
        Some(r) => obligations_state_spec(rule_obligations_spec(rule, r)),
        None => fallback,
    }
}

/// How many of a rule's obligations the usable report left unexercised.
pub open spec fn rule_unexercised(rule: Rule, report: Option<RecordedReport>) -> nat {
    match report {
        Some(r) => unexercised_count(rule_obligations_spec(rule, r)),
        None => 0,
    }
}

/// A rule view as a value of text.
pub struct RuleViewV {
    pub id: Seq<char>,
    pub group: Seq<char>,
    pub label: Seq<char>,
    pub file: Seq<char>,
    pub line: usize,
    pub state: State,
    pub unexercised: nat,
}

pub open spec fn rule_view_v(v: RuleView) -> RuleViewV {
    RuleViewV {
        id: v.id@,
        group: v.group@,
        label: v.label@,
        file: v.file@,
        line: v.line,
        state: v.state,
        unexercised: v.unexercised as nat,
    }
}

pub open spec fn rule_views_v(vs: Seq<RuleView>) -> Seq<RuleViewV> {
    vs.map_values(|v: RuleView| rule_view_v(v))
}

/// What the status shows of `rule`.
pub open spec fn rule_view_spec(rule: Rule, report: Option<RecordedReport>, fallback: State) -> RuleViewV {
    RuleViewV {
        id: rule.id@,
        group: rule.group@,
        label: rule.label@,
        file: rule.file@,
        line: rule.line,
        state: rule_state(rule, report, fallback),
        unexercised: rule_unexercised(rule, report),
    }
}

/// What the status shows of each rule.
pub open spec fn rule_views_spec(rules: Seq<Rule>, report: Option<RecordedReport>, fallback: State) -> Seq<RuleViewV> {
    rules.map_values(|r: Rule| rule_view_spec(r, report, fallback))
}

fn rule_views(rules: &Vec<Rule>, report: Option<&RecordedReport>, fallback: State) -> (vs: Vec<RuleView>)
    ensures
        rule_views_v(vs@) == rule_views_spec(
            rules@,
            match report {
                Some(r) => Some(*r),
                None => None,
            },
            fallback,
        ),
{
    let ghost rep = match report {
        Some(r) => Some(*r),
        None => None,
    };
    let mut vs: Vec<RuleView> = Vec::new();
    let mut i: usize = 0;
    while i < rules.len()
        invariant
            i <= rules.len(),
            rep == match report {
                Some(r) => Some(*r),
                None => None::<RecordedReport>,
            },
            vs@.len() == i,
            forall|j: int| 0 <= j < i ==> rule_view_v(#[trigger] vs@[j]) == rule_view_spec(rules@[j], rep, fallback),
        decreases rules.len() - i,
    {
        let v = rule_view(&rules[i], report, fallback);
        assert(rule_view_v(v) == rule_view_spec(rules@[i as int], rep, fallback));
        vs.push(v);
        i += 1;
    }
    assert(rule_views_v(vs@) =~= rule_views_spec(rules@, rep, fallback));
    vs
}

/// The counts of `states`: all of them, the green, the red, and the rest as yellow.
pub open spec fn counts_spec(states: Seq<State>) -> (nat, nat, nat, nat)
    decreases states.len(),
{
    if states.len() == 0 {
        (0, 0, 0, 0)
    } else {
        let (t, g, y, r) = counts_spec(states.drop_last());
        let s = states.last();
        (
            t + 1,
            g + if s == State::Green {
                1nat
            } else {
                0nat
            },
            y + if s != State::Green && s != State::Red {
                1nat
            } else {
                0nat
            },
            r + if s == State::Red {
                1nat
            } else {
                0nat
            },
        )
    }
}

pub open spec fn counts_of(c: RuleCounts) -> (nat, nat, nat, nat) {
    (c.total as nat, c.green as nat, c.yellow as nat, c.red as nat)
}

proof fn lemma_counts_bounded(states: Seq<State>)
    ensures
        ({
            let (t, g, y, r) = counts_spec(states);
            t == states.len() && g + y + r == t
        }),
    decreases states.len(),
{
    if states.len() > 0 {
        lemma_counts_bounded(states.drop_last());
    }
}

/// The states of rule views.
pub open spec fn states_of(vs: Seq<RuleViewV>) -> Seq<State> {
    vs.map_values(|v: RuleViewV| v.state)
}

fn count_views(vs: &Vec<RuleView>) -> (c: RuleCounts)
    ensures
        counts_of(c) == counts_spec(states_of(rule_views_v(vs@))),
{
    let ghost states = states_of(rule_views_v(vs@));
    let mut c = RuleCounts::default();
    let mut i: usize = 0;
    while i < vs.len()
        invariant
            i <= vs.len(),
            states == states_of(rule_views_v(vs@)),
            counts_of(c) == counts_spec(states.take(i as int)),
            c.green + c.yellow + c.red == c.total,
            c.total == i,
        decreases vs.len() - i,
    {
        assert(states.take(i + 1).drop_last() =~= states.take(i as int));
        assert(states[i as int] == vs@[i as int].state);
        c.add(vs[i].state);
        i += 1;
    }
    assert(states.take(vs@.len() as int) =~= states);
    c
}

// ---------------------------------------------------------------------------------------
// Groups.
// ---------------------------------------------------------------------------------------

/// A contract group as the status shows it: its rule counts, and its state (behavior, once a
/// report is usable) or standing (structure) with how many of its rules could not be
/// evaluated.
#[derive(Clone, Debug)]
pub struct GroupView {
    pub name: String,
    pub path: String,
    pub layer: Layer,
    pub counts: RuleCounts,
    pub state: Option<State>,
    pub structure: Option<LayerStatus>,
    pub errors: usize,
}

/// The first behavior group called `name`, from index `i` on.
pub open spec fn first_behavior(groups: Seq<Group>, name: Seq<char>, i: int) -> Option<int>
    decreases groups.len() - i,
{
    if i < 0 || i >= groups.len() {
        None
    } else if groups[i].layer == Layer::Behavior && groups[i].name@ == name {
        Some(i)
    } else {
        first_behavior(groups, name, i + 1)
    }
}

/// The states of the rule views that count for group `k`: those whose group is first
/// declared, as a behavior group, at `k`.
pub open spec fn group_states(views: Seq<RuleViewV>, groups: Seq<Group>, k: int) -> Seq<State>
    decreases views.len(),
{
    if views.len() == 0 {
        Seq::empty()
    } else if first_behavior(groups, views.last().group, 0) == Some(k) {
        group_states(views.drop_last(), groups, k).push(views.last().state)
    } else {
        group_states(views.drop_last(), groups, k)
    }
}

/// How many of the structure results of group `name` there are, and how many are green,
/// red, or could not be evaluated.
pub open spec fn structure_tally(results: Seq<RuleResult>, name: Seq<char>) -> (nat, nat, nat, nat)
    decreases results.len(),
{
    if results.len() == 0 {
        (0, 0, 0, 0)
    } else {
        let (t, g, r, e) = structure_tally(results.drop_last(), name);
        let x = results.last();
        if x.group matches Some(n) && n@ == name {
            (
                t + 1,
                g + if x.status == RuleStatus::Green {
                    1nat
                } else {
                    0nat
                },
                r + if x.status == RuleStatus::Red {
                    1nat
                } else {
                    0nat
                },
                e + if x.status == RuleStatus::Error {
                    1nat
                } else {
                    0nat
                },
            )
        } else {
            (t, g, r, e)
        }
    }
}

proof fn lemma_tally_bounded(results: Seq<RuleResult>, name: Seq<char>)
    ensures
        ({
            let (t, g, r, e) = structure_tally(results, name);
            t <= results.len() && g <= t && r <= t && e <= t
        }),
    decreases results.len(),
{
    if results.len() > 0 {
        lemma_tally_bounded(results.drop_last(), name);
    }
}

/// A group view as values.
pub open spec fn group_view_ok(
    v: GroupView,
    g: Group,
    k: int,
    views: Seq<RuleViewV>,
    groups: Seq<Group>,
    usable_report: bool,
    s: StructureReport,
) -> bool {
    &&& v.name@ == g.name@
    &&& v.path@ == g.display@
    &&& v.layer == g.layer
    &&& match g.layer {
        Layer::Behavior => {
            let c = counts_spec(group_states(views, groups, k));
            &&& counts_of(v.counts) == c
            &&& v.state == (if usable_report {
                Some(
                    if c.3 > 0 {
                        State::Red
                    } else if c.2 > 0 {
                        State::Yellow
                    } else {
                        State::Green
                    },
                )
            } else {
                None
            })
            &&& v.structure is None
            &&& v.errors == 0
        },
        Layer::Structure => {
            let (t, gr, r, e) = structure_tally(s.rules@, g.name@);
            &&& counts_of(v.counts) == (t, gr, 0nat, r)
            &&& v.errors == e
            &&& v.state is None
            &&& v.structure == Some(
                if r > 0 {
                    LayerStatus::Red
                } else if e > 0 {
                    LayerStatus::Error
                } else {
                    LayerStatus::Green
                },
            )
        },
    }
}

proof fn lemma_group_states_take(views: Seq<RuleViewV>, groups: Seq<Group>, k: int, i: int)
    requires
        0 <= i < views.len(),
    ensures
        group_states(views.take(i + 1), groups, k) == if first_behavior(groups, views[i].group, 0) == Some(k) {
            group_states(views.take(i), groups, k).push(views[i].state)
        } else {
            group_states(views.take(i), groups, k)
        },
{
    assert(views.take(i + 1).drop_last() =~= views.take(i));
}

proof fn lemma_group_states_len(views: Seq<RuleViewV>, groups: Seq<Group>, k: int)
    ensures
        group_states(views, groups, k).len() <= views.len(),
    decreases views.len(),
{
    if views.len() > 0 {
        lemma_group_states_len(views.drop_last(), groups, k);
    }
}

fn first_behavior_index(groups: &Vec<Group>, name: &str) -> (r: Option<usize>)
    ensures
        r matches Some(k) ==> k < groups@.len() && first_behavior(groups@, name@, 0) == Some(k as int),
        r is None ==> first_behavior(groups@, name@, 0) is None,
{
    let mut i: usize = 0;
    while i < groups.len()
        invariant
            i <= groups.len(),
            first_behavior(groups@, name@, 0) == first_behavior(groups@, name@, i as int),
        decreases groups.len() - i,
    {
        let behavior = match groups[i].layer {
            Layer::Behavior => true,
            Layer::Structure => false,
        };
        if behavior && str_eq(groups[i].name.as_str(), name) {
            return Some(i);
        }
        i += 1;
    }
    None
}

fn behavior_counts(views: &Vec<RuleView>, groups: &Vec<Group>) -> (cs: Vec<RuleCounts>)
    requires
        views@.len() < usize::MAX,
    ensures
        cs@.len() == groups@.len(),
        forall|k: int| 0 <= k < groups@.len() ==> counts_of(#[trigger] cs@[k]) == counts_spec(
            group_states(rule_views_v(views@), groups@, k),
        ),
{
    let ghost vv = rule_views_v(views@);
    let mut cs: Vec<RuleCounts> = Vec::new();
    let mut k: usize = 0;
    while k < groups.len()
        invariant
            k <= groups.len(),
            cs@.len() == k,
            forall|j: int| 0 <= j < k ==> counts_of(#[trigger] cs@[j]) == (0nat, 0nat, 0nat, 0nat),
            forall|j: int| 0 <= j < k ==> (#[trigger] cs@[j]).green + cs@[j].yellow + cs@[j].red == cs@[j].total,
        decreases groups.len() - k,
    {
        cs.push(RuleCounts::default());
        k += 1;
    }
    let mut i: usize = 0;
    assert forall|j: int| 0 <= j < groups@.len() implies counts_of(#[trigger] cs@[j]) == counts_spec(
        group_states(vv.take(0), groups@, j),
    ) by {
        assert(vv.take(0) =~= Seq::<RuleViewV>::empty());
    }
    while i < views.len()
        invariant
            i <= views.len() < usize::MAX,
            vv == rule_views_v(views@),
            cs@.len() == groups@.len(),
            forall|j: int| 0 <= j < groups@.len() ==> counts_of(#[trigger] cs@[j]) == counts_spec(
                group_states(vv.take(i as int), groups@, j),
            ),
            forall|j: int| 0 <= j < groups@.len() ==> (#[trigger] cs@[j]).green + cs@[j].yellow + cs@[j].red == cs@[j].total,
            forall|j: int| 0 <= j < groups@.len() ==> (#[trigger] cs@[j]).total <= i,
        decreases views.len() - i,
    {
        proof {
            assert forall|j: int| 0 <= j < groups@.len() implies group_states(vv.take(i + 1), groups@, j) == if first_behavior(
                groups@,
                vv[i as int].group,
                0,
            ) == Some(j) {
                group_states(vv.take(i as int), groups@, j).push(vv[i as int].state)
            } else {
                group_states(vv.take(i as int), groups@, j)
            } by {
                lemma_group_states_take(vv, groups@, j, i as int);
            }
        }
        assert(vv[i as int].group == views@[i as int].group@);
        let name = views[i].group.as_str();
        assert(name@ == vv[i as int].group);
        match first_behavior_index(groups, name) {
            Some(k) => {
                let ghost prev = group_states(vv.take(i as int), groups@, k as int);
                let ghost st = vv[i as int].state;
                proof {
                    assert(prev.push(st).drop_last() =~= prev);
                    assert(st == views@[i as int].state);
                    assert(first_behavior(groups@, vv[i as int].group, 0) == Some(k as int));
                    lemma_group_states_take(vv, groups@, k as int, i as int);
                    assert(group_states(vv.take(i + 1), groups@, k as int) == prev.push(st));
                    assert(counts_of(cs@[k as int]) == counts_spec(prev));
                }
                let mut c = cs[k];
                c.add(views[i].state);
                proof {
                    let (t0, g0, y0, r0) = counts_spec(prev);
                    assert(counts_spec(prev.push(st)) == (
                        t0 + 1,
                        g0 + if st == State::Green { 1nat } else { 0nat },
                        y0 + if st != State::Green && st != State::Red { 1nat } else { 0nat },
                        r0 + if st == State::Red { 1nat } else { 0nat },
                    ));
                    assert(counts_of(c) == counts_spec(prev.push(st)));
                }
                cs.set(k, c);
                assert(counts_of(cs@[k as int]) == counts_spec(group_states(vv.take(i + 1), groups@, k as int)));
                assert(forall|j: int| 0 <= j < groups@.len() && j != k ==> counts_of(#[trigger] cs@[j]) == counts_spec(
                    group_states(vv.take(i + 1), groups@, j)));
            },
            None => {
                assert(forall|j: int| 0 <= j < groups@.len() ==> counts_of(#[trigger] cs@[j]) == counts_spec(
                    group_states(vv.take(i + 1), groups@, j)));
            },
        }
        i += 1;
    }
    assert(vv.take(views@.len() as int) =~= vv);
    cs
}

fn structure_counts(results: &Vec<RuleResult>, name: &str) -> (r: (usize, usize, usize, usize))
    ensures
        (r.0 as nat, r.1 as nat, r.2 as nat, r.3 as nat) == structure_tally(results@, name@),
{
    let mut t: usize = 0;
    let mut g: usize = 0;
    let mut red: usize = 0;
    let mut e: usize = 0;
    let mut i: usize = 0;
    while i < results.len()
        invariant
            i <= results.len(),
            (t as nat, g as nat, red as nat, e as nat) == structure_tally(results@.take(i as int), name@),
            t <= i,
            g <= t && red <= t && e <= t,
        decreases results.len() - i,
    {
        proof {
            assert(results@.take(i + 1).drop_last() =~= results@.take(i as int));
            lemma_tally_bounded(results@.take(i as int), name@);
        }
        let x = &results[i];
        let ours = match &x.group {
            Some(n) => str_eq(n.as_str(), name),
            None => false,
        };
        if ours {
            t += 1;
            match x.status {
                RuleStatus::Green => {
                    g += 1;
                },
                RuleStatus::Red => {
                    red += 1;
                },
                RuleStatus::Error => {
                    e += 1;
                },
            }
        }
        i += 1;
    }
    assert(results@.take(results@.len() as int) =~= results@);
    (t, g, red, e)
}

fn group_views(
    views: &Vec<RuleView>,
    groups: &Vec<Group>,
    usable_report: bool,
    s: &StructureReport,
) -> (gs: Vec<GroupView>)
    requires
        views@.len() < usize::MAX,
    ensures
        gs@.len() == groups@.len(),
        forall|k: int| 0 <= k < groups@.len() ==> group_view_ok(
            #[trigger] gs@[k],
            groups@[k],
            k,
            rule_views_v(views@),
            groups@,
            usable_report,
            *s,
        ),
{
    let counts = behavior_counts(views, groups);
    let mut gs: Vec<GroupView> = Vec::new();
    let mut k: usize = 0;
    while k < groups.len()
        invariant
            k <= groups.len(),
            counts@.len() == groups@.len(),
            forall|j: int| 0 <= j < groups@.len() ==> counts_of(#[trigger] counts@[j]) == counts_spec(
                group_states(rule_views_v(views@), groups@, j),
            ),
            gs@.len() == k,
            forall|j: int| 0 <= j < k ==> group_view_ok(
                #[trigger] gs@[j],
                groups@[j],
                j,
                rule_views_v(views@),
                groups@,
                usable_report,
                *s,
            ),
        decreases groups.len() - k,
    {
        let g = &groups[k];
        let view = match g.layer {
            Layer::Behavior => {
                let c = counts[k];
                GroupView {
                    name: g.name.clone(),
                    path: g.display.clone(),
                    layer: g.layer,
                    counts: c,
                    state: if usable_report {
                        Some(c.state())
                    } else {
                        None
                    },
                    structure: None,
                    errors: 0,
                }
            },
            Layer::Structure => {
                let (t, green, red, errors) = structure_counts(&s.rules, g.name.as_str());
                let standing = if red > 0 {
                    LayerStatus::Red
                } else if errors > 0 {
                    LayerStatus::Error
                } else {
                    LayerStatus::Green
                };
                GroupView {
                    name: g.name.clone(),
                    path: g.display.clone(),
                    layer: g.layer,
                    counts: RuleCounts { total: t, green, yellow: 0, red },
                    state: None,
                    structure: Some(standing),
                    errors,
                }
            },
        };
        gs.push(view);
        k += 1;
    }
    gs
}

// ---------------------------------------------------------------------------------------
// Actions and the project state.
// ---------------------------------------------------------------------------------------

/// How many obligations of `os` are actions that the run verified.
pub open spec fn actions_verified(os: Seq<RecordedObligation>) -> nat
    decreases os.len(),
{
    if os.len() == 0 {
        0
    } else {
        actions_verified(os.drop_last()) + if starts_with(os.last().id@, "action/"@) && os.last().status
            == CoverageStatus::Verified {
            1nat
        } else {
            0nat
        }
    }
}

/// How many actions the usable report shows verified.
pub open spec fn actions_exercised_spec(report: Option<RecordedReport>) -> nat {
    match report {
        Some(r) => actions_verified(r.coverage@),
        None => 0,
    }
}

fn actions_exercised(report: Option<&RecordedReport>) -> (n: usize)
    ensures
        n == actions_exercised_spec(
            match report {
                Some(r) => Some(*r),
                None => None,
            },
        ),
{
    match report {
        None => 0,
        Some(r) => {
            let mut n: usize = 0;
            let mut i: usize = 0;
            while i < r.coverage.len()
                invariant
                    i <= r.coverage.len(),
                    n <= i,
                    n == actions_verified(r.coverage@.take(i as int)),
                decreases r.coverage.len() - i,
            {
                assert(r.coverage@.take(i + 1).drop_last() =~= r.coverage@.take(i as int));
                let o = &r.coverage[i];
                let verified = o.status == CoverageStatus::Verified;
                if verified && strip_prefix_text(o.id.as_str(), "action/").is_some() {
                    n += 1;
                }
                i += 1;
            }
            assert(r.coverage@.take(r.coverage@.len() as int) =~= r.coverage@);
            n
        },
    }
}

/// The state of the project: no active behavior contract, a run under way or interrupted,
/// a stale or missing record, or what the usable report says; a green run is green only when
/// there are rules and every one of them is green.
pub open spec fn project_state(p: ProjectSummary, e: Evaluation, views: Seq<RuleViewV>) -> State {
    if !has_behavior_spec(p) {
        State::NoActiveContracts
    } else if run_state_of_spec(e) is Some {
        run_state_of_spec(e)->0
    } else if e.stale {
        State::Stale
    } else {
        match usable(e) {
            None => State::Unverified,
            Some(r) => match r.status {
                RunStatus::Green => {
                    let (t, g, y, red) = counts_spec(states_of(views));
                    if t > 0 && g == t {
                        State::Green
                    } else {
                        State::Yellow
                    }
                },
                RunStatus::Yellow => State::Yellow,
                RunStatus::Red => State::Red,
            },
        }
    }
}

// ---------------------------------------------------------------------------------------
// What to work on next.
// ---------------------------------------------------------------------------------------

/// The structure results that are not green, as rule views: red stays red, an evaluation
/// error shows as yellow.
pub open spec fn structure_next(results: Seq<RuleResult>) -> Seq<RuleViewV>
    decreases results.len(),
{
    if results.len() == 0 {
        Seq::empty()
    } else {
        let rest = structure_next(results.drop_last());
        let x = results.last();
        if x.status == RuleStatus::Green {
            rest
        } else {
            rest.push(
                RuleViewV {
                    id: x.id@,
                    group: match x.group {
                        Some(g) => g@,
                        None => Seq::empty(),
                    },
                    label: x.label@,
                    file: x.file@,
                    line: x.line,
                    state: if x.status == RuleStatus::Red {
                        State::Red
                    } else {
                        State::Yellow
                    },
                    unexercised: 0,
                },
            )
        }
    }
}

/// The views of `views` in state `s`, in order.
pub open spec fn of_state(views: Seq<RuleViewV>, s: State) -> Seq<RuleViewV>
    decreases views.len(),
{
    if views.len() == 0 {
        Seq::empty()
    } else if views.last().state == s {
        of_state(views.drop_last(), s).push(views.last())
    } else {
        of_state(views.drop_last(), s)
    }
}

/// `x` placed into `sorted` after every view with at least as many unexercised obligations.
pub open spec fn insert_by_unexercised(sorted: Seq<RuleViewV>, x: RuleViewV) -> Seq<RuleViewV>
    decreases sorted.len(),
{
    if sorted.len() == 0 || sorted.last().unexercised >= x.unexercised {
        sorted.push(x)
    } else {
        insert_by_unexercised(sorted.drop_last(), x).push(sorted.last())
    }
}

/// `views` ordered by unexercised obligations, most first; views with as many keep their order.
pub open spec fn by_unexercised(views: Seq<RuleViewV>) -> Seq<RuleViewV>
    decreases views.len(),
{
    if views.len() == 0 {
        Seq::empty()
    } else {
        insert_by_unexercised(by_unexercised(views.drop_last()), views.last())
    }
}

/// What to work on next, at most `NEXT_LIMIT` of it: the structure rules that are not green,
/// then, under a usable report, the red rules and the yellow rules with the most unexercised
/// obligations first.
pub open spec fn next_spec(s: StructureReport, usable_report: bool, views: Seq<RuleViewV>) -> Seq<RuleViewV> {
    let all = structure_next(s.rules@) + if usable_report {
        of_state(views, State::Red) + by_unexercised(of_state(views, State::Yellow))
    } else {
        Seq::empty()
    };
    if all.len() <= NEXT_LIMIT {
        all
    } else {
        all.take(NEXT_LIMIT as int)
    }
}

fn copy_view(v: &RuleView) -> (c: RuleView)
    ensures
        rule_view_v(c) == rule_view_v(*v),
{
    RuleView {
        id: v.id.clone(),
        group: v.group.clone(),
        label: v.label.clone(),
        file: v.file.clone(),
        line: v.line,
        state: v.state,
        unexercised: v.unexercised,
    }
}

proof fn lemma_views_push(vs: Seq<RuleView>, x: RuleView)
    ensures
        rule_views_v(vs.push(x)) == rule_views_v(vs).push(rule_view_v(x)),
{
    assert(rule_views_v(vs.push(x)) =~= rule_views_v(vs).push(rule_view_v(x)));
}

fn push_structure_next(out: &mut Vec<RuleView>, results: &Vec<RuleResult>)
    ensures
        rule_views_v(final(out)@) == rule_views_v(old(out)@) + structure_next(results@),
{
    let ghost start = rule_views_v(out@);
    let mut i: usize = 0;
    assert(start + structure_next(results@.take(0)) =~= start);
    while i < results.len()
        invariant
            i <= results.len(),
            rule_views_v(out@) == start + structure_next(results@.take(i as int)),
        decreases results.len() - i,
    {
        assert(results@.take(i + 1).drop_last() =~= results@.take(i as int));
        let x = &results[i];
        if x.status != RuleStatus::Green {
            let group = match &x.group {
                Some(g) => g.clone(),
                None => String::new(),
            };
            let v = RuleView {
                id: x.id.clone(),
                group,
                label: x.label.clone(),
                file: x.file.clone(),
                line: x.line,
                state: if x.status == RuleStatus::Red {
                    State::Red
                } else {
                    State::Yellow
                },
                unexercised: 0,
            };
            proof {
                lemma_views_push(out@, v);
                assert(x.group is None ==> v.group@ =~= Seq::<char>::empty());
            }
            out.push(v);
            assert(rule_views_v(out@) =~= start + structure_next(results@.take(i + 1)));
        }
        i += 1;
    }
    assert(results@.take(results@.len() as int) =~= results@);
}

fn views_in_state(views: &Vec<RuleView>, s: State) -> (out: Vec<RuleView>)
    ensures
        rule_views_v(out@) == of_state(rule_views_v(views@), s),
{
    let ghost vv = rule_views_v(views@);
    let mut out: Vec<RuleView> = Vec::new();
    let mut i: usize = 0;
    assert(rule_views_v(out@) =~= of_state(vv.take(0), s));
    while i < views.len()
        invariant
            i <= views.len(),
            vv == rule_views_v(views@),
            rule_views_v(out@) == of_state(vv.take(i as int), s),
        decreases views.len() - i,
    {
        assert(vv.take(i + 1).drop_last() =~= vv.take(i as int));
        assert(vv.take(i + 1).last() == rule_view_v(views@[i as int]));
        if views[i].state == s {
            let c = copy_view(&views[i]);
            proof {
                lemma_views_push(out@, c);
            }
            out.push(c);
        }
        i += 1;
    }
    assert(vv.take(views@.len() as int) =~= vv);
    out
}

fn insert_view(sorted: &mut Vec<RuleView>, x: RuleView)
    ensures
        rule_views_v(final(sorted)@) == insert_by_unexercised(rule_views_v(old(sorted)@), rule_view_v(x)),
{
    let ghost xv = rule_view_v(x);
    let ghost whole = insert_by_unexercised(rule_views_v(sorted@), xv);
    let mut held: Vec<RuleView> = Vec::new();
    assert(whole =~= insert_by_unexercised(rule_views_v(sorted@), xv) + rule_views_v(held@).reverse());
    while sorted.len() > 0 && sorted[sorted.len() - 1].unexercised < x.unexercised
        invariant
            xv == rule_view_v(x),
            whole == insert_by_unexercised(rule_views_v(sorted@), xv) + rule_views_v(held@).reverse(),
        decreases sorted.len(),
    {
        let ghost before = rule_views_v(sorted@);
        let ghost hv = rule_views_v(held@);
        let last = sorted.pop().unwrap();
        proof {
            assert(before.drop_last() =~= rule_views_v(sorted@));
            assert(before.last() == rule_view_v(last));
            lemma_views_push(held@, last);
            assert(hv.push(rule_view_v(last)).reverse() =~= seq![rule_view_v(last)] + hv.reverse());
        }
        held.push(last);
        assert(whole =~= insert_by_unexercised(rule_views_v(sorted@), xv) + rule_views_v(held@).reverse());
    }
    proof {
        lemma_views_push(sorted@, x);
    }
    sorted.push(x);
    assert(whole =~= rule_views_v(sorted@) + rule_views_v(held@).reverse());
    while held.len() > 0
        invariant
            whole == rule_views_v(sorted@) + rule_views_v(held@).reverse(),
        decreases held.len(),
    {
        let ghost hv = rule_views_v(held@);
        let last = held.pop().unwrap();
        proof {
            assert(hv.drop_last() =~= rule_views_v(held@));
            assert(hv.last() == rule_view_v(last));
            assert(hv.reverse() =~= seq![rule_view_v(last)] + rule_views_v(held@).reverse());
            lemma_views_push(sorted@, last);
        }
        sorted.push(last);
        assert(whole =~= rule_views_v(sorted@) + rule_views_v(held@).reverse());
    }
    assert(rule_views_v(held@).reverse() =~= Seq::<RuleViewV>::empty());
    assert(whole =~= rule_views_v(sorted@));
}

fn sort_by_unexercised(views: Vec<RuleView>) -> (out: Vec<RuleView>)
    ensures
        rule_views_v(out@) == by_unexercised(rule_views_v(views@)),
{
    let ghost vv = rule_views_v(views@);
    let mut rest = views;
    let mut out: Vec<RuleView> = Vec::new();
    let mut i: usize = 0;
    let n = rest.len();
    assert(rule_views_v(out@) =~= by_unexercised(vv.take(0)));
    while i < n
        invariant
            i <= n,
            n == rest@.len(),
            rule_views_v(rest@) == vv,
            rule_views_v(out@) == by_unexercised(vv.take(i as int)),
        decreases n - i,
    {
        assert(vv.take(i + 1).drop_last() =~= vv.take(i as int));
        assert(vv.take(i + 1).last() == rule_view_v(rest@[i as int]));
        let c = copy_view(&rest[i]);
        insert_view(&mut out, c);
        i += 1;
    }
    assert(vv.take(n as int) =~= vv);
    out
}

// ---------------------------------------------------------------------------------------
// Drafts and runtime primitives.
// ---------------------------------------------------------------------------------------

/// What the status says of a draft's check: `ok`, or the refusal with its code and place.
pub open spec fn draft_check(d: Draft) -> Seq<char> {
    match d.check {
        Ok(_) => "ok"@,
        Err(x) => x.code@ + " at "@ + x.location.file@ + ":"@ + decimal(x.location.line as nat) + ":"@ + decimal(
            x.location.column as nat,
        ) + ": "@ + x.message@,
    }
}

/// A draft as the status shows it.
pub open spec fn draft_view_ok(v: DraftView, d: Draft) -> bool {
    &&& v.name@ == d.name@
    &&& v.path@ == d.display@
    &&& v.layer == d.layer
    &&& v.check@ == draft_check(d)
}

fn draft_view(d: &Draft) -> (v: DraftView)
    ensures
        draft_view_ok(v, *d),
{
    let check = match &d.check {
        Ok(_) => "ok".to_owned(),
        Err(x) => {
            let mut m = joined(x.code.as_str(), " at ");
            append(&mut m, x.location.file.as_str());
            append(&mut m, ":");
            append(&mut m, decimal_text(x.location.line as u64).as_str());
            append(&mut m, ":");
            append(&mut m, decimal_text(x.location.column as u64).as_str());
            append(&mut m, ": ");
            append(&mut m, x.message.as_str());
            m
        },
    };
    proof {
        reveal_strlit("ok");
    }
    DraftView { name: d.name.clone(), path: d.display.clone(), layer: d.layer, check }
}

fn draft_views(drafts: &Vec<Draft>) -> (vs: Vec<DraftView>)
    ensures
        vs@.len() == drafts@.len(),
        forall|i: int| 0 <= i < drafts@.len() ==> draft_view_ok(#[trigger] vs@[i], drafts@[i]),
{
    let mut vs: Vec<DraftView> = Vec::new();
    let mut i: usize = 0;
    while i < drafts.len()
        invariant
            i <= drafts.len(),
            vs@.len() == i,
            forall|j: int| 0 <= j < i ==> draft_view_ok(#[trigger] vs@[j], drafts@[j]),
        decreases drafts.len() - i,
    {
        vs.push(draft_view(&drafts[i]));
        i += 1;
    }
    vs
}

/// Whether `rule` relies on the runtime primitive `id`.
pub open spec fn relies_on(rule: Rule, id: Seq<char>) -> bool {
    rule.runtime matches Some(x) && x@ == id
}

/// Whether some rule relies on the runtime primitive `id`.
pub open spec fn uses_primitive(rules: Seq<Rule>, id: Seq<char>) -> bool {
    exists|i: int| 0 <= i < rules.len() && relies_on(#[trigger] rules[i], id)
}

/// The runtime primitives the rules rely on: each once, in ascending order.
pub open spec fn primitives_ok(ids: Seq<Seq<char>>, rules: Seq<Rule>) -> bool {
    &&& forall|i: int, j: int| 0 <= i < j < ids.len() ==> key_less(#[trigger] ids[i], #[trigger] ids[j])
    &&& forall|i: int| 0 <= i < ids.len() ==> uses_primitive(rules, #[trigger] ids[i])
    &&& forall|id: Seq<char>| uses_primitive(rules, id) ==> ids.contains(id)
}

/// The runtime primitives the rules rely on, each once, in ascending order.
pub fn runtime_primitives(rules: &Vec<Rule>) -> (ids: Vec<String>)
    ensures
        primitives_ok(strings_view(ids@), rules@),
{
    let mut t = Tree::new();
    let mut i: usize = 0;
    while i < rules.len()
        invariant
            i <= rules.len(),
            forall|k: Seq<char>| (lookup(t@, k) is Some) <==> uses_primitive(rules@.take(i as int), k),
        decreases rules.len() - i,
    {
        let ghost before = t@;
        match rules[i].runtime {
            Some(id) => {
                t.insert(id.to_owned(), String::new());
            },
            None => {},
        }
        proof {
            let r = rules@.take(i + 1);
            assert forall|k: Seq<char>| (lookup(t@, k) is Some) <==> uses_primitive(r, k) by {
                if uses_primitive(r, k) {
                    let j = choose|j: int| 0 <= j < r.len() && relies_on(#[trigger] r[j], k);
                    if j < i {
                        assert(rules@.take(i as int)[j] == r[j]);
                    }
                }
                if uses_primitive(rules@.take(i as int), k) {
                    let j = choose|j: int| 0 <= j < i && relies_on(#[trigger] rules@.take(i as int)[j], k);
                    assert(r[j] == rules@.take(i as int)[j]);
                }
                if relies_on(rules@[i as int], k) {
                    assert(r[i as int] == rules@[i as int]);
                }
            }
        }
        i += 1;
    }
    assert(rules@.take(rules@.len() as int) =~= rules@);
    let n = t.len();
    let mut ids: Vec<String> = Vec::new();
    let mut j: usize = 0;
    while j < n
        invariant
            j <= n,
            n == t@.len(),
            t.sorted(),
            forall|k: Seq<char>| (lookup(t@, k) is Some) <==> uses_primitive(rules@, k),
            ids@.len() == j,
            forall|m: int| 0 <= m < j ==> (#[trigger] ids@[m])@ == t@[m].0,
        decreases n - j,
    {
        let (key, _) = t.entry(j);
        ids.push(key.to_owned());
        j += 1;
    }
    proof {
        let v = strings_view(ids@);
        assert(v.len() == t@.len());
        assert forall|m: int| 0 <= m < v.len() implies #[trigger] v[m] == t@[m].0 by {}
        assert forall|m: int| 0 <= m < v.len() implies uses_primitive(rules@, #[trigger] v[m]) by {
            lemma_lookup_at(t@, m);
        }
        assert forall|id: Seq<char>| uses_primitive(rules@, id) implies v.contains(id) by {
            lemma_lookup(t@, id);
            let m = choose|m: int| 0 <= m < t@.len() && t@[m] == (id, lookup(t@, id)->0);
            assert(v[m] == id);
        }
    }
    ids
}

// ---------------------------------------------------------------------------------------
// The status.
// ---------------------------------------------------------------------------------------

/// The exit code of the status: 0 only when completion is allowed; 1 for a red project or a
/// red structure layer; 3 when the structure could not be evaluated; 5 otherwise.
pub open spec fn exit_spec(allowed: bool, state: State, s: LayerStatus) -> i32 {
    if allowed {
        0
    } else if state == State::Red || s == LayerStatus::Red {
        1
    } else if s == LayerStatus::Error {
        3
    } else {
        5
    }
}

/// The status of a project: its state and exit code, completion and overall verdict, rule
/// and action counts, groups, drafts, what to do next, the runtime primitives its rules rely
/// on, and the record and structure results it was drawn from.
pub struct StatusView {
    pub project: String,
    pub manifest: String,
    pub state: State,
    pub exit: i32,
    pub completion: CompletionView,
    pub profile: Option<Profile>,
    pub rules: RuleCounts,
    pub actions: ActionCounts,
    pub groups: Vec<GroupView>,
    pub drafts: Vec<DraftView>,
    pub next: Vec<RuleView>,
    pub runtime_primitives: Vec<String>,
    pub recorded: Option<RecordedView>,
    pub record_error: Option<String>,
    pub run_state: Option<RunStateView>,
    pub structure: StructureReport,
    pub overall: OverallView,
}

proof fn lemma_views_concat(a: Seq<RuleView>, b: Seq<RuleView>)
    ensures
        rule_views_v(a + b) == rule_views_v(a) + rule_views_v(b),
{
    assert(rule_views_v(a + b) =~= rule_views_v(a) + rule_views_v(b));
}

/// The status of `project`, read against the evaluation of its record and the results of
/// its structure layer, which the status carries on.
pub fn status_view(project: ProjectSummary, evaluation: Evaluation, structure: StructureReport) -> (v: StatusView)
    requires
        project.rules@.len() < usize::MAX,
    ensures
        ({
            let report = usable(evaluation);
            let views = rule_views_spec(project.rules@, report, fallback(evaluation));
            &&& v.project@ == project.name@
            &&& v.manifest@ == project.manifest@
            &&& v.state == project_state(project, evaluation, views)
            &&& counts_of(v.rules) == counts_spec(states_of(views))
            &&& v.actions.total == project.actions
            &&& v.actions.exercised == actions_exercised_spec(report)
            &&& v.groups@.len() == project.groups@.len()
            &&& forall|k: int|
                0 <= k < project.groups@.len() ==> group_view_ok(
                    #[trigger] v.groups@[k],
                    project.groups@[k],
                    k,
                    views,
                    project.groups@,
                    report is Some,
                    structure,
                )
            &&& v.drafts@.len() == project.drafts@.len()
            &&& forall|i: int| 0 <= i < project.drafts@.len() ==> draft_view_ok(#[trigger] v.drafts@[i], project.drafts@[i])
            &&& rule_views_v(v.next@) == next_spec(structure, report is Some, views)
            &&& primitives_ok(strings_view(v.runtime_primitives@), project.rules@)
            &&& (v.completion.state, v.completion.reason@) == completion_spec(project, evaluation, v.state, structure)
            &&& v.completion.allowed == (v.completion.state == CompletionState::Green)
            &&& v.completion.command is Some == completion_command(project)
            &&& v.exit == exit_spec(v.completion.allowed, v.state, structure.status)
            &&& v.overall.status == (if v.completion.allowed {
                OverallStatus::Green
            } else {
                OverallStatus::Blocked
            })
            &&& v.overall.reason@ == v.completion.reason@
            &&& v.overall.exit == v.exit
            &&& (v.overall.exit == 0) <==> (v.overall.status == OverallStatus::Green)
            &&& v.profile == project.profile
            &&& v.recorded == evaluation.recorded
            &&& v.record_error == evaluation.record_error
            &&& v.run_state == evaluation.run_state
            &&& v.structure == structure
        }),
{
    let run_state = run_state_of(&evaluation);
    let report: Option<&RecordedReport> = if evaluation.stale || run_state.is_some() {
        None
    } else {
        match &evaluation.report {
            Some(r) => Some(r),
            None => None,
        }
    };
    let ghost rep = usable(evaluation);
    assert(rep == match report {
        Some(r) => Some(*r),
        None => None::<RecordedReport>,
    });
    let fb = match run_state {
        Some(s) => s,
        None => if evaluation.stale {
            State::Stale
        } else {
            State::Unverified
        },
    };
    assert(fb == fallback(evaluation));
    let views = rule_views(&project.rules, report, fb);
    let ghost vv = rule_views_v(views@);
    assert(views@.len() == project.rules@.len()) by {
        assert(vv.len() == views@.len());
    }
    let rules = count_views(&views);
    let usable_report = report.is_some();
    let groups = group_views(&views, &project.groups, usable_report, &structure);
    let exercised = actions_exercised(report);
    let state = if !project.has_behavior() {
        State::NoActiveContracts
    } else if run_state.is_some() {
        run_state.unwrap()
    } else if evaluation.stale {
        State::Stale
    } else {
        match report {
            None => State::Unverified,
            Some(r) => match r.status {
                RunStatus::Green => if rules.total > 0 && rules.green == rules.total {
                    State::Green
                } else {
                    State::Yellow
                },
                RunStatus::Yellow => State::Yellow,
                RunStatus::Red => State::Red,
            },
        }
    };
    let mut next: Vec<RuleView> = Vec::new();
    push_structure_next(&mut next, &structure.rules);
    assert(rule_views_v(Seq::<RuleView>::empty()) =~= Seq::<RuleViewV>::empty());
    if usable_report {
        let mut reds = views_in_state(&views, State::Red);
        let mut yellows = sort_by_unexercised(views_in_state(&views, State::Yellow));
        let ghost a = next@;
        let ghost b = reds@;
        next.append(&mut reds);
        proof {
            lemma_views_concat(a, b);
        }
        let ghost a2 = next@;
        let ghost c = yellows@;
        next.append(&mut yellows);
        proof {
            lemma_views_concat(a2, c);
        }
    }
    let ghost all = rule_views_v(next@);
    next.truncate(NEXT_LIMIT);
    assert(rule_views_v(next@) == if all.len() <= NEXT_LIMIT {
        all
    } else {
        all.take(NEXT_LIMIT as int)
    }) by {
        if all.len() > NEXT_LIMIT {
            assert(rule_views_v(next@) =~= all.take(NEXT_LIMIT as int));
        }
    }
    let drafts = draft_views(&project.drafts);
    let primitives = runtime_primitives(&project.rules);
    let completion = completion(&project, &evaluation, state, &structure);
    let exit: i32 = if completion.allowed {
        0
    } else if state == State::Red || structure.status == LayerStatus::Red {
        1
    } else if structure.status == LayerStatus::Error {
        3
    } else {
        5
    };
    let overall = OverallView {
        status: if completion.allowed {
            OverallStatus::Green
        } else {
            OverallStatus::Blocked
        },
        reason: completion.reason.clone(),
        exit,
    };
    StatusView {
        project: project.name,
        manifest: project.manifest,
        state,
        exit,
        completion,
        profile: project.profile,
        rules,
        actions: ActionCounts { total: project.actions, exercised },
        groups,
        drafts,
        next,
        runtime_primitives: primitives,
        recorded: evaluation.recorded,
        record_error: evaluation.record_error,
        run_state: evaluation.run_state,
        structure,
        overall,
    }
}

/// Only an overall GREEN status exits 0, and it comes only when the structure layer is
/// neither red nor in error and, where a behavior contract is active, the project state is
/// GREEN; a GREEN project state needs a usable report whose rules are all green, and at least one.
pub proof fn law_exit_zero_only_when_complete(p: ProjectSummary, e: Evaluation, s: StructureReport, views: Seq<RuleViewV>)
    ensures
        ({
            let state = project_state(p, e, views);
            let c = completion_spec(p, e, state, s).0;
            &&& (exit_spec(c == CompletionState::Green, state, s.status) == 0) <==> c == CompletionState::Green
            &&& c == CompletionState::Green ==> s.status != LayerStatus::Red && s.status != LayerStatus::Error
            &&& c == CompletionState::Green && has_behavior_spec(p) ==> state == State::Green
            &&& state == State::Green ==> usable(e) is Some && counts_spec(states_of(views)).0 > 0
                && counts_spec(states_of(views)).1 == counts_spec(states_of(views)).0
        }),
{
}

proof fn lemma_no_green(states: Seq<State>)
    requires
        forall|i: int| 0 <= i < states.len() ==> states[i] != State::Green,
    ensures
        counts_spec(states).1 == 0,
    decreases states.len(),
{
    if states.len() > 0 {
        lemma_no_green(states.drop_last());
    }
}

/// Without a usable report (none recorded, a stale one, or a run under way or interrupted)
/// no rule is green: each takes the run's state, STALE or UNVERIFIED; and only structure
/// rules are offered as next.
pub proof fn law_without_a_usable_report_no_rule_is_green(p: ProjectSummary, e: Evaluation, s: StructureReport)
    requires
        usable(e) is None,
    ensures
        ({
            let views = rule_views_spec(p.rules@, None, fallback(e));
            &&& forall|i: int| 0 <= i < views.len() ==> #[trigger] views[i].state == fallback(e)
            &&& fallback(e) != State::Green
            &&& counts_spec(states_of(views)).1 == 0
            &&& next_spec(s, false, views) == (if structure_next(s.rules@).len() <= NEXT_LIMIT {
                structure_next(s.rules@)
            } else {
                structure_next(s.rules@).take(NEXT_LIMIT as int)
            })
        }),
{
    let views = rule_views_spec(p.rules@, None, fallback(e));
    let states = states_of(views);
    assert forall|i: int| 0 <= i < states.len() implies states[i] != State::Green by {
        assert(states[i] == views[i].state);
    }
    lemma_no_green(states);
    assert(structure_next(s.rules@) + Seq::<RuleViewV>::empty() =~= structure_next(s.rules@));
}

} // verus!
