use super::knowledge::double_colon;
use super::mission::{MissionMemory, PriorityV};
use super::syntax::{Block, BlockView, block_views, texts};
use super::{
    Memory, Refusal, expect_fields, expect_keywords, field_refusal, list, list_of, prefix_all,
    prefixed, problems_of, says, state_word, stray_keyword, text, text_of, words,
};
use crate::diagnostic::Diagnostic;
use crate::text::{append, debug_quoted, is_whitespace, joined, quoted, starts_with, str_eq};
use vstd::prelude::*;

verus! {

/// Where goal memory lives by convention.
pub const FILE_NAME: &'static str = "goals.bla";

/// A goal: what it serves, what it states, the rules and contracts it waits on, and whether
/// it is `active`, `done` or `dropped`.
#[derive(Clone, Debug)]
pub struct Goal {
    pub name: String,
    pub serves: Vec<String>,
    pub statement: String,
    pub expect: Vec<String>,
    pub state: String,
}

impl Goal {
    /// The goal's canonical identity: `goal::name`.
    pub fn id(&self) -> (s: String)
        ensures
            s@ == "goal::"@ + self.name@,
    {
        joined("goal::", self.name.as_str())
    }
}

/// The goal memory of a project.
#[derive(Clone, Debug)]
pub struct GoalMemory {
    pub goals: Vec<Goal>,
}

impl Default for GoalMemory {
    fn default() -> (m: Self)
        ensures
            m.goals@.len() == 0,
    {
        GoalMemory { goals: Vec::new() }
    }
}

/// What became of one expectation of a goal.
#[derive(Clone, Copy, Debug, PartialEq, Eq)]
pub enum Verdict {
    Held,
    NotHeld,
    Unverified,
    Unresolved,
}

impl Verdict {
    /// The verdict as a word.
    pub fn word(self) -> (w: &'static str)
        ensures
            w@ == match self {
                Verdict::Held => "held"@,
                Verdict::NotHeld => "not-held"@,
                Verdict::Unverified => "unverified"@,
                Verdict::Unresolved => "unresolved"@,
            },
    {
        match self {
            Verdict::Held => "held",
            Verdict::NotHeld => "not-held",
            Verdict::Unverified => "unverified",
            Verdict::Unresolved => "unresolved",
        }
    }
}

/// One expectation of a goal with its verdict.
#[derive(Clone, Debug)]
pub struct Expectation {
    pub identity: String,
    pub verdict: Verdict,
}

/// Where a goal stands: how many of its expectations hold, fail, are unverified or unresolved.
#[derive(Clone, Debug)]
pub struct Outcome {
    pub goal: String,
    pub state: String,
    pub expected: usize,
    pub held: usize,
    pub not_held: usize,
    pub unverified: usize,
    pub unresolved: usize,
    pub expectations: Vec<Expectation>,
}

impl Outcome {
    /// Whether every expectation holds.
    pub fn holds(&self) -> (b: bool)
        ensures
            b == (self.held == self.expected),
    {
        self.held == self.expected
    }

    /// Whether an active goal expects something and all of it holds.
    pub fn ready_to_close(&self) -> (b: bool)
        ensures
            b == (self.state@ == "active"@ && self.expected > 0 && self.held == self.expected),
    {
        str_eq(self.state.as_str(), "active") && self.expected > 0 && self.holds()
    }

    /// Whether a goal marked done has expectations that do not hold.
    pub fn unmet(&self) -> (b: bool)
        ensures
            b == (self.state@ == "done"@ && self.held != self.expected),
    {
        str_eq(self.state.as_str(), "done") && !self.holds()
    }
}

/// What `status` reports of goal memory.
#[derive(Clone, Debug)]
pub struct GoalStatus {
    pub file: String,
    pub state: &'static str,
    pub problems: Vec<String>,
    pub active: Vec<Outcome>,
    pub done: usize,
    pub dropped: usize,
}

/// What `explain` says of one goal.
#[derive(Clone, Debug)]
pub struct GoalExplainView {
    pub kind: &'static str,
    pub id: String,
    pub statement: String,
    pub state: String,
    pub serves: Vec<String>,
    pub outcome: Outcome,
    pub serving_tasks: Vec<(String, String)>,
}

pub struct GoalV {
    pub name: Seq<char>,
    pub serves: Seq<Seq<char>>,
    pub statement: Seq<char>,
    pub expect: Seq<Seq<char>>,
    pub state: Seq<char>,
}

pub struct ExpectationV {
    pub identity: Seq<char>,
    pub verdict: Verdict,
}

pub struct OutcomeV {
    pub goal: Seq<char>,
    pub state: Seq<char>,
    pub expected: usize,
    pub held: usize,
    pub not_held: usize,
    pub unverified: usize,
    pub unresolved: usize,
    pub expectations: Seq<ExpectationV>,
}

impl View for Goal {
    type V = GoalV;

    open spec fn view(&self) -> GoalV {
        GoalV {
            name: self.name@,
            serves: texts(self.serves@),
            statement: self.statement@,
            expect: texts(self.expect@),
            state: self.state@,
        }
    }
}

impl View for GoalMemory {
    type V = Seq<GoalV>;

    open spec fn view(&self) -> Seq<GoalV> {
        self.goals@.map_values(|g: Goal| g@)
    }
}

impl View for Expectation {
    type V = ExpectationV;

    open spec fn view(&self) -> ExpectationV {
        ExpectationV { identity: self.identity@, verdict: self.verdict }
    }
}

impl View for Outcome {
    type V = OutcomeV;

    open spec fn view(&self) -> OutcomeV {
        OutcomeV {
            goal: self.goal@,
            state: self.state@,
            expected: self.expected,
            held: self.held,
            not_held: self.not_held,
            unverified: self.unverified,
            unresolved: self.unresolved,
            expectations: self.expectations@.map_values(|e: Expectation| e@),
        }
    }
}

/// How many of `es` have the verdict `v`.
pub open spec fn count_verdict(es: Seq<ExpectationV>, v: Verdict) -> nat
    decreases es.len(),
{
    if es.len() == 0 {
        0
    } else {
        count_verdict(es.drop_last(), v) + if es.last().verdict == v {
            1nat
        } else {
            0nat
        }
    }
}

/// Every expectation has exactly one verdict.
proof fn lemma_counts_partition(es: Seq<ExpectationV>)
    ensures
        count_verdict(es, Verdict::Held) + count_verdict(es, Verdict::NotHeld) + count_verdict(es, Verdict::Unverified)
            + count_verdict(es, Verdict::Unresolved) == es.len(),
    decreases es.len(),
{
    if es.len() > 0 {
        lemma_counts_partition(es.drop_last());
    }
}

proof fn lemma_count_bound(es: Seq<ExpectationV>, v: Verdict)
    ensures
        count_verdict(es, v) <= es.len(),
    decreases es.len(),
{
    if es.len() > 0 {
        lemma_count_bound(es.drop_last(), v);
    }
}

/// How many of `es` have the verdict `v`.
fn count_of(es: &Vec<Expectation>, v: Verdict) -> (n: usize)
    ensures
        n == count_verdict(es@.map_values(|e: Expectation| e@), v),
{
    let ghost all = es@.map_values(|e: Expectation| e@);
    let mut n: usize = 0;
    let mut i: usize = 0;
    while i < es.len()
        invariant
            i <= es.len(),
            all == es@.map_values(|e: Expectation| e@),
            n == count_verdict(all.take(i as int), v),
        decreases es.len() - i,
    {
        assert(all.take(i + 1).drop_last() =~= all.take(i as int));
        assert(all.take(i + 1).last() == es@[i as int]@);
        proof {
            lemma_count_bound(all.take(i as int), v);
        }
        let same = match (es[i].verdict, v) {
            (Verdict::Held, Verdict::Held) => true,
            (Verdict::NotHeld, Verdict::NotHeld) => true,
            (Verdict::Unverified, Verdict::Unverified) => true,
            (Verdict::Unresolved, Verdict::Unresolved) => true,
            _ => false,
        };
        if same {
            n = n + 1;
        }
        i += 1;
    }
    assert(all.take(i as int) =~= all);
    n
}

/// Where a goal stands once `lookup` has judged each of its expectations.
pub fn outcome<L>(goal: &Goal, lookup: L) -> (o: Outcome) where L: Fn(&str) -> Verdict
    requires
        forall|s: &str| lookup.requires((s,)),
    ensures
        o.goal@ == "goal::"@ + goal.name@,
        o.state@ == goal.state@,
        o.expected == goal.expect@.len(),
        o.expectations@.len() == goal.expect@.len(),
        forall|i: int|
            0 <= i < goal.expect@.len() ==> (#[trigger] o.expectations@[i]).identity@ == goal.expect@[i]@
                && exists|s: &str| s@ == goal.expect@[i]@ && lookup.ensures((s,), o.expectations@[i].verdict),
        o.held == count_verdict(o@.expectations, Verdict::Held),
        o.not_held == count_verdict(o@.expectations, Verdict::NotHeld),
        o.unverified == count_verdict(o@.expectations, Verdict::Unverified),
        o.unresolved == count_verdict(o@.expectations, Verdict::Unresolved),
        o.held + o.not_held + o.unverified + o.unresolved == o.expected,
{
    let mut expectations: Vec<Expectation> = Vec::new();
    let mut i: usize = 0;
    while i < goal.expect.len()
        invariant
            i <= goal.expect.len(),
            forall|s: &str| lookup.requires((s,)),
            expectations@.len() == i,
            forall|k: int|
                0 <= k < i ==> (#[trigger] expectations@[k]).identity@ == goal.expect@[k]@ && exists|s: &str|
                    s@ == goal.expect@[k]@ && lookup.ensures((s,), expectations@[k].verdict),
        decreases goal.expect.len() - i,
    {
        let identity = goal.expect[i].as_str();
        let verdict = lookup(identity);
        expectations.push(Expectation { identity: identity.to_owned(), verdict });
        i += 1;
    }
    let held = count_of(&expectations, Verdict::Held);
    let not_held = count_of(&expectations, Verdict::NotHeld);
    let unverified = count_of(&expectations, Verdict::Unverified);
    let unresolved = count_of(&expectations, Verdict::Unresolved);
    proof {
        lemma_counts_partition(expectations@.map_values(|e: Expectation| e@));
    }
    Outcome {
        goal: goal.id(),
        state: goal.state.clone(),
        expected: expectations.len(),
        held,
        not_held,
        unverified,
        unresolved,
        expectations,
    }
}

/// What one declaration adds to the goals read so far.
pub open spec fn goal_step(b: BlockView, acc: Seq<GoalV>) -> Result<Seq<GoalV>, Refusal> {
    match field_refusal(b, seq!["statement"@, "expect"@, "state"@], seq!["serves"@]) {
        Some(r) => Err(r),
        None => match text_of(b, "statement"@) {
            Err(r) => Err(r),
            Ok(s) => match text_of(b, "state"@) {
                Err(r) => Err(r),
                Ok(st) => Ok(
                    acc.push(
                        GoalV {
                            name: b.name,
                            serves: list_of(b, "serves"@),
                            statement: s,
                            expect: list_of(b, "expect"@),
                            state: st,
                        },
                    ),
                ),
            },
        },
    }
}

pub open spec fn goal_fold(blocks: Seq<BlockView>, i: int, acc: Seq<GoalV>) -> Result<Seq<GoalV>, Refusal>
    decreases blocks.len() - i,
{
    if i < 0 || i >= blocks.len() {
        Ok(acc)
    } else {
        match goal_step(blocks[i], acc) {
            Err(r) => Err(r),
            Ok(next) => goal_fold(blocks, i + 1, next),
        }
    }
}

/// The goals that a file's declarations state.
pub open spec fn goals_built(blocks: Seq<BlockView>) -> Result<Seq<GoalV>, Refusal> {
    match stray_keyword(blocks, seq!["goal"@], 0) {
        Some(r) => Err(r),
        None => goal_fold(blocks, 0, Seq::empty()),
    }
}

/// The goal memory that `goal` declarations state.
pub fn build(blocks: &[Block]) -> (r: Result<GoalMemory, Diagnostic>)
    ensures
        match goals_built(block_views(blocks@)) {
            Ok(m) => r matches Ok(x) && x@ == m,
            Err(e) => r matches Err(d) && says(d, e),
        },
{
    let ghost bs = block_views(blocks@);
    let allowed: Vec<&str> = vec!["goal"];
    assert(words(allowed@) =~= seq!["goal"@]);
    match expect_keywords(blocks, &allowed) {
        Ok(()) => {},
        Err(d) => {
            return Err(d);
        },
    }
    let required: Vec<&str> = vec!["statement", "expect", "state"];
    let optional: Vec<&str> = vec!["serves"];
    assert(words(required@) =~= seq!["statement"@, "expect"@, "state"@]);
    assert(words(optional@) =~= seq!["serves"@]);
    let mut memory = GoalMemory::default();
    assert(memory@ =~= Seq::<GoalV>::empty());
    let mut i: usize = 0;
    while i < blocks.len()
        invariant
            i <= blocks.len(),
            bs == block_views(blocks@),
            words(required@) == seq!["statement"@, "expect"@, "state"@],
            words(optional@) == seq!["serves"@],
            stray_keyword(bs, seq!["goal"@], 0) is None,
            goal_fold(bs, i as int, memory@) == goal_fold(bs, 0, Seq::empty()),
        decreases blocks.len() - i,
    {
        let block = &blocks[i];
        assert(bs[i as int] == block@);
        match expect_fields(block, &required, &optional) {
            Ok(()) => {},
            Err(d) => {
                return Err(d);
            },
        }
        let serves = list(block, "serves");
        let statement = match text(block, "statement") {
            Ok(s) => s,
            Err(d) => {
                return Err(d);
            },
        };
        let expect = list(block, "expect");
        let state = match text(block, "state") {
            Ok(s) => s,
            Err(d) => {
                return Err(d);
            },
        };
        let goal = Goal { name: block.name.clone(), serves, statement, expect, state };
        let ghost before = memory@;
        memory.goals.push(goal);
        assert(memory@ =~= before.push(goal@));
        i += 1;
    }
    Ok(memory)
}

/// Whether `group` can name a group: not empty, without `:` or white space.
pub open spec fn is_group(group: Seq<char>) -> bool {
    group.len() > 0 && forall|i: int| 0 <= i < group.len() ==> #[trigger] group[i] != ':' && !is_whitespace(group[i])
}

/// Whether `identity` is canonical: `contract::group`, or `group::label` with a label that
/// is not empty, holds no `::` and neither starts nor ends with white space.
pub open spec fn is_canonical(identity: Seq<char>) -> bool {
    match double_colon(identity, 0) {
        None => false,
        Some(k) => {
            let head = identity.take(k);
            let rest = identity.skip(k + 2);
            if head == "contract"@ {
                is_group(rest)
            } else {
                is_group(head) && rest.len() > 0 && double_colon(rest, 0) is None && !is_whitespace(rest[0])
                    && !is_whitespace(rest.last())
            }
        },
    }
}

fn group_ok(cs: &Vec<char>, from: usize, to: usize) -> (b: bool)
    requires
        from <= to <= cs.len(),
    ensures
        b == is_group(cs@.subrange(from as int, to as int)),
{
    if from == to {
        return false;
    }
    let mut i: usize = from;
    while i < to
        invariant
            from <= i <= to <= cs.len(),
            forall|k: int| from <= k < i ==> cs@[k] != ':' && !is_whitespace(cs@[k]),
        decreases to - i,
    {
        if cs[i] == ':' || crate::text::char_is_whitespace(cs[i]) {
            assert(cs@.subrange(from as int, to as int)[i - from] == cs@[i as int]);
            return false;
        }
        i += 1;
    }
    assert forall|k: int| 0 <= k < to - from implies #[trigger] cs@.subrange(from as int, to as int)[k] != ':'
        && !is_whitespace(cs@.subrange(from as int, to as int)[k]) by {
        assert(cs@.subrange(from as int, to as int)[k] == cs@[from + k]);
    }
    true
}

/// The first position from `from` on where `cs` has `::`.
fn colons_from(cs: &Vec<char>, from: usize) -> (r: Option<usize>)
    requires
        from <= cs.len(),
    ensures
        r matches Some(k) ==> from <= k && k + 1 < cs@.len() && double_colon(cs@.skip(from as int), 0) == Some(
            k - from,
        ),
        r is None ==> double_colon(cs@.skip(from as int), 0) is None,
{
    let ghost s = cs@.skip(from as int);
    let mut i: usize = from;
    while cs.len() - i > 1
        invariant
            from <= i <= cs.len(),
            s == cs@.skip(from as int),
            double_colon(s, 0) == double_colon(s, i - from),
        decreases cs.len() - i,
    {
        assert(s[i - from] == cs@[i as int]);
        assert(s[i - from + 1] == cs@[i + 1]);
        if cs[i] == ':' && cs[i + 1] == ':' {
            return Some(i);
        }
        i += 1;
    }
    None
}

/// Whether `identity` is canonical.
fn canonical_identity(identity: &str) -> (b: bool)
    ensures
        b == is_canonical(identity@),
{
    let cs = crate::text::chars_of(identity);
    assert(cs@.skip(0) =~= cs@);
    let k = match colons_from(&cs, 0) {
        Some(k) => k,
        None => {
            return false;
        },
    };
    let n = cs.len();
    let head = crate::text::string_of_range(cs.as_slice(), 0, k);
    assert(head@ =~= identity@.take(k as int));
    assert(cs@.subrange(k + 2, n as int) =~= identity@.skip(k + 2));
    if str_eq(head.as_str(), "contract") {
        return group_ok(&cs, k + 2, n);
    }
    if !group_ok(&cs, 0, k) {
        assert(cs@.subrange(0, k as int) =~= identity@.take(k as int));
        return false;
    }
    assert(cs@.subrange(0, k as int) =~= identity@.take(k as int));
    if k + 2 == n {
        return false;
    }
    let ghost rest = identity@.skip(k + 2);
    assert(cs@.skip(k + 2) =~= rest);
    if colons_from(&cs, k + 2).is_some() {
        return false;
    }
    let first = cs[k + 2];
    let last = cs[n - 1];
    assert(rest[0] == first);
    assert(rest.last() == last);
    !crate::text::char_is_whitespace(first) && !crate::text::char_is_whitespace(last)
}

/// The problems of one goal, given whether an earlier goal has its name.
pub open spec fn goal_problem(g: GoalV, twice: bool) -> Seq<Seq<char>> {
    (if twice {
        seq![
            "the goal "@ + debug_quoted(g.name) + " is declared twice; goal::"@ + g.name
                + " must resolve to one goal"@,
        ]
    } else {
        Seq::empty()
    }) + (if g.state != "active"@ && g.state != "done"@ && g.state != "dropped"@ {
        seq![
            "goal "@ + debug_quoted(g.name) + " has state "@ + debug_quoted(g.state)
                + "; a goal's state is one of active, done, dropped"@,
        ]
    } else {
        Seq::empty()
    }) + (if g.expect.len() == 0 {
        seq![
            "goal "@ + debug_quoted(g.name)
                + " expects nothing; a goal names at least one rule or contract it waits on, or it would hold with nothing checked"@,
        ]
    } else {
        Seq::empty()
    }) + identity_problems(g, g.expect.len() as int)
}

/// The problems of the first `k` expectations of a goal that are not canonical.
pub open spec fn identity_problems(g: GoalV, k: int) -> Seq<Seq<char>>
    decreases k,
{
    if k <= 0 || k > g.expect.len() {
        Seq::empty()
    } else if !is_canonical(g.expect[k - 1]) {
        identity_problems(g, k - 1).push(
            "goal "@ + debug_quoted(g.name) + " expects "@ + debug_quoted(g.expect[k - 1])
                + ", which is not a canonical identity; an expectation is contract::<group> or <group>::<label>"@,
        )
    } else {
        identity_problems(g, k - 1)
    }
}

/// The problems of the first `n` goals.
pub open spec fn goals_problems(gs: Seq<GoalV>, n: int) -> Seq<Seq<char>>
    decreases n,
{
    if n <= 0 || n > gs.len() {
        Seq::empty()
    } else {
        goals_problems(gs, n - 1) + goal_problem(
            gs[n - 1],
            exists|j: int| 0 <= j < n - 1 && (#[trigger] gs[j]).name == gs[n - 1].name,
        )
    }
}

fn goal_check(g: &Goal, twice: bool) -> (ps: Vec<String>)
    ensures
        texts(ps@) == goal_problem(g@, twice),
{
    let mut ps: Vec<String> = Vec::new();
    let shown = quoted(g.name.as_str());
    if twice {
        let mut m = joined("the goal ", shown.as_str());
        append(&mut m, " is declared twice; goal::");
        append(&mut m, g.name.as_str());
        append(&mut m, " must resolve to one goal");
        ps.push(m);
    }
    let ghost a = texts(ps@);
    let st = g.state.as_str();
    if !str_eq(st, "active") && !str_eq(st, "done") && !str_eq(st, "dropped") {
        let mut m = joined("goal ", shown.as_str());
        append(&mut m, " has state ");
        append(&mut m, quoted(st).as_str());
        append(&mut m, "; a goal's state is one of active, done, dropped");
        ps.push(m);
        assert(texts(ps@) =~= a.push(m@));
    }
    let ghost b = texts(ps@);
    if g.expect.len() == 0 {
        let mut m = joined("goal ", shown.as_str());
        append(&mut m, " expects nothing; a goal names at least one rule or contract it waits on, or it would hold with nothing checked");
        ps.push(m);
        assert(texts(ps@) =~= b.push(m@));
    }
    let ghost head = texts(ps@);
    let ghost gv = g@;
    assert(head =~= (if twice {
        seq![
            "the goal "@ + debug_quoted(gv.name) + " is declared twice; goal::"@ + gv.name
                + " must resolve to one goal"@,
        ]
    } else {
        Seq::<Seq<char>>::empty()
    }) + (if gv.state != "active"@ && gv.state != "done"@ && gv.state != "dropped"@ {
        seq![
            "goal "@ + debug_quoted(gv.name) + " has state "@ + debug_quoted(gv.state)
                + "; a goal's state is one of active, done, dropped"@,
        ]
    } else {
        Seq::<Seq<char>>::empty()
    }) + (if gv.expect.len() == 0 {
        seq![
            "goal "@ + debug_quoted(gv.name)
                + " expects nothing; a goal names at least one rule or contract it waits on, or it would hold with nothing checked"@,
        ]
    } else {
        Seq::<Seq<char>>::empty()
    }));
    let mut k: usize = 0;
    while k < g.expect.len()
        invariant
            k <= g.expect.len(),
            gv == g@,
            shown@ == debug_quoted(gv.name),
            texts(ps@) == head + identity_problems(gv, k as int),
        decreases g.expect.len() - k,
    {
        let identity = g.expect[k].as_str();
        assert(gv.expect[k as int] == identity@);
        if !canonical_identity(identity) {
            let mut m = joined("goal ", shown.as_str());
            append(&mut m, " expects ");
            append(&mut m, quoted(identity).as_str());
            append(&mut m, ", which is not a canonical identity; an expectation is contract::<group> or <group>::<label>");
            let ghost before = ps@;
            ps.push(m);
            assert(texts(ps@) =~= texts(before).push(m@));
        }
        k += 1;
    }
    ps
}

/// What is wrong with a goal memory: a goal declared twice, a state that is not `active`,
/// `done` or `dropped`, no expectation, an expectation that is not a canonical identity.
pub fn validate(memory: &GoalMemory) -> (ps: Vec<String>)
    ensures
        texts(ps@) == goals_problems(memory@, memory@.len() as int),
{
    let ghost gs = memory@;
    let mut ps: Vec<String> = Vec::new();
    assert(texts(ps@) =~= Seq::<Seq<char>>::empty());
    let mut i: usize = 0;
    while i < memory.goals.len()
        invariant
            i <= memory.goals.len(),
            gs == memory@,
            texts(ps@) == goals_problems(gs, i as int),
        decreases memory.goals.len() - i,
    {
        let g = &memory.goals[i];
        assert(gs[i as int] == g@);
        let mut j: usize = 0;
        let mut twice = false;
        while j < i
            invariant_except_break
                !twice,
                forall|k: int| 0 <= k < j ==> (#[trigger] gs[k]).name != gs[i as int].name,
            invariant
                j <= i < memory.goals.len(),
                gs == memory@,
                g@ == gs[i as int],
            ensures
                twice == exists|k: int| 0 <= k < i && (#[trigger] gs[k]).name == gs[i as int].name,
            decreases i - j,
        {
            assert(gs[j as int] == memory.goals@[j as int]@);
            if str_eq(memory.goals[j].name.as_str(), g.name.as_str()) {
                twice = true;
                break;
            }
            j += 1;
        }
        let mut more = goal_check(g, twice);
        let ghost before = texts(ps@);
        let ghost extra = texts(more@);
        ps.append(&mut more);
        assert(texts(ps@) =~= before + extra);
        i += 1;
    }
    ps
}

/// Why the priority `priority` that a goal serves does not resolve, or nothing when it does.
pub open spec fn serving_reason(mission: Memory<MissionMemory>, priority: Seq<char>) -> Option<Seq<char>> {
    match mission {
        Memory::Present(m) => if super::mission::has_priority(m@, priority) {
            None
        } else {
            Some(
                "the mission memory declares no such priority; declared priorities are "@ + super::routing::declared_list(
                    m@.priorities.map_values(|p: PriorityV| p.name),
                ),
            )
        },
        Memory::Unregistered => Some(no_mission_reason()),
        Memory::Ignored(_) => Some(no_mission_reason()),
        other => Some("the mission memory is "@ + state_word(other) + ", so no priority resolves"@),
    }
}

pub open spec fn no_mission_reason() -> Seq<char> {
    "no mission memory is registered, so serves must stay empty until `mission \"path\"` registers one"@
}

/// The problems of the first `k` priorities that a goal serves.
pub open spec fn serves_problems(mission: Memory<MissionMemory>, g: GoalV, k: int) -> Seq<Seq<char>>
    decreases k,
{
    if k <= 0 || k > g.serves.len() {
        Seq::empty()
    } else {
        let earlier = serves_problems(mission, g, k - 1);
        match serving_reason(mission, g.serves[k - 1]) {
            Some(reason) => earlier.push(
                "goal "@ + debug_quoted(g.name) + " serves "@ + debug_quoted(g.serves[k - 1]) + ", but "@ + reason,
            ),
            None => earlier,
        }
    }
}

/// The problems of the first `n` goals' served priorities.
pub open spec fn serving_spec(mission: Memory<MissionMemory>, gs: Seq<GoalV>, n: int) -> Seq<Seq<char>>
    decreases n,
{
    if n <= 0 || n > gs.len() {
        Seq::empty()
    } else {
        serving_spec(mission, gs, n - 1) + serves_problems(mission, gs[n - 1], gs[n - 1].serves.len() as int)
    }
}

/// The names of the declared priorities.
fn priority_names(m: &MissionMemory) -> (s: String)
    ensures
        s@ == super::routing::declared_list(m@.priorities.map_values(|p: PriorityV| p.name)),
{
    if m.priorities.len() == 0 {
        assert(m@.priorities.map_values(|p: PriorityV| p.name) =~= Seq::<Seq<char>>::empty());
        return "none".to_owned();
    }
    let mut v: Vec<String> = Vec::new();
    let mut i: usize = 0;
    while i < m.priorities.len()
        invariant
            i <= m.priorities.len(),
            texts(v@) == m@.priorities.map_values(|p: PriorityV| p.name).take(i as int),
        decreases m.priorities.len() - i,
    {
        let ghost before = v@;
        v.push(m.priorities[i].name.clone());
        assert(m@.priorities[i as int] == m.priorities@[i as int]@);
        assert(texts(v@) =~= texts(before).push(m.priorities@[i as int].name@));
        assert(texts(v@) =~= m@.priorities.map_values(|p: PriorityV| p.name).take(i + 1));
        i += 1;
    }
    assert(m@.priorities.map_values(|p: PriorityV| p.name).take(i as int) =~= m@.priorities.map_values(
        |p: PriorityV| p.name,
    ));
    crate::text::join_strings(&v, ", ")
}

/// Why a served priority does not resolve.
fn serving(mission: &Memory<MissionMemory>, priority: &str) -> (r: Option<String>)
    ensures
        match serving_reason(*mission, priority@) {
            Some(t) => r matches Some(s) && s@ == t,
            None => r is None,
        },
{
    match mission {
        Memory::Present(m) => {
            let mut i: usize = 0;
            while i < m.priorities.len()
                invariant
                    i <= m.priorities.len(),
                    *mission == Memory::Present(*m),
                    forall|j: int| 0 <= j < i ==> (#[trigger] m@.priorities[j]).name != priority@,
                decreases m.priorities.len() - i,
            {
                assert(m@.priorities[i as int] == m.priorities@[i as int]@);
                if str_eq(m.priorities[i].name.as_str(), priority) {
                    return None;
                }
                i += 1;
            }
            let mut s = "the mission memory declares no such priority; declared priorities are ".to_owned();
            append(&mut s, priority_names(m).as_str());
            Some(s)
        },
        Memory::Unregistered | Memory::Ignored(_) => Some(
            "no mission memory is registered, so serves must stay empty until `mission \"path\"` registers one".to_owned(),
        ),
        other => {
            let mut s = joined("the mission memory is ", other.state());
            append(&mut s, ", so no priority resolves");
            Some(s)
        },
    }
}

/// The priorities that goals serve and that the mission memory does not declare.
pub fn serving_problems(memory: &GoalMemory, mission: &Memory<MissionMemory>) -> (ps: Vec<String>)
    ensures
        texts(ps@) == serving_spec(*mission, memory@, memory@.len() as int),
{
    let mut ps: Vec<String> = Vec::new();
    assert(texts(ps@) =~= Seq::<Seq<char>>::empty());
    let mut i: usize = 0;
    while i < memory.goals.len()
        invariant
            i <= memory.goals.len(),
            texts(ps@) == serving_spec(*mission, memory@, i as int),
        decreases memory.goals.len() - i,
    {
        let g = &memory.goals[i];
        assert(memory@[i as int] == g@);
        let ghost start = texts(ps@);
        let mut k: usize = 0;
        while k < g.serves.len()
            invariant
                k <= g.serves.len(),
                g@ == memory@[i as int],
                texts(ps@) == start + serves_problems(*mission, g@, k as int),
            decreases g.serves.len() - k,
        {
            let priority = g.serves[k].as_str();
            assert(g@.serves[k as int] == priority@);
            match serving(mission, priority) {
                Some(reason) => {
                    let mut m = joined("goal ", quoted(g.name.as_str()).as_str());
                    append(&mut m, " serves ");
                    append(&mut m, quoted(priority).as_str());
                    append(&mut m, ", but ");
                    append(&mut m, reason.as_str());
                    let ghost before = ps@;
                    ps.push(m);
                    assert(texts(ps@) =~= texts(before).push(m@));
                },
                None => {},
            }
            k += 1;
        }
        i += 1;
    }
    ps
}

/// Where each goal stands once `lookup` has judged its expectations; none unless the goal
/// memory is present.
pub fn outcomes<L>(memory: &Memory<GoalMemory>, lookup: L) -> (v: Vec<Outcome>) where L: Fn(&str) -> Verdict
    requires
        forall|s: &str| lookup.requires((s,)),
    ensures
        match *memory {
            Memory::Present(m) => v@.len() == m.goals@.len() && forall|i: int|
                0 <= i < v@.len() ==> (#[trigger] v@[i]).goal@ == "goal::"@ + m.goals@[i].name@ && v@[i].state@
                    == m.goals@[i].state@ && v@[i].expected == m.goals@[i].expect@.len(),
            _ => v@.len() == 0,
        },
{
    let m = match memory.present() {
        Some(m) => m,
        None => {
            return Vec::new();
        },
    };
    let mut v: Vec<Outcome> = Vec::new();
    let mut i: usize = 0;
    while i < m.goals.len()
        invariant
            i <= m.goals.len(),
            *memory == Memory::Present(*m),
            forall|s: &str| lookup.requires((s,)),
            v@.len() == i,
            forall|k: int|
                0 <= k < i ==> (#[trigger] v@[k]).goal@ == "goal::"@ + m.goals@[k].name@ && v@[k].state@
                    == m.goals@[k].state@ && v@[k].expected == m.goals@[k].expect@.len(),
        decreases m.goals.len() - i,
    {
        let o = outcome(&m.goals[i], &lookup);
        v.push(o);
        i += 1;
    }
    v
}

/// A copy of an outcome.
fn copy_outcome(o: &Outcome) -> (c: Outcome)
    ensures
        c@ == o@,
{
    let mut es: Vec<Expectation> = Vec::new();
    let mut i: usize = 0;
    while i < o.expectations.len()
        invariant
            i <= o.expectations.len(),
            es@.map_values(|e: Expectation| e@) == o.expectations@.map_values(|e: Expectation| e@).take(i as int),
        decreases o.expectations.len() - i,
    {
        let e = &o.expectations[i];
        let ghost before = es@;
        let copy = Expectation { identity: e.identity.clone(), verdict: e.verdict };
        es.push(copy);
        assert(es@.map_values(|e: Expectation| e@) =~= before.map_values(|e: Expectation| e@).push(e@));
        assert(es@.map_values(|e: Expectation| e@) =~= o.expectations@.map_values(|e: Expectation| e@).take(i + 1));
        i += 1;
    }
    assert(o.expectations@.map_values(|e: Expectation| e@).take(i as int) =~= o.expectations@.map_values(
        |e: Expectation| e@,
    ));
    Outcome {
        goal: o.goal.clone(),
        state: o.state.clone(),
        expected: o.expected,
        held: o.held,
        not_held: o.not_held,
        unverified: o.unverified,
        unresolved: o.unresolved,
        expectations: es,
    }
}

pub open spec fn outcome_views(v: Seq<Outcome>) -> Seq<OutcomeV> {
    v.map_values(|o: Outcome| o@)
}

/// The outcomes, in order, whose state is `state`.
pub open spec fn in_state(os: Seq<OutcomeV>, state: Seq<char>) -> Seq<OutcomeV>
    decreases os.len(),
{
    if os.len() == 0 {
        Seq::empty()
    } else if os.last().state == state {
        in_state(os.drop_last(), state).push(os.last())
    } else {
        in_state(os.drop_last(), state)
    }
}

proof fn lemma_in_state_len(os: Seq<OutcomeV>, state: Seq<char>)
    ensures
        in_state(os, state).len() <= os.len(),
    decreases os.len(),
{
    if os.len() > 0 {
        lemma_in_state_len(os.drop_last(), state);
    }
}

/// The state of goal memory with the active goals' outcomes and how many goals are done or
/// dropped, or nothing when no statement registers it.
pub fn status(memory: &Memory<GoalMemory>, file: &str, outcomes: &[Outcome]) -> (r: Option<GoalStatus>)
    ensures
        memory is Unregistered ==> r is None,
        !(memory is Unregistered) ==> (r matches Some(s) && s.file@ == file@ && s.state@ == state_word(*memory)
            && texts(s.problems@) == problems_of(*memory) && outcome_views(s.active@) == in_state(
            outcome_views(outcomes@),
            "active"@,
        ) && s.done == in_state(outcome_views(outcomes@), "done"@).len() && s.dropped == in_state(
            outcome_views(outcomes@),
            "dropped"@,
        ).len()),
{
    if let Memory::Unregistered = memory {
        return None;
    }
    let ghost os = outcome_views(outcomes@);
    let mut active: Vec<Outcome> = Vec::new();
    let mut done: usize = 0;
    let mut dropped: usize = 0;
    let mut i: usize = 0;
    assert(outcome_views(active@) =~= Seq::<OutcomeV>::empty());
    while i < outcomes.len()
        invariant
            i <= outcomes.len(),
            os == outcome_views(outcomes@),
            outcome_views(active@) == in_state(os.take(i as int), "active"@),
            done == in_state(os.take(i as int), "done"@).len(),
            dropped == in_state(os.take(i as int), "dropped"@).len(),
        decreases outcomes.len() - i,
    {
        let o = &outcomes[i];
        assert(os.take(i + 1).drop_last() =~= os.take(i as int));
        assert(os.take(i + 1).last() == o@);
        proof {
            lemma_in_state_len(os.take(i as int), "done"@);
            lemma_in_state_len(os.take(i as int), "dropped"@);
        }
        if str_eq(o.state.as_str(), "active") {
            let ghost before = active@;
            let c = copy_outcome(o);
            active.push(c);
            assert(outcome_views(active@) =~= outcome_views(before).push(o@));
        }
        if str_eq(o.state.as_str(), "done") {
            done = done + 1;
        }
        if str_eq(o.state.as_str(), "dropped") {
            dropped = dropped + 1;
        }
        i += 1;
    }
    assert(os.take(i as int) =~= os);
    Some(
        GoalStatus {
            file: file.to_owned(),
            state: memory.state(),
            problems: memory.problems(),
            active,
            done,
            dropped,
        },
    )
}

/// The name a goal query asks for: after `goal::`, or the whole query.
pub open spec fn goal_query(q: Seq<char>) -> Seq<char> {
    if starts_with(q, "goal::"@) {
        q.skip(6)
    } else {
        q
    }
}

pub open spec fn has_goal(gs: Seq<GoalV>, name: Seq<char>) -> bool {
    exists|i: int| 0 <= i < gs.len() && (#[trigger] gs[i]).name == name
}

fn find_goal(m: &GoalMemory, name: &str) -> (r: Option<usize>)
    ensures
        r is None ==> !has_goal(m@, name@),
        r is Some ==> has_goal(m@, name@),
        r matches Some(i) ==> i < m@.len() && m@[i as int].name == name@ && forall|j: int|
            0 <= j < i ==> (#[trigger] m@[j]).name != name@,
{
    let mut i: usize = 0;
    while i < m.goals.len()
        invariant
            i <= m.goals.len(),
            forall|j: int| 0 <= j < i ==> (#[trigger] m@[j]).name != name@,
        decreases m.goals.len() - i,
    {
        assert(m@[i as int] == m.goals@[i as int]@);
        if str_eq(m.goals[i].name.as_str(), name) {
            return Some(i);
        }
        i += 1;
    }
    None
}

/// The canonical identity of the goal a query names: `goal::name` or a bare name.
pub fn canonical(memory: &Memory<GoalMemory>, query: &str) -> (found: Vec<String>)
    ensures
        match *memory {
            Memory::Present(m) => if has_goal(m@, goal_query(query@)) {
                texts(found@) == seq!["goal::"@ + goal_query(query@)]
            } else {
                found@.len() == 0
            },
            _ => found@.len() == 0,
        },
{
    let m = match memory.present() {
        Some(m) => m,
        None => {
            return Vec::new();
        },
    };
    proof {
        reveal_strlit("goal::");
    }
    let name = match crate::text::strip_prefix_text(query, "goal::") {
        Some(rest) => rest,
        None => query.to_owned(),
    };
    assert(name@ == goal_query(query@));
    match find_goal(m, name.as_str()) {
        Some(i) => {
            let v = vec![m.goals[i].id()];
            assert(texts(v@) =~= seq!["goal::"@ + name@]);
            v
        },
        None => Vec::new(),
    }
}

/// Whether `explain` can say something of a goal query: it names a goal as `goal::name` and
/// an outcome of that goal is among `outcomes`.
pub open spec fn goal_explains(gs: Seq<GoalV>, query: Seq<char>, outcomes: Seq<OutcomeV>) -> bool {
    starts_with(query, "goal::"@) && has_goal(gs, query.skip(6)) && exists|k: int|
        0 <= k < outcomes.len() && (#[trigger] outcomes[k]).goal == "goal::"@ + query.skip(6)
}

/// The position of the first outcome of the goal `id`.
fn find_outcome(outcomes: &[Outcome], id: &str) -> (r: Option<usize>)
    ensures
        r is None ==> forall|j: int| 0 <= j < outcomes@.len() ==> (#[trigger] outcomes@[j]@).goal != id@,
        r matches Some(k) ==> k < outcomes@.len() && outcomes@[k as int]@.goal == id@ && forall|j: int|
            0 <= j < k ==> (#[trigger] outcomes@[j]@).goal != id@,
{
    let mut k: usize = 0;
    while k < outcomes.len()
        invariant
            k <= outcomes.len(),
            forall|j: int| 0 <= j < k ==> (#[trigger] outcomes@[j]@).goal != id@,
        decreases outcomes.len() - k,
    {
        if str_eq(outcomes[k].goal.as_str(), id) {
            return Some(k);
        }
        k += 1;
    }
    None
}

/// What goal memory says of the goal a query names: the goal with its outcome and the tasks
/// that serve it.
pub fn explain(
    memory: &Memory<GoalMemory>,
    query: &str,
    outcomes: &[Outcome],
    serving_tasks: Vec<(String, String)>,
) -> (r: Option<GoalExplainView>)
    ensures
        match *memory {
            Memory::Present(m) => if goal_explains(m@, query@, outcome_views(outcomes@)) {
                r matches Some(v) && {
                    let name = query@.skip(6);
                    let i = choose|i: int|
                        0 <= i < m@.len() && (#[trigger] m@[i]).name == name && forall|j: int|
                            0 <= j < i ==> (#[trigger] m@[j]).name != name;
                    let k = choose|k: int|
                        0 <= k < outcomes@.len() && (#[trigger] outcomes@[k]@).goal == "goal::"@ + name && forall|
                            j: int,
                        | 0 <= j < k ==> (#[trigger] outcomes@[j]@).goal != "goal::"@ + name;
                    &&& v.kind@ == "goal"@
                    &&& v.id@ == "goal::"@ + name
                    &&& v.statement@ == m@[i].statement
                    &&& v.state@ == m@[i].state
                    &&& texts(v.serves@) == prefix_all("priority::"@, m@[i].serves)
                    &&& v.outcome@ == outcomes@[k]@
                    &&& v.serving_tasks == serving_tasks
                }
            } else {
                r is None
            },
            _ => r is None,
        },
{
    proof {
        reveal_strlit("goal::");
    }
    let name = match crate::text::strip_prefix_text(query, "goal::") {
        Some(rest) => rest,
        None => {
            return None;
        },
    };
    let m = match memory.present() {
        Some(m) => m,
        None => {
            return None;
        },
    };
    let i = match find_goal(m, name.as_str()) {
        Some(i) => i,
        None => {
            return None;
        },
    };
    let goal = &m.goals[i];
    assert(m@[i as int] == goal@);
    let id = goal.id();
    let k = match find_outcome(outcomes, id.as_str()) {
        Some(k) => k,
        None => {
            let ghost os = outcome_views(outcomes@);
            assert forall|j: int| 0 <= j < os.len() implies (#[trigger] os[j]).goal != id@ by {
                assert(os[j] == outcomes@[j]@);
            }
            return None;
        },
    };
    let outcome = copy_outcome(&outcomes[k]);
    proof {
        let gname = query@.skip(6);
        assert(name@ == gname);
        let ci = choose|i: int|
            0 <= i < m@.len() && (#[trigger] m@[i]).name == gname && forall|j: int|
                0 <= j < i ==> (#[trigger] m@[j]).name != gname;
        assert(0 <= i < m@.len() && m@[i as int].name == gname);
        if ci != i {
            if ci < i {
                assert(m@[ci].name != gname);
            } else {
                assert(m@[i as int].name != gname);
            }
        }
        let ck = choose|k: int|
            0 <= k < outcomes@.len() && (#[trigger] outcomes@[k]@).goal == "goal::"@ + gname && forall|j: int|
                0 <= j < k ==> (#[trigger] outcomes@[j]@).goal != "goal::"@ + gname;
        assert(outcomes@[k as int]@.goal == "goal::"@ + gname);
        if ck != k {
            if ck < k {
                assert(outcomes@[ck]@.goal != "goal::"@ + gname);
            } else {
                assert(outcomes@[k as int]@.goal != "goal::"@ + gname);
            }
        }
        assert(ck == k);
        assert(ci == i);
        assert(outcome_views(outcomes@)[k as int] == outcomes@[k as int]@);
        assert(goal_explains(m@, query@, outcome_views(outcomes@)));
    }
    let serves = prefixed("priority::", &goal.serves);
    assert(texts(serves@) == prefix_all("priority::"@, m@[i as int].serves));
    assert(outcome@ == outcomes@[k as int]@);
    Some(
        GoalExplainView {
            kind: "goal",
            id,
            statement: goal.statement.clone(),
            state: goal.state.clone(),
            serves,
            outcome,
            serving_tasks,
        },
    )
}

/// A goal memory that `validate` finds sound holds only goals in a known state that wait on
/// something, and every expectation is a canonical identity.
pub proof fn law_sound_goals_are_checkable(gs: Seq<GoalV>)
    requires
        goals_problems(gs, gs.len() as int).len() == 0,
    ensures
        forall|i: int|
            0 <= i < gs.len() ==> ((#[trigger] gs[i]).state == "active"@ || gs[i].state == "done"@ || gs[i].state
                == "dropped"@) && gs[i].expect.len() > 0,
        forall|i: int, k: int| 0 <= i < gs.len() && 0 <= k < gs[i].expect.len() ==> is_canonical(#[trigger] gs[i].expect[k]),
{
    assert forall|i: int| 0 <= i < gs.len() implies ((#[trigger] gs[i]).state == "active"@ || gs[i].state == "done"@
        || gs[i].state == "dropped"@) && gs[i].expect.len() > 0 by {
        lemma_goal_problems_empty(gs, gs.len() as int, i);
    }
    assert forall|i: int, k: int| 0 <= i < gs.len() && 0 <= k < gs[i].expect.len() implies is_canonical(
        #[trigger] gs[i].expect[k],
    ) by {
        lemma_goal_problems_empty(gs, gs.len() as int, i);
        lemma_identity_problems_empty(gs[i], gs[i].expect.len() as int, k);
    }
}

proof fn lemma_goal_problems_empty(gs: Seq<GoalV>, n: int, i: int)
    requires
        0 <= i < n <= gs.len(),
        goals_problems(gs, n).len() == 0,
    ensures
        (gs[i].state == "active"@ || gs[i].state == "done"@ || gs[i].state == "dropped"@) && gs[i].expect.len() > 0,
        identity_problems(gs[i], gs[i].expect.len() as int).len() == 0,
    decreases n,
{
    if i < n - 1 {
        lemma_goal_problems_empty(gs, n - 1, i);
    }
}

proof fn lemma_identity_problems_empty(g: GoalV, n: int, k: int)
    requires
        0 <= k < n <= g.expect.len(),
        identity_problems(g, n).len() == 0,
    ensures
        is_canonical(g.expect[k]),
    decreases n,
{
    if k < n - 1 {
        lemma_identity_problems_empty(g, n - 1, k);
    }
}

} // verus!
