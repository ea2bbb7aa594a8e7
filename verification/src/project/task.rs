use crate::text::{all_blank, append, debug_quoted, decimal, decimal_text, is_blank, join, joined, quoted, str_eq};
use crate::project::{FNV_OFFSET, Fnv, fnv_text};
use crate::text::hex_fixed;
use crate::tree::{Tree, key_compare, key_less, lookup, sorted_keys, lemma_key_less_irreflexive, lemma_key_less_transitive, lemma_key_less_total, lemma_lookup, lemma_lookup_at};
use vstd::prelude::*;

verus! {

pub const TASK_DIRECTORY: &'static str = "tasks";

pub const SCRATCH_DIRECTORY: &'static str = "scratch";

/// A file the task owes, and its digest when the task was opened.
#[derive(Clone, Debug)]
pub struct Deliverable {
    pub path: String,
    pub opened_digest: Option<String>,
}

/// How a finding was resolved.
#[derive(Clone, Debug)]
pub struct FindingResolution {
    pub evidence: String,
    pub model: Option<String>,
}

/// A worker's statement that a finding is addressed.
#[derive(Clone, Debug)]
pub struct Addressed {
    pub model: String,
    pub statement: String,
    pub unix: u64,
}

/// A finding raised against the task.
#[derive(Clone, Debug)]
pub struct Finding {
    pub id: usize,
    pub statement: String,
    pub addressed: Option<Addressed>,
    pub resolution: Option<FindingResolution>,
}

/// The orchestrator's answer to a decision.
#[derive(Clone, Debug)]
pub struct Answer {
    pub pick: String,
    pub model: String,
    pub reason: String,
}

/// A call the carrying role made, with the confidence it stated.
#[derive(Clone, Debug)]
pub struct Decision {
    pub id: usize,
    pub question: String,
    pub kind: String,
    pub options: Vec<String>,
    pub pick: String,
    pub confidence: u8,
    pub model: String,
    pub floor: u8,
    pub below_floor: bool,
    pub answer: Option<Answer>,
    pub on: Option<String>,
}

impl Decision {
    /// Whether the decision waits for the orchestrator: below its floor and unanswered.
    pub fn unanswered_below_floor(&self) -> (b: bool)
        ensures
            b == blocks(*self),
    {
        self.below_floor && self.answer.is_none()
    }

    /// Whether the orchestrator answered with another pick.
    pub fn overruled(&self) -> (b: bool)
        ensures
            b == overruled_spec(*self),
    {
        match &self.answer {
            Some(answer) => !str_eq(answer.pick.as_str(), self.pick.as_str()),
            None => false,
        }
    }
}

pub open spec fn blocks(d: Decision) -> bool {
    d.below_floor && d.answer is None
}

pub open spec fn overruled_spec(d: Decision) -> bool {
    d.answer matches Some(a) && a.pick@ != d.pick@
}

/// A call put to the record: the question, its options, the pick and the confidence.
pub struct Question {
    pub question: String,
    pub options: Vec<String>,
    pub pick: String,
    pub confidence: i64,
    pub model: String,
}

/// A question the orchestrator asked of the carrying role.
#[derive(Clone, Debug)]
pub struct AskedQuestion {
    pub id: String,
    pub question: String,
    pub kind: String,
    pub options: Vec<String>,
    pub floor: u8,
    pub model: String,
}

/// A question to ask.
pub struct Ask {
    pub question: String,
    pub options: Vec<String>,
    pub floor: Option<i64>,
    pub model: String,
}

/// A pick for an asked question.
pub struct Pick {
    pub on: String,
    pub pick: String,
    pub confidence: i64,
    pub model: String,
}

/// The position of the first decision that blocks the task.
pub open spec fn first_block(ds: Seq<Decision>) -> Option<int>
    decreases ds.len(),
{
    if ds.len() == 0 {
        None
    } else {
        match first_block(ds.drop_last()) {
            Some(i) => Some(i),
            None => if blocks(ds.last()) {
                Some(ds.len() - 1)
            } else {
                None
            },
        }
    }
}

pub proof fn lemma_first_block(ds: Seq<Decision>)
    ensures
        match first_block(ds) {
            Some(i) => 0 <= i < ds.len() && blocks(ds[i]),
            None => forall|j: int| 0 <= j < ds.len() ==> !blocks(#[trigger] ds[j]),
        },
    decreases ds.len(),
{
    if ds.len() > 0 {
        lemma_first_block(ds.drop_last());
        assert forall|j: int| 0 <= j < ds.len() - 1 implies ds.drop_last()[j] == ds[j] by {}
    }
}

/// The decision the task is blocked on, if any: the first unanswered one below its floor.
pub fn unanswered_decision(task: &Task) -> (r: Option<&Decision>)
    ensures
        match first_block(task.decisions@) {
            Some(i) => r matches Some(d) && *d == task.decisions@[i],
            None => r is None,
        },
{
    let mut i: usize = 0;
    while i < task.decisions.len()
        invariant
            i <= task.decisions.len(),
            first_block(task.decisions@.take(i as int)) is None,
        decreases task.decisions.len() - i,
    {
        assert(task.decisions@.take(i + 1).drop_last() =~= task.decisions@.take(i as int));
        if task.decisions[i].unanswered_below_floor() {
            proof {
                lemma_first_block_prefix(task.decisions@, i as int + 1);
            }
            return Some(&task.decisions[i]);
        }
        i += 1;
    }
    assert(task.decisions@.take(i as int) =~= task.decisions@);
    None
}

/// Once a prefix has a first blocking decision, so does every longer sequence, at the same
/// position.
proof fn lemma_first_block_prefix(ds: Seq<Decision>, n: int)
    requires
        0 <= n <= ds.len(),
        first_block(ds.take(n)) is Some,
    ensures
        first_block(ds) == first_block(ds.take(n)),
    decreases ds.len() - n,
{
    if n < ds.len() {
        assert(ds.take(n + 1).drop_last() =~= ds.take(n));
        lemma_first_block_prefix(ds, n + 1);
    } else {
        assert(ds.take(n) =~= ds);
    }
}

/// The position of the first decision that picks question `id`.
pub open spec fn first_pick(ds: Seq<Decision>, id: Seq<char>) -> Option<int>
    decreases ds.len(),
{
    if ds.len() == 0 {
        None
    } else {
        match first_pick(ds.drop_last(), id) {
            Some(i) => Some(i),
            None => if ds.last().on matches Some(on) && on@ == id {
                Some(ds.len() - 1)
            } else {
                None
            },
        }
    }
}

proof fn lemma_first_pick_prefix(ds: Seq<Decision>, id: Seq<char>, n: int)
    requires
        0 <= n <= ds.len(),
        first_pick(ds.take(n), id) is Some,
    ensures
        first_pick(ds, id) == first_pick(ds.take(n), id),
    decreases ds.len() - n,
{
    if n < ds.len() {
        assert(ds.take(n + 1).drop_last() =~= ds.take(n));
        lemma_first_pick_prefix(ds, id, n + 1);
    } else {
        assert(ds.take(n) =~= ds);
    }
}

/// The decision that picked question `id`, if any.
pub fn picked_by<'a>(task: &'a Task, id: &str) -> (r: Option<&'a Decision>)
    ensures
        match first_pick(task.decisions@, id@) {
            Some(i) => r matches Some(d) && *d == task.decisions@[i],
            None => r is None,
        },
{
    let mut i: usize = 0;
    while i < task.decisions.len()
        invariant
            i <= task.decisions.len(),
            first_pick(task.decisions@.take(i as int), id@) is None,
        decreases task.decisions.len() - i,
    {
        assert(task.decisions@.take(i + 1).drop_last() =~= task.decisions@.take(i as int));
        let on = match &task.decisions[i].on {
            Some(on) => str_eq(on.as_str(), id),
            None => false,
        };
        if on {
            proof {
                lemma_first_pick_prefix(task.decisions@, id@, i as int + 1);
            }
            return Some(&task.decisions[i]);
        }
        i += 1;
    }
    assert(task.decisions@.take(i as int) =~= task.decisions@);
    None
}

/// The position of the first question whose id is `id`.
pub open spec fn first_question(qs: Seq<AskedQuestion>, id: Seq<char>) -> Option<int>
    decreases qs.len(),
{
    if qs.len() == 0 {
        None
    } else {
        match first_question(qs.drop_last(), id) {
            Some(i) => Some(i),
            None => if qs.last().id@ == id {
                Some(qs.len() - 1)
            } else {
                None
            },
        }
    }
}

proof fn lemma_first_question_prefix(qs: Seq<AskedQuestion>, id: Seq<char>, n: int)
    requires
        0 <= n <= qs.len(),
        first_question(qs.take(n), id) is Some,
    ensures
        first_question(qs, id) == first_question(qs.take(n), id),
    decreases qs.len() - n,
{
    if n < qs.len() {
        assert(qs.take(n + 1).drop_last() =~= qs.take(n));
        lemma_first_question_prefix(qs, id, n + 1);
    } else {
        assert(qs.take(n) =~= qs);
    }
}

pub proof fn lemma_first_question(qs: Seq<AskedQuestion>, id: Seq<char>)
    ensures
        match first_question(qs, id) {
            Some(i) => 0 <= i < qs.len() && qs[i].id@ == id,
            None => forall|j: int| 0 <= j < qs.len() ==> (#[trigger] qs[j]).id@ != id,
        },
    decreases qs.len(),
{
    if qs.len() > 0 {
        lemma_first_question(qs.drop_last(), id);
        assert forall|j: int| 0 <= j < qs.len() - 1 implies qs.drop_last()[j] == qs[j] by {}
    }
}

/// The question whose id is `id`, by position.
fn find_question(questions: &Vec<AskedQuestion>, id: &str) -> (r: Option<usize>)
    ensures
        r matches Some(k) ==> first_question(questions@, id@) == Some(k as int),
        r is None ==> first_question(questions@, id@) is None,
{
    let mut i: usize = 0;
    while i < questions.len()
        invariant
            i <= questions.len(),
            first_question(questions@.take(i as int), id@) is None,
        decreases questions.len() - i,
    {
        assert(questions@.take(i + 1).drop_last() =~= questions@.take(i as int));
        if str_eq(questions[i].id.as_str(), id) {
            proof {
                lemma_first_question_prefix(questions@, id@, i as int + 1);
            }
            return Some(i);
        }
        i += 1;
    }
    assert(questions@.take(i as int) =~= questions@);
    None
}

/// Who owns the floor a decision is measured against.
pub open spec fn floor_owner_spec(task: Task, d: Decision) -> Seq<char> {
    match d.on {
        Some(on) => match first_question(task.questions@, on@) {
            Some(i) => if task.questions@[i].floor == d.floor {
                "question "@ + task.questions@[i].id@
            } else {
                "role::"@ + task.role@
            },
            None => "role::"@ + task.role@,
        },
        None => "role::"@ + task.role@,
    }
}

/// The question whose floor a decision is measured against, or else the carrying role.
pub fn floor_owner(task: &Task, decision: &Decision) -> (owner: String)
    ensures
        owner@ == floor_owner_spec(*task, *decision),
{
    match &decision.on {
        Some(on) => {
            proof {
                lemma_first_question(task.questions@, on@);
            }
            let q = find_question(&task.questions, on.as_str());
            match q {
                Some(i) => {
                    if task.questions[i].floor == decision.floor {
                        let r = joined("question ", task.questions[i].id.as_str());
                        return r;
                    }
                },
                None => {},
            }
            let r = joined("role::", task.role.as_str());
            r
        },
        None => joined("role::", task.role.as_str()),
    }
}

/// A whole-number percentage, if `value` is one.
pub open spec fn percentage_spec(value: i64) -> Option<u8> {
    if 0 <= value <= 100 {
        Some(value as u8)
    } else {
        None
    }
}

fn percentage(value: i64) -> (p: Option<u8>)
    ensures
        p == percentage_spec(value),
{
    if 0 <= value && value <= 100 {
        Some(value as u8)
    } else {
        None
    }
}

pub open spec fn strings(v: Seq<String>) -> Seq<Seq<char>> {
    v.map_values(|s: String| s@)
}

/// Whether no two options are the same.
pub open spec fn distinct(options: Seq<Seq<char>>) -> bool {
    forall|i: int, j: int| 0 <= i < j < options.len() ==> options[i] != options[j]
}

/// The kind of decision and its options: a yes-no question when no options are given.
pub open spec fn kind_and_options(options: Seq<Seq<char>>) -> (Seq<char>, Seq<Seq<char>>) {
    if options.len() == 0 {
        ("yes-no"@, seq!["yes"@, "no"@])
    } else {
        ("choice"@, options)
    }
}

/// Whether the options of a decision are at least two different, non-empty choices.
pub open spec fn valid_options(options: Seq<Seq<char>>) -> bool {
    distinct(options) && options.len() >= 2 && forall|i: int|
        0 <= i < options.len() ==> !all_blank(#[trigger] options[i])
}

pub open spec fn options_refusal(options: Seq<Seq<char>>) -> Seq<char> {
    "the options "@ + debug_quoted(join(options, ","@)) + " must be at least two different, non-empty choices"@
}

fn join_strings(parts: &Vec<String>, sep: &str) -> (s: String)
    ensures
        s@ == join(strings(parts@), sep@),
{
    let mut out = String::new();
    let mut i: usize = 0;
    while i < parts.len()
        invariant
            i <= parts.len(),
            out@ == join(strings(parts@).take(i as int), sep@),
        decreases parts.len() - i,
    {
        let ghost before = out@;
        if i > 0 {
            append(&mut out, sep);
        }
        append(&mut out, parts[i].as_str());
        proof {
            let t = strings(parts@).take(i + 1);
            assert(t.drop_last() =~= strings(parts@).take(i as int));
            assert(t.last() == parts@[i as int]@);
            if i == 0 {
                assert(t.len() == 1);
                assert(before =~= Seq::<char>::empty());
                assert(out@ =~= t[0]);
            }
        }
        i += 1;
    }
    assert(strings(parts@).take(parts@.len() as int) =~= strings(parts@));
    out
}

fn distinct_strings(v: &Vec<String>) -> (b: bool)
    ensures
        b == distinct(strings(v@)),
{
    let ghost s = strings(v@);
    let mut i: usize = 0;
    while i < v.len()
        invariant
            i <= v.len(),
            s == strings(v@),
            forall|a: int, b: int| 0 <= a < b < v.len() && a < i ==> s[a] != s[b],
        decreases v.len() - i,
    {
        let mut j: usize = i + 1;
        while j < v.len()
            invariant
                i < v.len(),
                i < j <= v.len(),
                s == strings(v@),
                forall|a: int, b: int| 0 <= a < b < v.len() && a < i ==> s[a] != s[b],
                forall|b: int| i < b < j ==> s[i as int] != s[b],
            decreases v.len() - j,
        {
            if str_eq(v[i].as_str(), v[j].as_str()) {
                assert(s[i as int] == s[j as int]);
                return false;
            }
            j += 1;
        }
        i += 1;
    }
    true
}

fn any_blank(v: &Vec<String>) -> (b: bool)
    ensures
        b == exists|i: int| 0 <= i < v@.len() && all_blank(#[trigger] strings(v@)[i]),
{
    let mut i: usize = 0;
    while i < v.len()
        invariant
            i <= v.len(),
            forall|k: int| 0 <= k < i ==> !all_blank(#[trigger] strings(v@)[k]),
        decreases v.len() - i,
    {
        assert(strings(v@)[i as int] == v@[i as int]@);
        if is_blank(v[i].as_str()) {
            return true;
        }
        i += 1;
    }
    false
}

/// The kind and options of a decision, or why its options are refused.
fn typed(options: Vec<String>) -> (r: Result<(&'static str, Vec<String>), String>)
    ensures
        ({
            let (kind, opts) = kind_and_options(strings(options@));
            if valid_options(opts) {
                r matches Ok((k, o)) && k@ == kind && strings(o@) == opts
            } else {
                r matches Err(m) && m@ == options_refusal(opts)
            }
        }),
{
    let (kind, options) = if options.len() == 0 {
        let v: Vec<String> = vec!["yes".to_owned(), "no".to_owned()];
        proof {
            reveal_strlit("yes");
            reveal_strlit("no");
            assert(strings(v@) =~= seq!["yes"@, "no"@]);
        }
        ("yes-no", v)
    } else {
        ("choice", options)
    };
    if !distinct_strings(&options) || options.len() < 2 || any_blank(&options) {
        let m = joined("the options ", quoted(join_strings(&options, ",").as_str()).as_str());
        let mut m = m;
        append(&mut m, " must be at least two different, non-empty choices");
        return Err(m);
    }
    Ok((kind, options))
}

/// A confirmation of records made during a carry.
#[derive(Clone, Debug)]
pub struct Confirmation {
    pub model: String,
    pub unix: u64,
}

/// Something the orchestrator did to the task, and who carried it then.
#[derive(Clone, Debug)]
pub struct OrchestratorRecord {
    pub verb: String,
    pub model: Option<String>,
    pub unix: u64,
    pub carried_by: Option<String>,
    pub confirmed: Option<Confirmation>,
}

impl OrchestratorRecord {
    /// Whether it was recorded while a role carried the task.
    pub fn during_carry(&self) -> (b: bool)
        ensures
            b == (self.carried_by is Some),
    {
        self.carried_by.is_some()
    }

    /// Whether it was recorded during a carry and nobody has confirmed it since.
    pub fn unconfirmed(&self) -> (b: bool)
        ensures
            b == unconfirmed_spec(*self),
    {
        self.during_carry() && self.confirmed.is_none()
    }
}

pub open spec fn unconfirmed_spec(r: OrchestratorRecord) -> bool {
    r.carried_by is Some && r.confirmed is None
}

/// How often a model's picks held when the orchestrator answered them.
#[derive(Clone, Debug)]
pub struct Calibration {
    pub model: String,
    pub answered: usize,
    pub held: usize,
    pub overruled: usize,
    pub mean_confidence: u8,
    pub asked: usize,
}

/// Who accepted the task (or its result), when, and what had changed by then.
#[derive(Clone, Debug)]
pub struct Acceptance {
    pub model: String,
    pub unix: u64,
    pub changed_at_acceptance: Option<Vec<String>>,
}

#[derive(Clone, Debug)]
pub struct Assessment {
    pub ruling: String,
    pub statement: String,
    pub unix: u64,
}

#[derive(Clone, Debug)]
pub struct Exception {
    pub model: String,
    pub reason: String,
    pub approval: Option<String>,
}

/// A run of the task's check: its exit, and the digests of the inputs it saw.
#[derive(Clone, Debug)]
pub struct Evidence {
    pub check: String,
    pub exit: i32,
    pub tree: String,
    pub tool: String,
    pub unix: u64,
    pub inputs: Vec<(String, Option<String>)>,
    pub command: Option<Vec<String>>,
    pub log: Option<String>,
}

#[derive(Clone, Debug)]
pub struct ChallengeReceipt {
    pub fingerprint: String,
    pub unix: u64,
}

#[derive(Clone, Debug)]
pub struct Note {
    pub statement: String,
    pub unix: u64,
}

/// Who changed a path: the task, concurrent work, or nobody knows.
#[derive(Clone, Debug)]
pub struct Attribution {
    pub path: String,
    pub kind: String,
    pub digest: Option<String>,
    pub model: Option<String>,
}

/// What a task resolves to for its carrier.
#[derive(Clone, Debug)]
pub struct Resolution {
    pub models: Vec<String>,
    pub lenses: Vec<String>,
    pub requirements: Vec<String>,
    pub verification: String,
}

/// Whether the task's evidence supports a handback.
#[derive(Clone, Copy, Debug)]
pub struct Readiness {
    pub recorded: bool,
    pub current: bool,
    pub answers_declared_check: bool,
    pub supported: bool,
}

#[derive(Clone, Debug)]
pub struct RemovedDeliverable {
    pub path: String,
    pub reason: String,
    pub unix: u64,
}

/// A task: its scope and deliverables, its state, and what was recorded along the way.
#[derive(Debug)]
pub struct Task {
    pub name: String,
    pub role: String,
    pub statement: String,
    pub scope: Vec<String>,
    pub deliverables: Vec<Deliverable>,
    pub findings: Vec<Finding>,
    pub opened_unix: u64,
    pub closed_unix: Option<u64>,
    pub opened_tree: Tree,
    pub state: String,
    pub check: Option<String>,
    pub check_argv: Option<Vec<String>>,
    pub check_inputs: Vec<String>,
    pub accepted: Option<Acceptance>,
    pub result: Option<Acceptance>,
    pub assessments: Vec<Assessment>,
    pub exceptions: Vec<Exception>,
    pub evidence: Vec<Evidence>,
    pub challenged: Option<ChallengeReceipt>,
    pub attributions: Vec<Attribution>,
    pub build: Option<String>,
    pub notes: Vec<Note>,
    pub removed_deliverables: Vec<RemovedDeliverable>,
    pub closed_paths: Tree,
    pub questions: Vec<AskedQuestion>,
    pub decisions: Vec<Decision>,
    pub orchestrator_records: Vec<OrchestratorRecord>,
    pub goal: Option<String>,
}

/// Whether `task` is the empty task that a new record starts from.
pub open spec fn is_blank_task(task: Task) -> bool {
    &&& task.name@ == Seq::<char>::empty()
    &&& task.role@ == Seq::<char>::empty()
    &&& task.statement@ == Seq::<char>::empty()
    &&& task.scope@.len() == 0
    &&& task.deliverables@.len() == 0
    &&& task.findings@.len() == 0
    &&& task.opened_unix == 0
    &&& task.closed_unix is None
    &&& task.opened_tree@.len() == 0
    &&& task.state@ == "open"@
    &&& task.check is None
    &&& task.check_argv is None
    &&& task.check_inputs@.len() == 0
    &&& task.accepted is None
    &&& task.result is None
    &&& task.assessments@.len() == 0
    &&& task.exceptions@.len() == 0
    &&& task.evidence@.len() == 0
    &&& task.challenged is None
    &&& task.attributions@.len() == 0
    &&& task.build is None
    &&& task.notes@.len() == 0
    &&& task.removed_deliverables@.len() == 0
    &&& task.closed_paths@.len() == 0
    &&& task.questions@.len() == 0
    &&& task.decisions@.len() == 0
    &&& task.orchestrator_records@.len() == 0
    &&& task.goal is None
}

impl Default for Task {
    fn default() -> (task: Task)
        ensures
            is_blank_task(task),
    {
        Task {
            name: String::new(),
            role: String::new(),
            statement: String::new(),
            scope: Vec::new(),
            deliverables: Vec::new(),
            findings: Vec::new(),
            opened_unix: 0,
            closed_unix: None,
            opened_tree: Tree::new(),
            state: "open".to_owned(),
            check: None,
            check_argv: None,
            check_inputs: Vec::new(),
            accepted: None,
            result: None,
            assessments: Vec::new(),
            exceptions: Vec::new(),
            evidence: Vec::new(),
            challenged: None,
            attributions: Vec::new(),
            build: None,
            notes: Vec::new(),
            removed_deliverables: Vec::new(),
            closed_paths: Tree::new(),
            questions: Vec::new(),
            decisions: Vec::new(),
            orchestrator_records: Vec::new(),
            goal: None,
        }
    }
}

// ---------------------------------------------------------------------------------------
// Scope.
// ---------------------------------------------------------------------------------------

/// `s` without its trailing slashes.
pub open spec fn strip_slashes(s: Seq<char>) -> Seq<char>
    decreases s.len(),
{
    if s.len() > 0 && s.last() == '/' {
        strip_slashes(s.drop_last())
    } else {
        s
    }
}

/// Whether the scope entry `allowed` covers `path`: the same path, or a path under it.
pub open spec fn covers_spec(allowed: Seq<char>, path: Seq<char>) -> bool {
    let a = strip_slashes(allowed);
    path == a || (path.len() > a.len() && path.take(a.len() as int) == a && path[a.len() as int] == '/')
}

proof fn lemma_strip_slashes(s: Seq<char>)
    ensures
        strip_slashes(s).len() <= s.len(),
        s.take(strip_slashes(s).len() as int) == strip_slashes(s),
    decreases s.len(),
{
    if s.len() > 0 && s.last() == '/' {
        lemma_strip_slashes(s.drop_last());
        let t = strip_slashes(s.drop_last());
        assert(s.drop_last().take(t.len() as int) =~= s.take(t.len() as int));
    } else {
        assert(s.take(s.len() as int) =~= s);
    }
}

/// Whether the scope entry `allowed` covers `path`.
pub fn covers(allowed: &str, path: &str) -> (b: bool)
    ensures
        b == covers_spec(allowed@, path@),
{
    let a = crate::text::chars_of(allowed);
    let p = crate::text::chars_of(path);
    let mut n = a.len();
    proof {
        lemma_strip_slashes(a@);
    }
    assert(a@.take(n as int) =~= a@);
    while n > 0 && a[n - 1] == '/'
        invariant
            n <= a.len(),
            a@ == allowed@,
            strip_slashes(a@) == strip_slashes(a@.take(n as int)),
        decreases n,
    {
        assert(a@.take(n as int).drop_last() =~= a@.take(n - 1));
        n -= 1;
    }
    let ghost stripped = a@.take(n as int);
    assert(strip_slashes(stripped) == stripped);
    if p.len() < n {
        assert(p@ != stripped);
        return false;
    }
    let mut i: usize = 0;
    while i < n
        invariant
            i <= n <= a.len(),
            n <= p.len(),
            stripped == a@.take(n as int),
            strip_slashes(allowed@) == stripped,
            p@ == path@,
            forall|k: int| 0 <= k < i ==> p@[k] == a@[k],
        decreases n - i,
    {
        if p[i] != a[i] {
            assert(p@.take(n as int)[i as int] != stripped[i as int]);
            assert(p@ != stripped);
            return false;
        }
        i += 1;
    }
    assert(p@.take(n as int) =~= stripped);
    if p.len() == n {
        assert(p@ =~= stripped);
        true
    } else {
        assert(p@ != stripped);
        p[n] == '/'
    }
}

/// Whether some entry of `scope` covers `path`.
pub open spec fn in_scope_spec(scope: Seq<String>, path: Seq<char>) -> bool {
    exists|i: int| 0 <= i < scope.len() && covers_spec((#[trigger] scope[i])@, path)
}

fn any_covers(entries: &Vec<String>, path: &str) -> (b: bool)
    ensures
        b == in_scope_spec(entries@, path@),
{
    let mut i: usize = 0;
    while i < entries.len()
        invariant
            i <= entries.len(),
            forall|k: int| 0 <= k < i ==> !covers_spec((#[trigger] entries@[k])@, path@),
        decreases entries.len() - i,
    {
        if covers(entries[i].as_str(), path) {
            return true;
        }
        i += 1;
    }
    false
}

pub open spec fn max_finding_id(fs: Seq<Finding>) -> nat
    decreases fs.len(),
{
    if fs.len() == 0 {
        0
    } else if max_finding_id(fs.drop_last()) >= fs.last().id {
        max_finding_id(fs.drop_last())
    } else {
        fs.last().id as nat
    }
}

pub open spec fn max_decision_id(ds: Seq<Decision>) -> nat
    decreases ds.len(),
{
    if ds.len() == 0 {
        0
    } else if max_decision_id(ds.drop_last()) >= ds.last().id {
        max_decision_id(ds.drop_last())
    } else {
        ds.last().id as nat
    }
}

proof fn lemma_max_finding_id(fs: Seq<Finding>)
    ensures
        max_finding_id(fs) == 0 || exists|i: int| 0 <= i < fs.len() && fs[i].id == max_finding_id(fs),
    decreases fs.len(),
{
    if fs.len() > 0 {
        lemma_max_finding_id(fs.drop_last());
        if max_finding_id(fs.drop_last()) >= fs.last().id && max_finding_id(fs) != 0 {
            let i = choose|i: int| 0 <= i < fs.drop_last().len() && fs.drop_last()[i].id == max_finding_id(fs.drop_last());
            assert(fs[i] == fs.drop_last()[i]);
        } else {
            assert(fs[fs.len() - 1] == fs.last());
        }
    }
}

proof fn lemma_max_decision_id(ds: Seq<Decision>)
    ensures
        max_decision_id(ds) == 0 || exists|i: int| 0 <= i < ds.len() && ds[i].id == max_decision_id(ds),
    decreases ds.len(),
{
    if ds.len() > 0 {
        lemma_max_decision_id(ds.drop_last());
        if max_decision_id(ds.drop_last()) >= ds.last().id && max_decision_id(ds) != 0 {
            let i = choose|i: int| 0 <= i < ds.drop_last().len() && ds.drop_last()[i].id == max_decision_id(ds.drop_last());
            assert(ds[i] == ds.drop_last()[i]);
        } else {
            assert(ds[ds.len() - 1] == ds.last());
        }
    }
}

/// Whether every decision id leaves room for one more.
pub open spec fn decision_ids_bounded(ds: Seq<Decision>) -> bool {
    forall|i: int| 0 <= i < ds.len() ==> (#[trigger] ds[i]).id < usize::MAX
}

/// Whether every finding id leaves room for one more.
pub open spec fn finding_ids_bounded(fs: Seq<Finding>) -> bool {
    forall|i: int| 0 <= i < fs.len() ==> (#[trigger] fs[i]).id < usize::MAX
}

fn next_decision_id(ds: &Vec<Decision>) -> (id: usize)
    requires
        decision_ids_bounded(ds@),
    ensures
        id == max_decision_id(ds@) + 1,
{
    let mut best: usize = 0;
    let mut i: usize = 0;
    while i < ds.len()
        invariant
            i <= ds.len(),
            decision_ids_bounded(ds@),
            best == max_decision_id(ds@.take(i as int)),
            best < usize::MAX,
        decreases ds.len() - i,
    {
        assert(ds@.take(i + 1).drop_last() =~= ds@.take(i as int));
        if ds[i].id > best {
            best = ds[i].id;
        }
        i += 1;
    }
    assert(ds@.take(ds@.len() as int) =~= ds@);
    best + 1
}

impl Task {
    /// Whether the task is not closed.
    pub fn open(&self) -> (b: bool)
        ensures
            b == (self.state@ != "closed"@),
    {
        !str_eq(self.state.as_str(), "closed")
    }

    /// Whether the task declares a check, by name or by command.
    pub fn declares_check(&self) -> (b: bool)
        ensures
            b == (self.check is Some || self.check_argv is Some),
    {
        self.check.is_some() || self.check_argv.is_some()
    }

    /// The findings that are not resolved, in order.
    pub fn unresolved(&self) -> (r: Vec<&Finding>)
        ensures
            r@.map_values(|f: &Finding| *f) == self.findings@.filter(|f: Finding| f.resolution is None),
    {
        let mut out: Vec<&Finding> = Vec::new();
        let mut i: usize = 0;
        while i < self.findings.len()
            invariant
                i <= self.findings.len(),
                out@.map_values(|f: &Finding| *f) == self.findings@.take(i as int).filter(
                    |f: Finding| f.resolution is None,
                ),
            decreases self.findings.len() - i,
        {
            let ghost before = out@.map_values(|f: &Finding| *f);
            proof {
                reveal(Seq::filter);
                assert(self.findings@.take(i + 1).drop_last() =~= self.findings@.take(i as int));
            }
            if self.findings[i].resolution.is_none() {
                out.push(&self.findings[i]);
                assert(out@.map_values(|f: &Finding| *f) =~= before.push(self.findings@[i as int]));
            }
            i += 1;
        }
        assert(self.findings@.take(self.findings@.len() as int) =~= self.findings@);
        out
    }

    /// The unresolved findings that nobody has addressed, in order.
    pub fn blocking(&self) -> (r: Vec<&Finding>)
        ensures
            r@.map_values(|f: &Finding| *f) == self.findings@.filter(
                |f: Finding| f.resolution is None && f.addressed is None,
            ),
    {
        let mut out: Vec<&Finding> = Vec::new();
        let mut i: usize = 0;
        while i < self.findings.len()
            invariant
                i <= self.findings.len(),
                out@.map_values(|f: &Finding| *f) == self.findings@.take(i as int).filter(
                    |f: Finding| f.resolution is None && f.addressed is None,
                ),
            decreases self.findings.len() - i,
        {
            let ghost before = out@.map_values(|f: &Finding| *f);
            proof {
                reveal(Seq::filter);
                assert(self.findings@.take(i + 1).drop_last() =~= self.findings@.take(i as int));
            }
            if self.findings[i].resolution.is_none() && self.findings[i].addressed.is_none() {
                out.push(&self.findings[i]);
                assert(out@.map_values(|f: &Finding| *f) =~= before.push(self.findings@[i as int]));
            }
            i += 1;
        }
        assert(self.findings@.take(self.findings@.len() as int) =~= self.findings@);
        out
    }

    /// The id the next finding takes: one more than the largest so far.
    pub fn next_finding_id(&self) -> (id: usize)
        requires
            finding_ids_bounded(self.findings@),
        ensures
            id == max_finding_id(self.findings@) + 1,
    {
        let mut best: usize = 0;
        let mut i: usize = 0;
        while i < self.findings.len()
            invariant
                i <= self.findings.len(),
                finding_ids_bounded(self.findings@),
                best == max_finding_id(self.findings@.take(i as int)),
                best < usize::MAX,
            decreases self.findings.len() - i,
        {
            assert(self.findings@.take(i + 1).drop_last() =~= self.findings@.take(i as int));
            if self.findings[i].id > best {
                best = self.findings[i].id;
            }
            i += 1;
        }
        assert(self.findings@.take(self.findings@.len() as int) =~= self.findings@);
        best + 1
    }

    /// Whether the task's scope covers `path`.
    pub fn in_scope(&self, path: &str) -> (b: bool)
        ensures
            b == in_scope_spec(self.scope@, path@),
    {
        any_covers(&self.scope, path)
    }

    /// The orchestrator's records made while a role carried the task, in order.
    pub fn recorded_during_carry(&self) -> (r: Vec<&OrchestratorRecord>)
        ensures
            r@.map_values(|x: &OrchestratorRecord| *x) == self.orchestrator_records@.filter(
                |x: OrchestratorRecord| x.carried_by is Some,
            ),
    {
        let mut out: Vec<&OrchestratorRecord> = Vec::new();
        let mut i: usize = 0;
        while i < self.orchestrator_records.len()
            invariant
                i <= self.orchestrator_records.len(),
                out@.map_values(|x: &OrchestratorRecord| *x) == self.orchestrator_records@.take(
                    i as int,
                ).filter(|x: OrchestratorRecord| x.carried_by is Some),
            decreases self.orchestrator_records.len() - i,
        {
            let ghost before = out@.map_values(|x: &OrchestratorRecord| *x);
            proof {
                reveal(Seq::filter);
                assert(self.orchestrator_records@.take(i + 1).drop_last()
                    =~= self.orchestrator_records@.take(i as int));
            }
            if self.orchestrator_records[i].during_carry() {
                out.push(&self.orchestrator_records[i]);
                assert(out@.map_values(|x: &OrchestratorRecord| *x) =~= before.push(
                    self.orchestrator_records@[i as int],
                ));
            }
            i += 1;
        }
        assert(self.orchestrator_records@.take(self.orchestrator_records@.len() as int)
            =~= self.orchestrator_records@);
        out
    }

    /// The orchestrator's records made during a carry that nobody has confirmed, in order.
    pub fn unconfirmed_during_carry(&self) -> (r: Vec<&OrchestratorRecord>)
        ensures
            r@.map_values(|x: &OrchestratorRecord| *x) == self.orchestrator_records@.filter(
                |x: OrchestratorRecord| unconfirmed_spec(x),
            ),
    {
        let mut out: Vec<&OrchestratorRecord> = Vec::new();
        let mut i: usize = 0;
        while i < self.orchestrator_records.len()
            invariant
                i <= self.orchestrator_records.len(),
                out@.map_values(|x: &OrchestratorRecord| *x) == self.orchestrator_records@.take(
                    i as int,
                ).filter(|x: OrchestratorRecord| unconfirmed_spec(x)),
            decreases self.orchestrator_records.len() - i,
        {
            let ghost before = out@.map_values(|x: &OrchestratorRecord| *x);
            proof {
                reveal(Seq::filter);
                assert(self.orchestrator_records@.take(i + 1).drop_last()
                    =~= self.orchestrator_records@.take(i as int));
            }
            if self.orchestrator_records[i].unconfirmed() {
                out.push(&self.orchestrator_records[i]);
                assert(out@.map_values(|x: &OrchestratorRecord| *x) =~= before.push(
                    self.orchestrator_records@[i as int],
                ));
            }
            i += 1;
        }
        assert(self.orchestrator_records@.take(self.orchestrator_records@.len() as int)
            =~= self.orchestrator_records@);
        out
    }

    /// The questions that no decision has picked yet, in order.
    pub fn unpicked(&self) -> (r: Vec<&AskedQuestion>)
        ensures
            r@.map_values(|q: &AskedQuestion| *q) == unpicked_spec(*self),
    {
        let mut out: Vec<&AskedQuestion> = Vec::new();
        let mut i: usize = 0;
        while i < self.questions.len()
            invariant
                i <= self.questions.len(),
                out@.map_values(|q: &AskedQuestion| *q) == self.questions@.take(i as int).filter(
                    |q: AskedQuestion| first_pick(self.decisions@, q.id@) is None,
                ),
            decreases self.questions.len() - i,
        {
            let ghost before = out@.map_values(|q: &AskedQuestion| *q);
            proof {
                reveal(Seq::filter);
                assert(self.questions@.take(i + 1).drop_last() =~= self.questions@.take(i as int));
            }
            if picked_by(self, self.questions[i].id.as_str()).is_none() {
                out.push(&self.questions[i]);
                assert(out@.map_values(|q: &AskedQuestion| *q) =~= before.push(self.questions@[i as int]));
            }
            i += 1;
        }
        assert(self.questions@.take(self.questions@.len() as int) =~= self.questions@);
        out
    }
}

/// The questions of `task` that no decision has picked, in order.
pub open spec fn unpicked_spec(task: Task) -> Seq<AskedQuestion> {
    task.questions@.filter(|q: AskedQuestion| first_pick(task.decisions@, q.id@) is None)
}

/// Whether a task may be recorded under a name: only when none is recorded there.
pub fn replaceable(existing: Option<&Task>) -> (b: bool)
    ensures
        b == (existing is None),
{
    existing.is_none()
}

// ---------------------------------------------------------------------------------------
// The life of a task.
// ---------------------------------------------------------------------------------------

/// The moves between task states.
pub open spec fn transition_spec(from: Seq<char>, to: Seq<char>) -> bool {
    (from == "open"@ && to == "accepted"@) || (from == "accepted"@ && to == "accepted"@) || (from
        == "accepted"@ && to == "blocked"@) || (from == "accepted"@ && to == "ready"@) || (from
        == "blocked"@ && to == "accepted"@) || (from == "ready"@ && to == "accepted"@) || (from
        == "ready"@ && to == "closed"@)
}

/// Whether a task may move from state `from` to state `to`.
pub fn transition(from: &str, to: &str) -> (b: bool)
    ensures
        b == transition_spec(from@, to@),
{
    (str_eq(from, "open") && str_eq(to, "accepted")) || (str_eq(from, "accepted") && str_eq(
        to,
        "accepted",
    )) || (str_eq(from, "accepted") && str_eq(to, "blocked")) || (str_eq(from, "accepted")
        && str_eq(to, "ready")) || (str_eq(from, "blocked") && str_eq(to, "accepted")) || (str_eq(
        from,
        "ready",
    ) && str_eq(to, "accepted")) || (str_eq(from, "ready") && str_eq(to, "closed"))
}

/// Whether `apply` moves `task` to `to`: a legal move other than to ready, and not back to
/// accepted while a decision blocks the task.
pub open spec fn applies_spec(task: Task, to: Seq<char>) -> bool {
    to != "ready"@ && transition_spec(task.state@, to) && !(to == "accepted"@ && first_block(
        task.decisions@,
    ) is Some)
}

/// `task` once moved to state `to`: a move to accepted or blocked drops the challenge receipt.
pub open spec fn moved(task: Task, state: String, to: Seq<char>) -> Task {
    Task {
        state,
        challenged: if to == "accepted"@ || to == "blocked"@ {
            None
        } else {
            task.challenged
        },
        ..task
    }
}

/// Moves the task to state `to` where that is allowed; says whether it moved.
pub fn apply(task: &mut Task, to: &str) -> (moved_to: bool)
    ensures
        moved_to == applies_spec(*old(task), to@),
        moved_to ==> *final(task) == moved(*old(task), final(task).state, to@) && final(task).state@
            == to@,
        !moved_to ==> *final(task) == *old(task),
{
    if str_eq(to, "ready") || !transition(task.state.as_str(), to) || (str_eq(to, "accepted")
        && unanswered_decision(task).is_some()) {
        return false;
    }
    task.state = to.to_owned();
    if str_eq(to, "accepted") || str_eq(to, "blocked") {
        task.challenged = None;
    }
    true
}

/// The role that carries the task: whoever accepted it, while it is accepted.
pub open spec fn carrier_spec(task: Task) -> Option<Seq<char>> {
    if task.state@ == "accepted"@ {
        match task.accepted {
            Some(a) => Some(a.model@),
            None => None,
        }
    } else {
        None
    }
}

/// The model that carries the task, if it is accepted.
pub fn carrier(task: &Task) -> (c: Option<&str>)
    ensures
        match carrier_spec(*task) {
            Some(m) => c matches Some(x) && x@ == m,
            None => c is None,
        },
{
    if !str_eq(task.state.as_str(), "accepted") {
        return None;
    }
    match &task.accepted {
        Some(acceptance) => Some(acceptance.model.as_str()),
        None => None,
    }
}

/// Records something the orchestrator did, and who carried the task then.
pub fn attest(task: &mut Task, verb: &str, model: Option<&str>, unix: u64)
    ensures
        final(task).orchestrator_records@.len() == old(task).orchestrator_records@.len() + 1,
        final(task).orchestrator_records@.drop_last() == old(task).orchestrator_records@,
        ({
            let r = final(task).orchestrator_records@.last();
            &&& r.verb@ == verb@
            &&& (match model {
                Some(m) => r.model matches Some(x) && x@ == m@,
                None => r.model is None,
            })
            &&& r.unix == unix
            &&& (match carrier_spec(*old(task)) {
                Some(c) => r.carried_by matches Some(x) && x@ == c,
                None => r.carried_by is None,
            })
            &&& r.confirmed is None
        }),
        *final(task) == with_records(*old(task), final(task).orchestrator_records),
{
    let carried_by = match carrier(task) {
        Some(c) => Some(c.to_owned()),
        None => None,
    };
    let model = match model {
        Some(m) => Some(m.to_owned()),
        None => None,
    };
    let record = OrchestratorRecord { verb: verb.to_owned(), model, unix, carried_by, confirmed: None };
    task.orchestrator_records.push(record);
    assert(task.orchestrator_records@.drop_last() =~= old(task).orchestrator_records@);
}

/// `task` with its orchestrator records replaced.
pub open spec fn with_records(task: Task, records: Vec<OrchestratorRecord>) -> Task {
    Task { orchestrator_records: records, ..task }
}

/// Whether `after` is `before` once a confirmation run by `model` at `unix` has passed over it.
pub open spec fn confirmed_record(before: OrchestratorRecord, after: OrchestratorRecord, model: Seq<char>, unix: u64) -> bool {
    if unconfirmed_spec(before) {
        &&& after == OrchestratorRecord { confirmed: after.confirmed, ..before }
        &&& after.confirmed matches Some(c) && c.model@ == model && c.unix == unix
    } else {
        after == before
    }
}

/// How many records were made during a carry and never confirmed.
pub open spec fn count_unconfirmed(records: Seq<OrchestratorRecord>) -> nat
    decreases records.len(),
{
    if records.len() == 0 {
        0
    } else {
        count_unconfirmed(records.drop_last()) + if unconfirmed_spec(records.last()) {
            1nat
        } else {
            0nat
        }
    }
}

pub open spec fn carrier_refusal(task: Task, c: Seq<char>) -> Seq<char> {
    "task "@ + debug_quoted(task.name@) + " is carried by "@ + c
        + ", and the carrying role cannot confirm records from its own carry; the orchestrator confirms them after "@
        + c + " hands the task back with task ready or task block"@
}

/// Confirms the records made during a carry; refused while a role still carries the task.
pub fn confirm(task: &mut Task, model: &str, unix: u64) -> (r: Result<usize, String>)
    ensures
        match carrier_spec(*old(task)) {
            Some(c) => r matches Err(m) && m@ == carrier_refusal(*old(task), c) && *final(task)
                == *old(task),
            None => r matches Ok(n) && n == count_unconfirmed(old(task).orchestrator_records@)
                && final(task).orchestrator_records@.len() == old(task).orchestrator_records@.len()
                && (forall|i: int|
                0 <= i < old(task).orchestrator_records@.len() ==> confirmed_record(
                    #[trigger] old(task).orchestrator_records@[i],
                    final(task).orchestrator_records@[i],
                    model@,
                    unix,
                )) && *final(task) == with_records(*old(task), final(task).orchestrator_records),
        },
{
    match carrier(task) {
        Some(c) => {
            let mut m = joined("task ", quoted(task.name.as_str()).as_str());
            append(&mut m, " is carried by ");
            append(&mut m, c);
            append(&mut m, ", and the carrying role cannot confirm records from its own carry; the orchestrator confirms them after ");
            append(&mut m, c);
            append(&mut m, " hands the task back with task ready or task block");
            return Err(m);
        },
        None => {},
    }
    let mut confirmed: usize = 0;
    let mut i: usize = 0;
    let ghost all = task.orchestrator_records@;
    while i < task.orchestrator_records.len()
        invariant
            i <= task.orchestrator_records.len(),
            task.orchestrator_records@.len() == all.len(),
            all == old(task).orchestrator_records@,
            confirmed == count_unconfirmed(all.take(i as int)),
            confirmed <= i,
            forall|k: int| i <= k < all.len() ==> task.orchestrator_records@[k] == all[k],
            forall|k: int|
                0 <= k < i ==> confirmed_record(#[trigger] all[k], task.orchestrator_records@[k], model@, unix),
            *task == with_records(*old(task), task.orchestrator_records),
        decreases all.len() - i,
    {
        proof {
            assert(all.take(i + 1).drop_last() =~= all.take(i as int));
        }
        if task.orchestrator_records[i].unconfirmed() {
            task.orchestrator_records[i].confirmed = Some(Confirmation { model: model.to_owned(), unix });
            confirmed += 1;
        }
        i += 1;
    }
    assert(all.take(all.len() as int) =~= all);
    Ok(confirmed)
}

// ---------------------------------------------------------------------------------------
// Questions and decisions.
// ---------------------------------------------------------------------------------------

fn contains_string(v: &Vec<String>, x: &str) -> (b: bool)
    ensures
        b == strings(v@).contains(x@),
{
    let mut i: usize = 0;
    while i < v.len()
        invariant
            i <= v.len(),
            forall|k: int| 0 <= k < i ==> strings(v@)[k] != x@,
        decreases v.len() - i,
    {
        if str_eq(v[i].as_str(), x) {
            assert(strings(v@)[i as int] == x@);
            return true;
        }
        i += 1;
    }
    false
}

/// Why a decision cannot be recorded on `task`, or `None` when it can.
pub open spec fn decision_refusal(
    task: Task,
    question: Seq<char>,
    options: Seq<Seq<char>>,
    pick: Seq<char>,
    confidence: i64,
) -> Option<Seq<char>> {
    match first_block(task.decisions@) {
        Some(i) => Some(
            "task "@ + debug_quoted(task.name@) + " is BLOCKED on decision "@ + decimal(
                task.decisions@[i].id as nat,
            ) + ": "@ + task.decisions@[i].question@
                + "; a blocked task takes no decision until the orchestrator answers it"@,
        ),
        None => if task.state@ != "accepted"@ || task.accepted is None {
            Some(
                "task "@ + debug_quoted(task.name@) + " is "@ + crate::text::ascii_upper(task.state@)
                    + "; a decision is recorded once the task is accepted"@,
            )
        } else if all_blank(question) {
            Some("the question is empty; state the call you are unsure of"@)
        } else {
            let (kind, opts) = kind_and_options(options);
            if !valid_options(opts) {
                Some(options_refusal(opts))
            } else if !opts.contains(pick) {
                Some("pick "@ + debug_quoted(pick) + " is not one of the options: "@ + join(opts, ", "@))
            } else if percentage_spec(confidence) is None {
                Some(
                    "confidence "@ + crate::text::signed_decimal(confidence as int)
                        + " is outside 0..100; state it as a whole-number percentage"@,
                )
            } else {
                None
            }
        },
    }
}

/// Whether `d` is the decision recorded on `task` for a question, an options list, a pick, a
/// confidence, a model, a floor and the question it answers.
pub open spec fn recorded_decision(
    task: Task,
    d: Decision,
    question: Seq<char>,
    options: Seq<Seq<char>>,
    pick: Seq<char>,
    confidence: i64,
    model: Seq<char>,
    floor: u8,
    on: Option<Seq<char>>,
) -> bool {
    let (kind, opts) = kind_and_options(options);
    &&& d.id == max_decision_id(task.decisions@) + 1
    &&& d.question@ == question
    &&& d.kind@ == kind
    &&& strings(d.options@) == opts
    &&& d.pick@ == pick
    &&& d.confidence as int == confidence as int
    &&& d.model@ == model
    &&& d.floor == floor
    &&& d.below_floor == (confidence < floor)
    &&& d.answer is None
    &&& (match on {
        Some(x) => d.on matches Some(y) && y@ == x,
        None => d.on is None,
    })
}

/// `task` once decision `d` is recorded: a decision below its floor blocks the task.
pub open spec fn after_decision(task: Task, decisions: Vec<Decision>, state: String, blocked: bool) -> Task {
    if blocked {
        Task { decisions, state, challenged: None, ..task }
    } else {
        Task { decisions, ..task }
    }
}

fn record_decision(task: &mut Task, asked: Question, floor: u8, on: Option<String>) -> (r: Result<&Decision, String>)
    requires
        decision_ids_bounded(old(task).decisions@),
    ensures
        match decision_refusal(*old(task), asked.question@, strings(asked.options@), asked.pick@, asked.confidence) {
            Some(m) => r matches Err(e) && e@ == m && *final(task) == *old(task),
            None => r matches Ok(d) && recorded_decision(
                *old(task),
                *d,
                asked.question@,
                strings(asked.options@),
                asked.pick@,
                asked.confidence,
                asked.model@,
                floor,
                match on {
                    Some(x) => Some(x@),
                    None => None,
                },
            ) && final(task).decisions@ == old(task).decisions@.push(*d) && *final(task)
                == after_decision(*old(task), final(task).decisions, final(task).state, d.below_floor)
                && (d.below_floor ==> final(task).state@ == "blocked"@),
        },
{
    proof {
        lemma_first_block(task.decisions@);
    }
    match unanswered_decision(task) {
        Some(blocking) => {
            let mut m = joined("task ", quoted(task.name.as_str()).as_str());
            append(&mut m, " is BLOCKED on decision ");
            append(&mut m, decimal_text(blocking.id as u64).as_str());
            append(&mut m, ": ");
            append(&mut m, blocking.question.as_str());
            append(&mut m, "; a blocked task takes no decision until the orchestrator answers it");
            return Err(m);
        },
        None => {},
    }
    if !str_eq(task.state.as_str(), "accepted") || task.accepted.is_none() {
        let mut m = joined("task ", quoted(task.name.as_str()).as_str());
        append(&mut m, " is ");
        append(&mut m, crate::text::to_ascii_upper(task.state.as_str()).as_str());
        append(&mut m, "; a decision is recorded once the task is accepted");
        return Err(m);
    }
    if is_blank(asked.question.as_str()) {
        return Err("the question is empty; state the call you are unsure of".to_owned());
    }
    let (kind, options) = match typed(asked.options) {
        Ok(t) => t,
        Err(m) => {
            return Err(m);
        },
    };
    if !contains_string(&options, asked.pick.as_str()) {
        let mut m = joined("pick ", quoted(asked.pick.as_str()).as_str());
        append(&mut m, " is not one of the options: ");
        append(&mut m, join_strings(&options, ", ").as_str());
        return Err(m);
    }
    let confidence = match percentage(asked.confidence) {
        Some(c) => c,
        None => {
            let mut m = joined("confidence ", crate::text::signed_decimal_text(asked.confidence).as_str());
            append(&mut m, " is outside 0..100; state it as a whole-number percentage");
            return Err(m);
        },
    };
    let id = next_decision_id(&task.decisions);
    let below_floor = confidence < floor;
    let decision = Decision {
        id,
        question: asked.question,
        kind: kind.to_owned(),
        options,
        pick: asked.pick,
        confidence,
        model: asked.model,
        floor,
        below_floor,
        answer: None,
        on,
    };
    task.decisions.push(decision);
    if below_floor {
        let ghost before = *task;
        proof {
            lemma_first_block(task.decisions@);
        }
        proof {
            reveal_strlit("blocked");
            reveal_strlit("accepted");
            reveal_strlit("ready");
        }
        assert(task.state@ == "accepted"@);
        assert(transition_spec(task.state@, "blocked"@));
        assert("blocked"@.len() != "ready"@.len());
        assert("blocked"@[0] != "accepted"@[0]);
        assert(applies_spec(*task, "blocked"@));
        let moved = apply(task, "blocked");
        assert(moved);
    }
    let n = task.decisions.len();
    Ok(&task.decisions[n - 1])
}

/// Records a decision of the carrying role that answers no asked question.
pub fn decide(task: &mut Task, asked: Question, floor: u8) -> (r: Result<&Decision, String>)
    requires
        decision_ids_bounded(old(task).decisions@),
    ensures
        match decision_refusal(*old(task), asked.question@, strings(asked.options@), asked.pick@, asked.confidence) {
            Some(m) => r matches Err(e) && e@ == m && *final(task) == *old(task),
            None => r matches Ok(d) && recorded_decision(
                *old(task),
                *d,
                asked.question@,
                strings(asked.options@),
                asked.pick@,
                asked.confidence,
                asked.model@,
                floor,
                None,
            ) && final(task).decisions@ == old(task).decisions@.push(*d) && *final(task)
                == after_decision(*old(task), final(task).decisions, final(task).state, d.below_floor)
                && (d.below_floor ==> final(task).state@ == "blocked"@),
        },
{
    record_decision(task, asked, floor, None)
}

/// Why a question cannot be asked of `task`, or the floor it is measured against.
pub open spec fn ask_outcome(
    task: Task,
    question: Seq<char>,
    options: Seq<Seq<char>>,
    floor: Option<i64>,
    model: Seq<char>,
    role_floor: u8,
    orchestrator: Seq<Seq<char>>,
) -> Result<u8, Seq<char>> {
    if task.state@ == "closed"@ {
        Err("task "@ + debug_quoted(task.name@) + " is CLOSED; a question is asked of a task that is not closed"@)
    } else if orchestrator.len() > 0 && !orchestrator.contains(model) {
        Err(
            "model "@ + debug_quoted(model) + " is not in role::orchestrator's permitted list: "@
                + join(orchestrator, ", "@)
                + "; only the orchestrator asks, and the carrying role picks with task decide --on"@,
        )
    } else if all_blank(question) {
        Err("the question is empty; state the call you doubt"@)
    } else if !valid_options(kind_and_options(options).1) {
        Err(options_refusal(kind_and_options(options).1))
    } else {
        match floor {
            None => Ok(role_floor),
            Some(stated) => match percentage_spec(stated) {
                None => Err(
                    "floor "@ + crate::text::signed_decimal(stated as int)
                        + " is outside 0..100; state it as a whole-number percentage"@,
                ),
                Some(f) => if f < role_floor {
                    Err(
                        "floor "@ + decimal(f as nat) + "% is below role::"@ + task.role@
                            + "'s floor of "@ + decimal(role_floor as nat)
                            + "%; a question can raise the floor its pick is measured against, never lower it"@,
                    )
                } else {
                    Ok(f)
                },
            },
        }
    }
}

/// Asks a question of the role carrying the task.
pub fn ask<'a>(task: &'a mut Task, asked: Ask, role_floor: u8, orchestrator: &Vec<String>) -> (r: Result<
    &'a AskedQuestion,
    String,
>)
    requires
        old(task).questions@.len() < usize::MAX,
    ensures
        match ask_outcome(
            *old(task),
            asked.question@,
            strings(asked.options@),
            asked.floor,
            asked.model@,
            role_floor,
            strings(orchestrator@),
        ) {
            Err(m) => r matches Err(e) && e@ == m && *final(task) == *old(task),
            Ok(floor) => r matches Ok(q) && final(task).questions@ == old(task).questions@.push(*q)
                && *final(task) == (Task { questions: final(task).questions, ..*old(task) }) && q.id@
                == seq!['q'] + decimal(old(task).questions@.len() + 1) && q.question@ == asked.question@
                && q.kind@ == kind_and_options(strings(asked.options@)).0 && strings(q.options@)
                == kind_and_options(strings(asked.options@)).1 && q.floor == floor && q.model@
                == asked.model@,
        },
{
    if !task.open() {
        let mut m = joined("task ", quoted(task.name.as_str()).as_str());
        append(&mut m, " is CLOSED; a question is asked of a task that is not closed");
        return Err(m);
    }
    if orchestrator.len() > 0 && !contains_string(orchestrator, asked.model.as_str()) {
        let mut m = joined("model ", quoted(asked.model.as_str()).as_str());
        append(&mut m, " is not in role::orchestrator's permitted list: ");
        append(&mut m, join_strings(orchestrator, ", ").as_str());
        append(&mut m, "; only the orchestrator asks, and the carrying role picks with task decide --on");
        return Err(m);
    }
    if is_blank(asked.question.as_str()) {
        return Err("the question is empty; state the call you doubt".to_owned());
    }
    let (kind, options) = match typed(asked.options) {
        Ok(t) => t,
        Err(m) => {
            return Err(m);
        },
    };
    let floor = match asked.floor {
        None => role_floor,
        Some(stated) => match percentage(stated) {
            None => {
                let mut m = joined("floor ", crate::text::signed_decimal_text(stated).as_str());
                append(&mut m, " is outside 0..100; state it as a whole-number percentage");
                return Err(m);
            },
            Some(f) => {
                if f < role_floor {
                    let mut m = joined("floor ", decimal_text(f as u64).as_str());
                    append(&mut m, "% is below role::");
                    append(&mut m, task.role.as_str());
                    append(&mut m, "'s floor of ");
                    append(&mut m, decimal_text(role_floor as u64).as_str());
                    append(&mut m, "%; a question can raise the floor its pick is measured against, never lower it");
                    return Err(m);
                }
                f
            },
        },
    };
    let number = task.questions.len() + 1;
    let id = joined("q", decimal_text(number as u64).as_str());
    proof {
        reveal_strlit("q");
    }
    task.questions.push(
        AskedQuestion { id, question: asked.question, kind: kind.to_owned(), options, floor, model: asked.model },
    );
    let n = task.questions.len();
    Ok(&task.questions[n - 1])
}

/// What picking a question records: why it cannot be picked, or the question put as a
/// decision, the floor it is measured against and the question's id.
pub open spec fn pick_refusal(task: Task, on: Seq<char>) -> Option<Seq<char>> {
    match first_question(task.questions@, on) {
        None => Some(
            "task "@ + debug_quoted(task.name@) + " records no question "@ + debug_quoted(on)
                + "; blabla task show "@ + task.name@ + " lists the questions the orchestrator asked"@,
        ),
        Some(i) => match first_pick(task.decisions@, task.questions@[i].id@) {
            Some(k) => Some(
                "question "@ + task.questions@[i].id@ + " is already picked by decision "@ + decimal(
                    task.decisions@[k].id as nat,
                ) + ": "@ + task.decisions@[k].pick@ + " at "@ + decimal(
                    task.decisions@[k].confidence as nat,
                ) + "%; a question is picked once, and the orchestrator reviews the pick with blabla task answer "@
                    + task.name@ + " "@ + decimal(task.decisions@[k].id as nat),
            ),
            None => None,
        },
    }
}

/// The options a picked question is decided over: none for a yes-no question.
pub open spec fn picked_options(q: AskedQuestion) -> Seq<Seq<char>> {
    if q.kind@ == "yes-no"@ {
        Seq::empty()
    } else {
        strings(q.options@)
    }
}

pub open spec fn max_u8(a: u8, b: u8) -> u8 {
    if a >= b {
        a
    } else {
        b
    }
}

/// Picks an answer to a question the orchestrator asked, recorded as a decision.
pub fn pick(task: &mut Task, given: Pick, role_floor: u8) -> (r: Result<&Decision, String>)
    requires
        decision_ids_bounded(old(task).decisions@),
    ensures
        match pick_refusal(*old(task), given.on@) {
            Some(m) => r matches Err(e) && e@ == m && *final(task) == *old(task),
            None => {
                let q = old(task).questions@[first_question(old(task).questions@, given.on@)->0];
                match decision_refusal(*old(task), q.question@, picked_options(q), given.pick@, given.confidence) {
                    Some(m) => r matches Err(e) && e@ == m && *final(task) == *old(task),
                    None => r matches Ok(d) && recorded_decision(
                        *old(task),
                        *d,
                        q.question@,
                        picked_options(q),
                        given.pick@,
                        given.confidence,
                        given.model@,
                        max_u8(q.floor, role_floor),
                        Some(q.id@),
                    ) && final(task).decisions@ == old(task).decisions@.push(*d) && *final(task)
                        == after_decision(*old(task), final(task).decisions, final(task).state, d.below_floor)
                        && (d.below_floor ==> final(task).state@ == "blocked"@),
                }
            },
        },
{
    proof {
        lemma_first_question(task.questions@, given.on@);
    }
    let i = match find_question(&task.questions, given.on.as_str()) {
        Some(i) => i,
        None => {
            let mut m = joined("task ", quoted(task.name.as_str()).as_str());
            append(&mut m, " records no question ");
            append(&mut m, quoted(given.on.as_str()).as_str());
            append(&mut m, "; blabla task show ");
            append(&mut m, task.name.as_str());
            append(&mut m, " lists the questions the orchestrator asked");
            return Err(m);
        },
    };
    match picked_by(task, task.questions[i].id.as_str()) {
        Some(decision) => {
            let mut m = joined("question ", task.questions[i].id.as_str());
            append(&mut m, " is already picked by decision ");
            append(&mut m, decimal_text(decision.id as u64).as_str());
            append(&mut m, ": ");
            append(&mut m, decision.pick.as_str());
            append(&mut m, " at ");
            append(&mut m, decimal_text(decision.confidence as u64).as_str());
            append(&mut m, "%; a question is picked once, and the orchestrator reviews the pick with blabla task answer ");
            append(&mut m, task.name.as_str());
            append(&mut m, " ");
            append(&mut m, decimal_text(decision.id as u64).as_str());
            return Err(m);
        },
        None => {},
    }
    let asked = &task.questions[i];
    let options: Vec<String> = if str_eq(asked.kind.as_str(), "yes-no") {
        let v: Vec<String> = Vec::new();
        assert(strings(v@) =~= Seq::<Seq<char>>::empty());
        v
    } else {
        copy_strings(&asked.options)
    };
    let question = Question {
        question: asked.question.clone(),
        options,
        pick: given.pick,
        confidence: given.confidence,
        model: given.model,
    };
    let floor = if asked.floor >= role_floor {
        asked.floor
    } else {
        role_floor
    };
    let on = asked.id.clone();
    record_decision(task, question, floor, Some(on))
}

fn copy_strings(v: &Vec<String>) -> (out: Vec<String>)
    ensures
        strings(out@) == strings(v@),
{
    let mut out: Vec<String> = Vec::new();
    let mut i: usize = 0;
    while i < v.len()
        invariant
            i <= v.len(),
            strings(out@) == strings(v@).take(i as int),
        decreases v.len() - i,
    {
        let ghost before = strings(out@);
        out.push(v[i].clone());
        assert(strings(out@) =~= before.push(v@[i as int]@));
        assert(strings(v@).take(i + 1) =~= strings(v@).take(i as int).push(v@[i as int]@));
        i += 1;
    }
    assert(strings(v@).take(v@.len() as int) =~= strings(v@));
    out
}

/// The position of the first decision whose id is `id`.
pub open spec fn decision_at(ds: Seq<Decision>, id: usize) -> Option<int>
    decreases ds.len(),
{
    if ds.len() == 0 {
        None
    } else {
        match decision_at(ds.drop_last(), id) {
            Some(i) => Some(i),
            None => if ds.last().id == id {
                Some(ds.len() - 1)
            } else {
                None
            },
        }
    }
}

proof fn lemma_decision_at_prefix(ds: Seq<Decision>, id: usize, n: int)
    requires
        0 <= n <= ds.len(),
        decision_at(ds.take(n), id) is Some,
    ensures
        decision_at(ds, id) == decision_at(ds.take(n), id),
    decreases ds.len() - n,
{
    if n < ds.len() {
        assert(ds.take(n + 1).drop_last() =~= ds.take(n));
        lemma_decision_at_prefix(ds, id, n + 1);
    } else {
        assert(ds.take(n) =~= ds);
    }
}

proof fn lemma_decision_at(ds: Seq<Decision>, id: usize)
    ensures
        decision_at(ds, id) matches Some(i) ==> 0 <= i < ds.len() && ds[i].id == id,
    decreases ds.len(),
{
    if ds.len() > 0 {
        lemma_decision_at(ds.drop_last(), id);
    }
}

/// Why an answer to decision `id` is refused, or `None` when it is taken.
pub open spec fn answer_refusal(task: Task, id: usize, pick: Seq<char>, reason: Seq<char>) -> Option<Seq<char>> {
    match decision_at(task.decisions@, id) {
        None => Some("task "@ + debug_quoted(task.name@) + " records no decision "@ + decimal(id as nat)),
        Some(i) => if !strings(task.decisions@[i].options@).contains(pick) {
            Some(
                "pick "@ + debug_quoted(pick) + " is not one of decision "@ + decimal(id as nat)
                    + "'s options: "@ + join(strings(task.decisions@[i].options@), ", "@),
            )
        } else if all_blank(reason) {
            Some(
                "an answer to decision "@ + decimal(id as nat)
                    + " needs a reason; the worker reads it before carrying on"@,
            )
        } else {
            None
        },
    }
}

/// The orchestrator's answer to decision `id`.
pub fn answer(task: &mut Task, id: usize, given: Answer) -> (r: Result<&Decision, String>)
    ensures
        match answer_refusal(*old(task), id, given.pick@, given.reason@) {
            Some(m) => r matches Err(e) && e@ == m && *final(task) == *old(task),
            None => {
                let i = decision_at(old(task).decisions@, id)->0;
                r matches Ok(d) && *d == (Decision { answer: Some(given), ..old(task).decisions@[i] })
                    && final(task).decisions@ == old(task).decisions@.update(i, *d) && *final(task)
                    == (Task { decisions: final(task).decisions, ..*old(task) })
            },
        },
{
    let mut k: usize = 0;
    assert(task.decisions@.take(task.decisions@.len() as int) =~= task.decisions@);
    while k < task.decisions.len()
        invariant
            k <= task.decisions.len(),
            *task == *old(task),
            decision_at(task.decisions@.take(k as int), id) is None,
            task.decisions@.take(task.decisions@.len() as int) == task.decisions@,
        ensures
            k <= task.decisions.len(),
            *task == *old(task),
            k < task.decisions.len() ==> decision_at(task.decisions@, id) == Some(k as int),
            k == task.decisions.len() ==> decision_at(task.decisions@, id) is None,
        decreases task.decisions.len() - k,
    {
        assert(task.decisions@.take(k + 1).drop_last() =~= task.decisions@.take(k as int));
        if task.decisions[k].id == id {
            proof {
                lemma_decision_at_prefix(task.decisions@, id, k as int + 1);
            }
            break;
        }
        k += 1;
    }
    if k == task.decisions.len() {
        let mut m = joined("task ", quoted(task.name.as_str()).as_str());
        append(&mut m, " records no decision ");
        append(&mut m, decimal_text(id as u64).as_str());
        return Err(m);
    }
    proof {
        lemma_decision_at(task.decisions@, id);
    }
    if !contains_string(&task.decisions[k].options, given.pick.as_str()) {
        let mut m = joined("pick ", quoted(given.pick.as_str()).as_str());
        append(&mut m, " is not one of decision ");
        append(&mut m, decimal_text(id as u64).as_str());
        append(&mut m, "'s options: ");
        append(&mut m, join_strings(&task.decisions[k].options, ", ").as_str());
        return Err(m);
    }
    if is_blank(given.reason.as_str()) {
        let mut m = joined("an answer to decision ", decimal_text(id as u64).as_str());
        append(&mut m, " needs a reason; the worker reads it before carrying on");
        return Err(m);
    }
    task.decisions[k].answer = Some(given);
    Ok(&task.decisions[k])
}

// ---------------------------------------------------------------------------------------
// Digests of the working tree.
// ---------------------------------------------------------------------------------------

pub open spec fn opt_view(o: Option<String>) -> Option<Seq<char>> {
    match o {
        Some(s) => Some(s@),
        None => None,
    }
}

/// The names and digests under `path`, folded in order into an FNV-1a state.
pub open spec fn covered_fold(h: u64, entries: Seq<(Seq<char>, Seq<char>)>, path: Seq<char>) -> u64
    decreases entries.len(),
{
    if entries.len() == 0 {
        h
    } else {
        let g = covered_fold(h, entries.drop_last(), path);
        if covers_spec(path, entries.last().0) {
            fnv_text(fnv_text(g, entries.last().0), entries.last().1)
        } else {
            g
        }
    }
}

pub open spec fn any_covered(entries: Seq<(Seq<char>, Seq<char>)>, path: Seq<char>) -> bool {
    exists|i: int| 0 <= i < entries.len() && covers_spec(path, (#[trigger] entries[i]).0)
}

/// The digest observed for `path`: its own, or one over everything under it.
pub open spec fn observed(entries: Seq<(Seq<char>, Seq<char>)>, path: Seq<char>) -> Option<Seq<char>> {
    match lookup(entries, path) {
        Some(d) => Some(d),
        None => if any_covered(entries, path) {
            Some(hex_fixed(covered_fold(FNV_OFFSET, entries, path) as nat, 16))
        } else {
            None
        },
    }
}

/// The digest of `path` in `tree`: the file's own digest, or one over the files under it.
pub fn observed_digest(tree: &Tree, path: &str) -> (r: Option<String>)
    ensures
        opt_view(r) == observed(tree@, path@),
{
    match tree.get(path) {
        Some(digest) => {
            return Some(digest.to_owned());
        },
        None => {},
    }
    let mut fingerprint = Fnv::new();
    let mut found = false;
    let mut i: usize = 0;
    let n = tree.len();
    while i < n
        invariant
            i <= n == tree@.len(),
            fingerprint@ == covered_fold(FNV_OFFSET, tree@.take(i as int), path@),
            found == any_covered(tree@.take(i as int), path@),
        decreases n - i,
    {
        let (name, digest) = tree.entry(i);
        let ghost before = tree@.take(i as int);
        assert(tree@.take(i + 1).drop_last() =~= before);
        assert(tree@.take(i + 1).last() == tree@[i as int]);
        if covers(path, name) {
            found = true;
            fingerprint.write_str(name);
            fingerprint.write_str(digest);
            assert(tree@.take(i + 1)[i as int] == tree@[i as int]);
        } else {
            assert forall|k: int| 0 <= k < i + 1 && covers_spec(path@, (#[trigger] tree@.take(i + 1)[k]).0) implies any_covered(before, path@) by {
                assert(tree@.take(i + 1)[k] == before[k]);
            }
        }
        assert(found == any_covered(tree@.take(i + 1), path@)) by {
            if found && !any_covered(before, path@) {
                assert(tree@.take(i + 1)[i as int] == tree@[i as int]);
            }
            if any_covered(before, path@) {
                let k = choose|k: int| 0 <= k < before.len() && covers_spec(path@, (#[trigger] before[k]).0);
                assert(tree@.take(i + 1)[k] == before[k]);
            }
        }
        i += 1;
    }
    assert(tree@.take(n as int) =~= tree@);
    if found {
        Some(fingerprint.finish())
    } else {
        None
    }
}

/// Whether some input of the evidence no longer has the digest the check saw.
pub open spec fn stale_spec(evidence: Evidence, entries: Seq<(Seq<char>, Seq<char>)>) -> bool {
    exists|i: int|
        0 <= i < evidence.inputs@.len() && observed(entries, (#[trigger] evidence.inputs@[i]).0@)
            != opt_view(evidence.inputs@[i].1)
}

fn same_option(a: &Option<String>, b: &Option<String>) -> (e: bool)
    ensures
        e == (opt_view(*a) == opt_view(*b)),
{
    match (a, b) {
        (Some(x), Some(y)) => str_eq(x.as_str(), y.as_str()),
        (None, None) => true,
        _ => false,
    }
}

/// Whether the evidence's inputs have changed since its check ran.
pub fn stale(evidence: &Evidence, tree: &Tree) -> (b: bool)
    ensures
        b == stale_spec(*evidence, tree@),
{
    let mut i: usize = 0;
    while i < evidence.inputs.len()
        invariant
            i <= evidence.inputs.len(),
            forall|k: int|
                0 <= k < i ==> observed(tree@, (#[trigger] evidence.inputs@[k]).0@) == opt_view(
                    evidence.inputs@[k].1,
                ),
        decreases evidence.inputs.len() - i,
    {
        let (path, digest) = &evidence.inputs[i];
        let now = observed_digest(tree, path.as_str());
        if !same_option(&now, digest) {
            return true;
        }
        i += 1;
    }
    false
}

/// The paths whose digests a check records: the declared inputs (the scope when none are
/// declared), then the deliverables.
pub open spec fn input_paths(task: Task) -> Seq<Seq<char>> {
    (if task.check_inputs@.len() == 0 {
        strings(task.scope@)
    } else {
        strings(task.check_inputs@)
    }) + task.deliverables@.map_values(|d: Deliverable| d.path@)
}

pub open spec fn input_keys(inputs: Seq<(String, Option<String>)>) -> Seq<Seq<char>> {
    inputs.map_values(|e: (String, Option<String>)| e.0@)
}

fn has_input(inputs: &Vec<(String, Option<String>)>, path: &str) -> (b: bool)
    ensures
        b == input_keys(inputs@).contains(path@),
{
    let mut i: usize = 0;
    while i < inputs.len()
        invariant
            i <= inputs.len(),
            forall|k: int| 0 <= k < i ==> input_keys(inputs@)[k] != path@,
        decreases inputs.len() - i,
    {
        if str_eq(inputs[i].0.as_str(), path) {
            assert(input_keys(inputs@)[i as int] == path@);
            return true;
        }
        i += 1;
    }
    false
}

proof fn lemma_push_contains(s: Seq<Seq<char>>, x: Seq<char>)
    ensures
        forall|k: Seq<char>| #[trigger] s.push(x).contains(k) <==> (s.contains(k) || k == x),
{
    assert forall|k: Seq<char>| #[trigger] s.push(x).contains(k) <==> (s.contains(k) || k == x) by {
        if s.contains(k) {
            let j = choose|j: int| 0 <= j < s.len() && s[j] == k;
            assert(s.push(x)[j] == k);
        }
        if k == x {
            assert(s.push(x)[s.len() as int] == k);
        }
        if s.push(x).contains(k) {
            let j = choose|j: int| 0 <= j < s.push(x).len() && s.push(x)[j] == k;
            if j < s.len() {
                assert(s[j] == k);
            }
        }
    }
}

/// Whether `inputs` holds each key once, each with the digest observed in `entries`.
pub open spec fn inputs_well_formed(inputs: Seq<(String, Option<String>)>, entries: Seq<(Seq<char>, Seq<char>)>) -> bool {
    &&& forall|a: int, b: int| 0 <= a < b < inputs.len() ==> inputs[a].0@ != inputs[b].0@
    &&& forall|a: int| 0 <= a < inputs.len() ==> opt_view((#[trigger] inputs[a]).1) == observed(entries, inputs[a].0@)
}

fn add_input(out: &mut Vec<(String, Option<String>)>, path: &str, tree: &Tree)
    requires
        inputs_well_formed(old(out)@, tree@),
    ensures
        inputs_well_formed(final(out)@, tree@),
        forall|k: Seq<char>| #[trigger] input_keys(final(out)@).contains(k) <==> (input_keys(old(out)@).contains(k) || k == path@),
{
    let ghost keys = input_keys(out@);
    proof {
        lemma_push_contains(keys, path@);
    }
    if !has_input(out, path) {
        let digest = observed_digest(tree, path);
        out.push((path.to_owned(), digest));
        assert(input_keys(out@) =~= keys.push(path@));
        assert forall|a: int, b: int| 0 <= a < b < out@.len() implies out@[a].0@ != out@[b].0@ by {
            if b == out@.len() - 1 {
                assert(keys[a] == out@[a].0@);
            }
        }
    }
}

/// The inputs of a check run now: each input path once, with the digest observed now.
pub fn evidence_inputs(task: &Task, tree: &Tree) -> (r: Vec<(String, Option<String>)>)
    ensures
        forall|k: Seq<char>| input_keys(r@).contains(k) <==> input_paths(*task).contains(k),
        inputs_well_formed(r@, tree@),
{
    let declared = if task.check_inputs.len() == 0 {
        &task.scope
    } else {
        &task.check_inputs
    };
    let ghost first = strings(declared@);
    let ghost second = task.deliverables@.map_values(|d: Deliverable| d.path@);
    let mut out: Vec<(String, Option<String>)> = Vec::new();
    let mut i: usize = 0;
    assert(first.take(0) =~= Seq::<Seq<char>>::empty());
    while i < declared.len()
        invariant
            i <= declared.len(),
            first == strings(declared@),
            inputs_well_formed(out@, tree@),
            forall|k: Seq<char>| #[trigger] input_keys(out@).contains(k) <==> first.take(i as int).contains(k),
        decreases declared.len() - i,
    {
        proof {
            lemma_push_contains(first.take(i as int), first[i as int]);
            assert(first.take(i + 1) =~= first.take(i as int).push(first[i as int]));
        }
        add_input(&mut out, declared[i].as_str(), tree);
        i += 1;
    }
    assert(first.take(i as int) =~= first);
    let mut j: usize = 0;
    while j < task.deliverables.len()
        invariant
            j <= task.deliverables.len(),
            second == task.deliverables@.map_values(|d: Deliverable| d.path@),
            inputs_well_formed(out@, tree@),
            forall|k: Seq<char>| #[trigger] input_keys(out@).contains(k) <==> (first + second.take(j as int)).contains(k),
        decreases task.deliverables.len() - j,
    {
        proof {
            lemma_push_contains(first + second.take(j as int), second[j as int]);
            assert(first + second.take(j + 1) =~= (first + second.take(j as int)).push(second[j as int]));
        }
        add_input(&mut out, task.deliverables[j].path.as_str(), tree);
        j += 1;
    }
    assert(first + second.take(j as int) =~= input_paths(*task));
    out
}

/// The position of the evidence that answers the task's declared check: the last run of that
/// check, or the last run of any check when none is declared.
pub open spec fn latest_index(evidence: Seq<Evidence>, check: Option<String>) -> Option<int>
    decreases evidence.len(),
{
    if evidence.len() == 0 {
        None
    } else {
        match check {
            Some(c) => if evidence.last().check@ == c@ {
                Some(evidence.len() - 1)
            } else {
                latest_index(evidence.drop_last(), check)
            },
            None => Some(evidence.len() - 1),
        }
    }
}

proof fn lemma_latest_index(evidence: Seq<Evidence>, check: Option<String>)
    ensures
        latest_index(evidence, check) matches Some(i) ==> 0 <= i < evidence.len(),
    decreases evidence.len(),
{
    if evidence.len() > 0 {
        lemma_latest_index(evidence.drop_last(), check);
    }
}

/// The evidence that answers the task's check, if any.
pub fn latest_evidence(task: &Task) -> (r: Option<&Evidence>)
    ensures
        match latest_index(task.evidence@, task.check) {
            Some(i) => r matches Some(e) && *e == task.evidence@[i],
            None => r is None,
        },
{
    let mut i = task.evidence.len();
    assert(task.evidence@.take(i as int) =~= task.evidence@);
    while i > 0
        invariant
            i <= task.evidence.len(),
            latest_index(task.evidence@, task.check) == latest_index(task.evidence@.take(i as int), task.check),
        decreases i,
    {
        assert(task.evidence@.take(i as int).drop_last() =~= task.evidence@.take(i - 1));
        assert(task.evidence@.take(i as int).last() == task.evidence@[i - 1]);
        let hit = match &task.check {
            Some(declared) => str_eq(task.evidence[i - 1].check.as_str(), declared.as_str()),
            None => true,
        };
        if hit {
            return Some(&task.evidence[i - 1]);
        }
        i -= 1;
    }
    None
}

/// Whether the latest evidence still holds: nothing it saw changed, and it saw every input.
pub open spec fn current_spec(task: Task, entries: Seq<(Seq<char>, Seq<char>)>) -> bool {
    match latest_index(task.evidence@, task.check) {
        Some(i) => !stale_spec(task.evidence@[i], entries) && forall|k: Seq<char>|
            #[trigger] input_paths(task).contains(k) ==> input_keys(task.evidence@[i].inputs@).contains(k),
        None => false,
    }
}

pub open spec fn readiness_spec(task: Task, entries: Seq<(Seq<char>, Seq<char>)>) -> Readiness {
    let recorded = task.evidence@.len() > 0;
    let answers = match latest_index(task.evidence@, task.check) {
        Some(i) => task.evidence@[i].exit == 0,
        None => false,
    };
    let current = current_spec(task, entries);
    Readiness { recorded, current, answers_declared_check: answers, supported: recorded && current && answers }
}

/// Whether the task's evidence supports handing it back.
pub fn readiness(task: &Task, tree: &Tree) -> (r: Readiness)
    ensures
        r == readiness_spec(*task, tree@),
{
    let recorded = task.evidence.len() > 0;
    let latest = latest_evidence(task);
    let answers = match latest {
        Some(entry) => entry.exit == 0,
        None => false,
    };
    let current = match latest {
        Some(entry) => {
            if stale(entry, tree) {
                false
            } else {
                let inputs = evidence_inputs(task, tree);
                let mut all = true;
                let mut i: usize = 0;
                while i < inputs.len()
                    invariant
                        i <= inputs.len(),
                        all ==> forall|k: int| 0 <= k < i ==> input_keys(entry.inputs@).contains(#[trigger] input_keys(inputs@)[k]),
                        !all ==> exists|k: int| 0 <= k < i && !input_keys(entry.inputs@).contains(#[trigger] input_keys(inputs@)[k]),
                    decreases inputs.len() - i,
                {
                    assert(input_keys(inputs@)[i as int] == inputs@[i as int].0@);
                    if !has_input(&entry.inputs, inputs[i].0.as_str()) {
                        all = false;
                    }
                    i += 1;
                }
                proof {
                    if all {
                        assert forall|k: Seq<char>| #[trigger] input_paths(*task).contains(k) implies input_keys(entry.inputs@).contains(k) by {
                            assert(input_keys(inputs@).contains(k));
                            let j = choose|j: int| 0 <= j < input_keys(inputs@).len() && input_keys(inputs@)[j] == k;
                        }
                    } else {
                        let j = choose|j: int| 0 <= j < inputs@.len() && !input_keys(entry.inputs@).contains(#[trigger] input_keys(inputs@)[j]);
                        let k = input_keys(inputs@)[j];
                        assert(input_keys(inputs@).contains(k));
                        assert(input_paths(*task).contains(k));
                    }
                }
                all
            }
        },
        None => false,
    };
    Readiness { recorded, current, answers_declared_check: answers, supported: recorded && current && answers }
}

// ---------------------------------------------------------------------------------------
// Attribution and the challenge receipt.
// ---------------------------------------------------------------------------------------

/// Whether an attribution still speaks for `path`: it names another path, or the digest it
/// recorded is the one observed now.
pub open spec fn honoured_spec(entry: Attribution, entries: Seq<(Seq<char>, Seq<char>)>, path: Seq<char>) -> bool {
    entry.path@ != path || opt_view(entry.digest) == lookup(entries, path)
}

/// The position of the last attribution that covers `path` and still speaks for it.
pub open spec fn last_attribution(
    attrs: Seq<Attribution>,
    entries: Seq<(Seq<char>, Seq<char>)>,
    path: Seq<char>,
) -> Option<int>
    decreases attrs.len(),
{
    if attrs.len() == 0 {
        None
    } else if covers_spec(attrs.last().path@, path) && honoured_spec(attrs.last(), entries, path) {
        Some(attrs.len() - 1)
    } else {
        last_attribution(attrs.drop_last(), entries, path)
    }
}

proof fn lemma_last_attribution(attrs: Seq<Attribution>, entries: Seq<(Seq<char>, Seq<char>)>, path: Seq<char>)
    ensures
        last_attribution(attrs, entries, path) matches Some(i) ==> 0 <= i < attrs.len(),
    decreases attrs.len(),
{
    if attrs.len() > 0 {
        lemma_last_attribution(attrs.drop_last(), entries, path);
    }
}

/// Who changed `path`: the kind of the last attribution that speaks for it, else the task
/// when its scope covers the path, else nobody knows.
pub open spec fn attribute_spec(task: Task, entries: Seq<(Seq<char>, Seq<char>)>, path: Seq<char>) -> Seq<char> {
    match last_attribution(task.attributions@, entries, path) {
        Some(i) => task.attributions@[i].kind@,
        None => if in_scope_spec(task.scope@, path) {
            "task"@
        } else {
            "unknown"@
        },
    }
}

fn honoured(entry: &Attribution, tree: &Tree, path: &str) -> (b: bool)
    ensures
        b == honoured_spec(*entry, tree@, path@),
{
    if !str_eq(entry.path.as_str(), path) {
        return true;
    }
    let now = tree.get(path);
    match (&entry.digest, now) {
        (Some(d), Some(n)) => str_eq(d.as_str(), n),
        (None, None) => true,
        _ => false,
    }
}

/// Who changed `path`, as the task's records say.
pub fn attribute(task: &Task, tree: &Tree, path: &str) -> (kind: String)
    ensures
        kind@ == attribute_spec(*task, tree@, path@),
{
    let mut i = task.attributions.len();
    assert(task.attributions@.take(i as int) =~= task.attributions@);
    while i > 0
        invariant
            i <= task.attributions.len(),
            last_attribution(task.attributions@, tree@, path@) == last_attribution(
                task.attributions@.take(i as int),
                tree@,
                path@,
            ),
        decreases i,
    {
        assert(task.attributions@.take(i as int).drop_last() =~= task.attributions@.take(i - 1));
        assert(task.attributions@.take(i as int).last() == task.attributions@[i - 1]);
        let entry = &task.attributions[i - 1];
        if covers(entry.path.as_str(), path) && honoured(entry, tree, path) {
            return entry.kind.clone();
        }
        i -= 1;
    }
    if task.in_scope(path) {
        "task".to_owned()
    } else {
        "unknown".to_owned()
    }
}

fn any_deliverable_covers(deliverables: &Vec<Deliverable>, path: &str) -> (b: bool)
    ensures
        b == exists|i: int| 0 <= i < deliverables@.len() && covers_spec((#[trigger] deliverables@[i]).path@, path@),
{
    let mut i: usize = 0;
    while i < deliverables.len()
        invariant
            i <= deliverables.len(),
            forall|k: int| 0 <= k < i ==> !covers_spec((#[trigger] deliverables@[k]).path@, path@),
        decreases deliverables.len() - i,
    {
        if covers(deliverables[i].path.as_str(), path) {
            return true;
        }
        i += 1;
    }
    false
}

fn any_attribution_covers(attrs: &Vec<Attribution>, path: &str) -> (b: bool)
    ensures
        b == exists|i: int| 0 <= i < attrs@.len() && covers_spec((#[trigger] attrs@[i]).path@, path@),
{
    let mut i: usize = 0;
    while i < attrs.len()
        invariant
            i <= attrs.len(),
            forall|k: int| 0 <= k < i ==> !covers_spec((#[trigger] attrs@[k]).path@, path@),
        decreases attrs.len() - i,
    {
        if covers(attrs[i].path.as_str(), path) {
            return true;
        }
        i += 1;
    }
    false
}

/// Whether a challenge receipt covers `path`: the task touches it, and no concurrent work is
/// known to have changed it.
pub open spec fn receipt_covers_spec(task: Task, entries: Seq<(Seq<char>, Seq<char>)>, path: Seq<char>) -> bool {
    attribute_spec(task, entries, path) != "concurrent"@ && (in_scope_spec(task.scope@, path)
        || in_scope_spec(task.check_inputs@, path) || (exists|i: int|
        0 <= i < task.deliverables@.len() && covers_spec((#[trigger] task.deliverables@[i]).path@, path))
        || (exists|i: int|
        0 <= i < task.attributions@.len() && covers_spec((#[trigger] task.attributions@[i]).path@, path)))
}

/// Whether the challenge receipt covers `path`.
pub fn receipt_covers(task: &Task, tree: &Tree, path: &str) -> (b: bool)
    ensures
        b == receipt_covers_spec(*task, tree@, path@),
{
    if str_eq(attribute(task, tree, path).as_str(), "concurrent") {
        return false;
    }
    task.in_scope(path) || any_covers(&task.check_inputs, path) || any_deliverable_covers(
        &task.deliverables,
        path,
    ) || any_attribution_covers(&task.attributions, path)
}

/// The covered names and digests of `entries`, folded in order into an FNV-1a state.
pub open spec fn receipt_fold(
    h: u64,
    task: Task,
    all: Seq<(Seq<char>, Seq<char>)>,
    entries: Seq<(Seq<char>, Seq<char>)>,
) -> u64
    decreases entries.len(),
{
    if entries.len() == 0 {
        h
    } else {
        let g = receipt_fold(h, task, all, entries.drop_last());
        if receipt_covers_spec(task, all, entries.last().0) {
            fnv_text(fnv_text(g, entries.last().0), entries.last().1)
        } else {
            g
        }
    }
}

/// The fingerprint a challenge receipt records: the task's record as written without what a
/// challenge does not depend on, then each covered path and its digest.
pub open spec fn challenge_fingerprint_spec(record: Seq<char>, task: Task, entries: Seq<(Seq<char>, Seq<char>)>) -> Seq<char> {
    hex_fixed(receipt_fold(fnv_text(FNV_OFFSET, record), task, entries, entries) as nat, 16)
}

/// The fingerprint of `record` (a copy of the task passed through `clear_for_receipt`, written
/// out) and of the paths the receipt covers.
pub fn challenge_fingerprint(record: &str, task: &Task, tree: &Tree) -> (f: String)
    ensures
        f@ == challenge_fingerprint_spec(record@, *task, tree@),
{
    let mut fingerprint = Fnv::new();
    fingerprint.write_str(record);
    let ghost start = fingerprint@;
    let n = tree.len();
    let mut i: usize = 0;
    while i < n
        invariant
            i <= n == tree@.len(),
            start == fnv_text(FNV_OFFSET, record@),
            fingerprint@ == receipt_fold(start, *task, tree@, tree@.take(i as int)),
        decreases n - i,
    {
        let (path, digest) = tree.entry(i);
        assert(tree@.take(i + 1).drop_last() =~= tree@.take(i as int));
        assert(tree@.take(i + 1).last() == tree@[i as int]);
        if receipt_covers(task, tree, path) {
            fingerprint.write_str(path);
            fingerprint.write_str(digest);
        }
        i += 1;
    }
    assert(tree@.take(n as int) =~= tree@);
    fingerprint.finish()
}

/// Whether the task's challenge receipt matches the task and tree as they are now.
pub open spec fn challenge_current_spec(record: Seq<char>, task: Task, entries: Seq<(Seq<char>, Seq<char>)>) -> bool {
    task.challenged matches Some(receipt) && receipt.fingerprint@ == challenge_fingerprint_spec(
        record,
        task,
        entries,
    )
}

/// Whether the task's challenge receipt is current.
pub fn challenge_current(record: &str, task: &Task, tree: &Tree) -> (b: bool)
    ensures
        b == challenge_current_spec(record@, *task, tree@),
{
    match &task.challenged {
        Some(receipt) => str_eq(receipt.fingerprint.as_str(), challenge_fingerprint(record, task, tree).as_str()),
        None => false,
    }
}

/// Whether a challenge may be recorded: the task is accepted, declares its check, its
/// evidence supports a handback and no blocker stands.
pub open spec fn challenge_allowed(task: Task, entries: Seq<(Seq<char>, Seq<char>)>, blockers: usize) -> bool {
    task.accepted is Some && (task.check is Some || task.check_argv is Some) && readiness_spec(
        task,
        entries,
    ).supported && blockers == 0
}

/// Records that the task was challenged now, where that is allowed; an accepted task loses
/// any earlier receipt either way.
pub fn record_challenge(record: &str, task: &mut Task, tree: &Tree, blockers: usize, unix: u64) -> (done: bool)
    ensures
        old(task).state@ != "accepted"@ ==> !done && *final(task) == *old(task),
        old(task).state@ == "accepted"@ ==> done == challenge_allowed(*old(task), tree@, blockers),
        old(task).state@ == "accepted"@ && !done ==> *final(task) == (Task { challenged: None, ..*old(task) }),
        done ==> (final(task).challenged matches Some(receipt) && receipt.unix == unix
            && receipt.fingerprint@ == challenge_fingerprint_spec(record@, *old(task), tree@)),
        done ==> *final(task) == (Task { challenged: final(task).challenged, ..*old(task) }),
{
    if !str_eq(task.state.as_str(), "accepted") {
        return false;
    }
    let ghost before = *task;
    task.challenged = None;
    proof {
        lemma_same_but_receipt(*task, before, tree@);
    }
    if task.accepted.is_none() || !task.declares_check() || !readiness(task, tree).supported || blockers != 0 {
        return false;
    }
    let fingerprint = challenge_fingerprint(record, task, tree);
    proof {
        lemma_receipt_fold_challenged(fnv_text(FNV_OFFSET, record@), *task, before, tree@, tree@);
    }
    task.challenged = Some(ChallengeReceipt { fingerprint, unix });
    true
}

// ---------------------------------------------------------------------------------------
// The record a challenge receipt is made over.
// ---------------------------------------------------------------------------------------

/// Whether `r` is the record a challenge receipt fingerprints for `t`: `t` without its
/// receipt, state, closing time, result, build, finding resolutions, decision answers,
/// notes, orchestrator records and concurrent attributions, which a challenge does not
/// depend on.
pub open spec fn is_receipt_record(r: Task, t: Task) -> bool {
    &&& r == Task {
        challenged: None,
        state: r.state,
        closed_unix: None,
        result: None,
        build: None,
        findings: r.findings,
        decisions: r.decisions,
        notes: r.notes,
        orchestrator_records: r.orchestrator_records,
        attributions: r.attributions,
        ..t
    }
    &&& r.state@.len() == 0
    &&& r.notes@.len() == 0
    &&& r.orchestrator_records@.len() == 0
    &&& r.findings@ == t.findings@.map_values(|f: Finding| Finding { resolution: None, ..f })
    &&& r.decisions@ == t.decisions@.map_values(|d: Decision| Decision { answer: None, ..d })
    &&& r.attributions@ == t.attributions@.filter(|a: Attribution| a.kind@ != "concurrent"@)
}

/// Clears from `record`, a copy of a task, what its challenge receipt does not depend on;
/// what remains is the record that, written out, the receipt fingerprints.
pub fn clear_for_receipt(record: &mut Task)
    ensures
        is_receipt_record(*final(record), *old(record)),
{
    record.challenged = None;
    record.state = String::new();
    record.closed_unix = None;
    record.result = None;
    record.build = None;
    record.notes = Vec::new();
    record.orchestrator_records = Vec::new();
    let mut findings: Vec<Finding> = Vec::new();
    std::mem::swap(&mut findings, &mut record.findings);
    let ghost fs = findings@;
    let mut cleared: Vec<Finding> = Vec::new();
    while findings.len() > 0
        invariant
            fs.len() == cleared@.len() + findings@.len(),
            findings@ == fs.skip(cleared@.len() as int),
            cleared@ == fs.take(cleared@.len() as int).map_values(|f: Finding| Finding { resolution: None, ..f }),
        decreases findings@.len(),
    {
        let k = cleared.len();
        let mut f = findings.remove(0);
        assert(f == fs[k as int]);
        f.resolution = None;
        cleared.push(f);
        assert(findings@ =~= fs.skip(k + 1));
        assert(cleared@ =~= fs.take(k + 1).map_values(|f: Finding| Finding { resolution: None, ..f }));
    }
    assert(fs.take(fs.len() as int) =~= fs);
    record.findings = cleared;
    let mut decisions: Vec<Decision> = Vec::new();
    std::mem::swap(&mut decisions, &mut record.decisions);
    let ghost ds = decisions@;
    let mut unanswered: Vec<Decision> = Vec::new();
    while decisions.len() > 0
        invariant
            ds.len() == unanswered@.len() + decisions@.len(),
            decisions@ == ds.skip(unanswered@.len() as int),
            unanswered@ == ds.take(unanswered@.len() as int).map_values(|d: Decision| Decision { answer: None, ..d }),
        decreases decisions@.len(),
    {
        let k = unanswered.len();
        let mut d = decisions.remove(0);
        assert(d == ds[k as int]);
        d.answer = None;
        unanswered.push(d);
        assert(decisions@ =~= ds.skip(k + 1));
        assert(unanswered@ =~= ds.take(k + 1).map_values(|d: Decision| Decision { answer: None, ..d }));
    }
    assert(ds.take(ds.len() as int) =~= ds);
    record.decisions = unanswered;
    let mut attributions: Vec<Attribution> = Vec::new();
    std::mem::swap(&mut attributions, &mut record.attributions);
    let ghost xs = attributions@;
    let mut kept: Vec<Attribution> = Vec::new();
    let ghost mut seen: int = 0;
    while attributions.len() > 0
        invariant
            0 <= seen <= xs.len(),
            attributions@ == xs.skip(seen),
            kept@ == xs.take(seen).filter(|a: Attribution| a.kind@ != "concurrent"@),
        decreases attributions@.len(),
    {
        let a = attributions.remove(0);
        assert(a == xs[seen]);
        proof {
            reveal(Seq::filter);
            assert(xs.take(seen + 1).drop_last() =~= xs.take(seen));
        }
        if !str_eq(a.kind.as_str(), "concurrent") {
            kept.push(a);
        }
        proof {
            seen = seen + 1;
        }
        assert(attributions@ =~= xs.skip(seen));
    }
    assert(xs.take(xs.len() as int) =~= xs);
    record.attributions = kept;
}

/// Whether `u` differs from `t` only in what a challenge receipt does not depend on: state,
/// closing time, result, build, notes, orchestrator records, finding resolutions and
/// decision answers.
pub open spec fn same_receipt(t: Task, u: Task) -> bool {
    &&& u == Task {
        state: u.state,
        closed_unix: u.closed_unix,
        result: u.result,
        build: u.build,
        findings: u.findings,
        decisions: u.decisions,
        notes: u.notes,
        orchestrator_records: u.orchestrator_records,
        ..t
    }
    &&& t.findings@.len() == u.findings@.len()
    &&& forall|i: int| 0 <= i < t.findings@.len() ==> #[trigger] u.findings@[i] == Finding { resolution: u.findings@[i].resolution, ..t.findings@[i] }
    &&& t.decisions@.len() == u.decisions@.len()
    &&& forall|i: int| 0 <= i < t.decisions@.len() ==> #[trigger] u.decisions@[i] == Decision { answer: u.decisions@[i].answer, ..t.decisions@[i] }
}

proof fn lemma_receipt_fold_alike(h: u64, t: Task, u: Task, all: Seq<(Seq<char>, Seq<char>)>, entries: Seq<(Seq<char>, Seq<char>)>)
    requires
        t.scope == u.scope,
        t.check_inputs == u.check_inputs,
        t.deliverables == u.deliverables,
        t.attributions == u.attributions,
    ensures
        receipt_fold(h, t, all, entries) == receipt_fold(h, u, all, entries),
    decreases entries.len(),
{
    if entries.len() > 0 {
        lemma_receipt_fold_alike(h, t, u, all, entries.drop_last());
        assert(receipt_covers_spec(t, all, entries.last().0) == receipt_covers_spec(u, all, entries.last().0));
    }
}

/// What a challenge receipt depends on survives bookkeeping: where `u` differs from `t` only
/// in its state, closing time, result, build, notes, orchestrator records, finding
/// resolutions or decision answers, both have the same receipt record, and the receipt is
/// current for one exactly when it is current for the other.
pub proof fn law_bookkeeping_keeps_the_receipt(
    t: Task,
    u: Task,
    r: Task,
    record: Seq<char>,
    entries: Seq<(Seq<char>, Seq<char>)>,
)
    requires
        same_receipt(t, u),
    ensures
        is_receipt_record(r, t) == is_receipt_record(r, u),
        challenge_current_spec(record, t, entries) == challenge_current_spec(record, u, entries),
{
    assert(t.findings@.map_values(|f: Finding| Finding { resolution: None, ..f }) =~= u.findings@.map_values(
        |f: Finding| Finding { resolution: None, ..f },
    ));
    assert(t.decisions@.map_values(|d: Decision| Decision { answer: None, ..d }) =~= u.decisions@.map_values(
        |d: Decision| Decision { answer: None, ..d },
    ));
    lemma_receipt_fold_alike(fnv_text(FNV_OFFSET, record), t, u, entries, entries);
}

/// Orchestrator records (made by `attest`, confirmed by `confirm`) are bookkeeping.
pub proof fn law_records_are_bookkeeping(t: Task, records: Vec<OrchestratorRecord>)
    ensures
        same_receipt(t, with_records(t, records)),
{
}

/// A task's state (moved by `apply`, `mark_ready`, `block`) is bookkeeping.
pub proof fn law_state_is_bookkeeping(t: Task, state: String)
    ensures
        same_receipt(t, (Task { state, ..t })),
{
}

/// An answer to a decision (given by `answer`) is bookkeeping.
pub proof fn law_answers_are_bookkeeping(t: Task, u: Task, i: int, given: Answer)
    requires
        0 <= i < t.decisions@.len(),
        u == (Task { decisions: u.decisions, ..t }),
        u.decisions@ == t.decisions@.update(i, (Decision { answer: Some(given), ..t.decisions@[i] })),
    ensures
        same_receipt(t, u),
{
}

/// Notes (kept by `note`) are bookkeeping.
pub proof fn law_notes_are_bookkeeping(t: Task, u: Task)
    requires
        u == (Task { notes: u.notes, ..t }),
    ensures
        same_receipt(t, u),
{
}

/// Keeps a note on the task's record; a note is not a finding and blocks nothing.
pub fn note(task: &mut Task, statement: String, unix: u64)
    ensures
        final(task).notes@ == old(task).notes@.push((Note { statement, unix })),
        *final(task) == (Task { notes: final(task).notes, ..*old(task) }),
{
    task.notes.push(Note { statement, unix });
}

/// Two tasks that differ only in their challenge receipt are ready alike.
/// A challenge just recorded is current: once `record_challenge` has stored a receipt for
/// a record, a task and a tree, the receipt is current for the same record, task and tree.
pub proof fn law_recorded_challenge_is_current(
    record: Seq<char>,
    before: Task,
    after: Task,
    entries: Seq<(Seq<char>, Seq<char>)>,
)
    requires
        after.challenged matches Some(receipt) && receipt.fingerprint@ == challenge_fingerprint_spec(
            record,
            before,
            entries,
        ),
        after == (Task { challenged: after.challenged, ..before }),
    ensures
        challenge_current_spec(record, after, entries),
{
    lemma_receipt_fold_challenged(fnv_text(FNV_OFFSET, record), after, before, entries, entries);
}

/// Whether each task of `history` differs from the one before only by bookkeeping.
pub open spec fn bookkeeping_run(history: Seq<Task>) -> bool {
    forall|i: int| 0 <= i < history.len() - 1 ==> same_receipt(#[trigger] history[i], history[i + 1])
}

/// Any run of bookkeeping keeps the receipt: across tasks each of which differs from the one
/// before only in its state, closing time, result, build, notes, orchestrator records,
/// finding resolutions or decision answers (what `mark_ready`, `attest`, `confirm`, `answer`
/// and `note` change), the receipt record and whether the receipt is current stay as they
/// were.
pub proof fn law_bookkeeping_runs_keep_the_receipt(
    history: Seq<Task>,
    r: Task,
    record: Seq<char>,
    entries: Seq<(Seq<char>, Seq<char>)>,
)
    requires
        history.len() > 0,
        bookkeeping_run(history),
    ensures
        is_receipt_record(r, history[0]) == is_receipt_record(r, history.last()),
        challenge_current_spec(record, history[0], entries) == challenge_current_spec(record, history.last(), entries),
    decreases history.len(),
{
    if history.len() > 1 {
        let shorter = history.drop_last();
        assert forall|i: int| 0 <= i < shorter.len() - 1 implies same_receipt(#[trigger] shorter[i], shorter[i + 1]) by {
            assert(same_receipt(history[i], history[i + 1]));
        }
        law_bookkeeping_runs_keep_the_receipt(shorter, r, record, entries);
        assert(same_receipt(history[history.len() - 2], history[history.len() - 1]));
        law_bookkeeping_keeps_the_receipt(history[history.len() - 2], history.last(), r, record, entries);
    }
}

/// A challenge recorded by `record_challenge` stays current through any run of bookkeeping
/// that follows it, on the same record text and tree.
pub proof fn law_a_recorded_challenge_stays_current(
    record: Seq<char>,
    before: Task,
    history: Seq<Task>,
    entries: Seq<(Seq<char>, Seq<char>)>,
)
    requires
        history.len() > 0,
        history[0].challenged matches Some(receipt) && receipt.fingerprint@ == challenge_fingerprint_spec(
            record,
            before,
            entries,
        ),
        history[0] == (Task { challenged: history[0].challenged, ..before }),
        bookkeeping_run(history),
    ensures
        challenge_current_spec(record, history.last(), entries),
{
    law_recorded_challenge_is_current(record, before, history[0], entries);
    law_bookkeeping_runs_keep_the_receipt(history, history[0], record, entries);
}

proof fn lemma_same_but_receipt(a: Task, b: Task, e: Seq<(Seq<char>, Seq<char>)>)
    requires
        a == (Task { challenged: a.challenged, ..b }),
    ensures
        readiness_spec(a, e) == readiness_spec(b, e),
{
    assert(input_paths(a) == input_paths(b));
    match latest_index(a.evidence@, a.check) {
        Some(i) => {
            if current_spec(a, e) {
                assert forall|k: Seq<char>| #[trigger] input_paths(b).contains(k) implies input_keys(b.evidence@[i].inputs@).contains(k) by {
                    assert(input_paths(a).contains(k));
                }
            }
            if current_spec(b, e) {
                assert forall|k: Seq<char>| #[trigger] input_paths(a).contains(k) implies input_keys(a.evidence@[i].inputs@).contains(k) by {
                    assert(input_paths(b).contains(k));
                }
            }
        },
        None => {},
    }
}

/// Two tasks that differ only in their challenge receipt cover the same paths.
proof fn lemma_covers_same_but_receipt(a: Task, b: Task, all: Seq<(Seq<char>, Seq<char>)>, path: Seq<char>)
    requires
        a == (Task { challenged: a.challenged, ..b }),
    ensures
        receipt_covers_spec(a, all, path) == receipt_covers_spec(b, all, path),
{
    assert(attribute_spec(a, all, path) == attribute_spec(b, all, path));
    if exists|i: int| 0 <= i < a.deliverables@.len() && covers_spec((#[trigger] a.deliverables@[i]).path@, path) {
        let i = choose|i: int| 0 <= i < a.deliverables@.len() && covers_spec((#[trigger] a.deliverables@[i]).path@, path);
        assert(covers_spec(b.deliverables@[i].path@, path));
    }
    if exists|i: int| 0 <= i < b.deliverables@.len() && covers_spec((#[trigger] b.deliverables@[i]).path@, path) {
        let i = choose|i: int| 0 <= i < b.deliverables@.len() && covers_spec((#[trigger] b.deliverables@[i]).path@, path);
        assert(covers_spec(a.deliverables@[i].path@, path));
    }
    if exists|i: int| 0 <= i < a.attributions@.len() && covers_spec((#[trigger] a.attributions@[i]).path@, path) {
        let i = choose|i: int| 0 <= i < a.attributions@.len() && covers_spec((#[trigger] a.attributions@[i]).path@, path);
        assert(covers_spec(b.attributions@[i].path@, path));
    }
    if exists|i: int| 0 <= i < b.attributions@.len() && covers_spec((#[trigger] b.attributions@[i]).path@, path) {
        let i = choose|i: int| 0 <= i < b.attributions@.len() && covers_spec((#[trigger] b.attributions@[i]).path@, path);
        assert(covers_spec(a.attributions@[i].path@, path));
    }
    if in_scope_spec(a.scope@, path) {
        let i = choose|i: int| 0 <= i < a.scope@.len() && covers_spec((#[trigger] a.scope@[i])@, path);
        assert(covers_spec(b.scope@[i]@, path));
    }
    if in_scope_spec(b.scope@, path) {
        let i = choose|i: int| 0 <= i < b.scope@.len() && covers_spec((#[trigger] b.scope@[i])@, path);
        assert(covers_spec(a.scope@[i]@, path));
    }
    if in_scope_spec(a.check_inputs@, path) {
        let i = choose|i: int| 0 <= i < a.check_inputs@.len() && covers_spec((#[trigger] a.check_inputs@[i])@, path);
        assert(covers_spec(b.check_inputs@[i]@, path));
    }
    if in_scope_spec(b.check_inputs@, path) {
        let i = choose|i: int| 0 <= i < b.check_inputs@.len() && covers_spec((#[trigger] b.check_inputs@[i])@, path);
        assert(covers_spec(a.check_inputs@[i]@, path));
    }
}

proof fn lemma_receipt_fold_challenged(
    h: u64,
    a: Task,
    b: Task,
    all: Seq<(Seq<char>, Seq<char>)>,
    entries: Seq<(Seq<char>, Seq<char>)>,
)
    requires
        a == (Task { challenged: a.challenged, ..b }),
    ensures
        receipt_fold(h, a, all, entries) == receipt_fold(h, b, all, entries),
    decreases entries.len(),
{
    if entries.len() > 0 {
        lemma_receipt_fold_challenged(h, a, b, all, entries.drop_last());
        lemma_covers_same_but_receipt(a, b, all, entries.last().0);
    }
}

/// What a carrying role must do before it can hand the task back, or nothing.
pub open spec fn handback_spec(record: Seq<char>, task: Task, entries: Seq<(Seq<char>, Seq<char>)>) -> Result<(), Seq<char>> {
    if task.state@ != "closed"@ && first_block(task.decisions@) is Some {
        Err("await-answer"@)
    } else if task.state@ == "open"@ || task.state@ == "blocked"@ {
        Err("accept"@)
    } else if task.state@ == "ready"@ {
        Err("review"@)
    } else if task.state@ == "closed"@ {
        Err("closed"@)
    } else if task.state@ != "accepted"@ {
        Err("invalid-state"@)
    } else if task.accepted is None {
        Err("accept"@)
    } else if unpicked_spec(task).len() > 0 {
        Err("pick-question"@)
    } else if !(task.check is Some || task.check_argv is Some) {
        Err("declare-check"@)
    } else if !readiness_spec(task, entries).supported {
        Err("record-evidence"@)
    } else if !challenge_current_spec(record, task, entries) {
        Err("challenge"@)
    } else {
        Ok(())
    }
}

pub open spec fn static_result(r: Result<(), &'static str>) -> Result<(), Seq<char>> {
    match r {
        Ok(()) => Ok(()),
        Err(s) => Err(s@),
    }
}

/// Whether the carrying role can hand the task back, or the step it owes first.
pub fn handback(record: &str, task: &Task, tree: &Tree) -> (r: Result<(), &'static str>)
    ensures
        static_result(r) == handback_spec(record@, *task, tree@),
{
    proof {
        lemma_first_block(task.decisions@);
    }
    if task.open() && unanswered_decision(task).is_some() {
        return Err("await-answer");
    }
    if str_eq(task.state.as_str(), "open") || str_eq(task.state.as_str(), "blocked") {
        return Err("accept");
    }
    if str_eq(task.state.as_str(), "ready") {
        return Err("review");
    }
    if str_eq(task.state.as_str(), "closed") {
        return Err("closed");
    }
    if !str_eq(task.state.as_str(), "accepted") {
        return Err("invalid-state");
    }
    if task.accepted.is_none() {
        return Err("accept");
    }
    let unpicked = task.unpicked();
    if unpicked.len() > 0 {
        return Err("pick-question");
    }
    if !task.declares_check() {
        return Err("declare-check");
    }
    if !readiness(task, tree).supported {
        return Err("record-evidence");
    }
    if !challenge_current(record, task, tree) {
        return Err("challenge");
    }
    Ok(())
}

/// Hands the task back as ready, when nothing is owed and no blocker stands.
pub fn mark_ready(record: &str, task: &mut Task, tree: &Tree, blockers: usize) -> (r: Result<(), &'static str>)
    ensures
        match handback_spec(record@, *old(task), tree@) {
            Err(step) => static_result(r) == Err::<(), Seq<char>>(step) && *final(task) == *old(task),
            Ok(()) => if blockers != 0 {
                static_result(r) == Err::<(), Seq<char>>("resolve-challenge"@) && *final(task) == *old(task)
            } else {
                r is Ok && final(task).state@ == "ready"@ && *final(task) == (Task { state: final(task).state, ..*old(task) })
            },
        },
{
    match handback(record, task, tree) {
        Err(step) => {
            return Err(step);
        },
        Ok(()) => {},
    }
    if blockers != 0 {
        return Err("resolve-challenge");
    }
    task.state = "ready".to_owned();
    Ok(())
}

// ---------------------------------------------------------------------------------------
// What changed since the task was opened.
// ---------------------------------------------------------------------------------------

/// Whether `k` has another digest in `current` than in `opened`, or is in one of them only.
pub open spec fn moved_key(opened: Seq<(Seq<char>, Seq<char>)>, current: Seq<(Seq<char>, Seq<char>)>, k: Seq<char>) -> bool {
    lookup(current, k) != lookup(opened, k)
}

pub open spec fn strictly_sorted(s: Seq<Seq<char>>) -> bool {
    forall|a: int, b: int| 0 <= a < b < s.len() ==> key_less(#[trigger] s[a], #[trigger] s[b])
}

pub open spec fn str_views(s: Seq<&str>) -> Seq<Seq<char>> {
    s.map_values(|x: &str| x@)
}

pub open spec fn has_key(entries: Seq<(Seq<char>, Seq<char>)>, k: Seq<char>) -> bool {
    exists|m: int| 0 <= m < entries.len() && (#[trigger] entries[m]).0 == k
}

proof fn lemma_less_ne(a: Seq<char>, b: Seq<char>)
    requires
        key_less(a, b),
    ensures
        a != b,
{
    lemma_key_less_irreflexive(a);
}

proof fn lemma_absent(entries: Seq<(Seq<char>, Seq<char>)>, k: Seq<char>)
    requires
        forall|m: int| 0 <= m < entries.len() ==> (#[trigger] entries[m]).0 != k,
    ensures
        lookup(entries, k) is None,
{
    lemma_lookup(entries, k);
    if let Some(v) = lookup(entries, k) {
        let m = choose|m: int| 0 <= m < entries.len() && entries[m] == (k, v);
        assert(entries[m].0 == k);
    }
}

proof fn lemma_has_key_take(entries: Seq<(Seq<char>, Seq<char>)>, i: int, k: Seq<char>)
    requires
        0 <= i < entries.len(),
    ensures
        has_key(entries.take(i + 1), k) <==> (has_key(entries.take(i), k) || entries[i].0 == k),
{
    if has_key(entries.take(i + 1), k) {
        let m = choose|m: int| 0 <= m < entries.take(i + 1).len() && (#[trigger] entries.take(i + 1)[m]).0 == k;
        if m < i {
            assert(entries.take(i)[m] == entries[m]);
        }
    }
    if has_key(entries.take(i), k) {
        let m = choose|m: int| 0 <= m < entries.take(i).len() && (#[trigger] entries.take(i)[m]).0 == k;
        assert(entries.take(i + 1)[m] == entries[m]);
    }
    if entries[i].0 == k {
        assert(entries.take(i + 1)[i] == entries[i]);
    }
}

proof fn lemma_present(entries: Seq<(Seq<char>, Seq<char>)>, k: Seq<char>)
    requires
        lookup(entries, k) is Some,
    ensures
        has_key(entries, k),
{
    lemma_lookup(entries, k);
    let v = lookup(entries, k)->0;
    let m = choose|m: int| 0 <= m < entries.len() && entries[m] == (k, v);
    assert(entries[m].0 == k);
}

/// The paths whose digests changed since the task was opened, in ascending order.
pub fn changed<'a>(task: &'a Task, current: &'a Tree) -> (r: Vec<&'a str>)
    ensures
        strictly_sorted(str_views(r@)),
        forall|k: Seq<char>| str_views(r@).contains(k) <==> moved_key(task.opened_tree@, current@, k),
{
    let opened = &task.opened_tree;
    let cn = current.len();
    let on = opened.len();
    let ghost c = current@;
    let ghost o = opened@;
    let mut out: Vec<&'a str> = Vec::new();
    let mut i: usize = 0;
    let mut j: usize = 0;
    proof {
        assert(c.take(0) =~= Seq::<(Seq<char>, Seq<char>)>::empty());
        assert(o.take(0) =~= Seq::<(Seq<char>, Seq<char>)>::empty());
        assert(str_views(out@) =~= Seq::<Seq<char>>::empty());
    }
    while i < cn || j < on
        invariant
            i <= cn == c.len(),
            j <= on == o.len(),
            c == current@,
            o == opened@,
            o == task.opened_tree@,
            sorted_keys(c),
            sorted_keys(o),
            strictly_sorted(str_views(out@)),
            forall|a: int, m: int| 0 <= a < out@.len() && i <= m < cn ==> key_less(#[trigger] str_views(out@)[a], #[trigger] c[m].0),
            forall|a: int, n: int| 0 <= a < out@.len() && j <= n < on ==> key_less(#[trigger] str_views(out@)[a], #[trigger] o[n].0),
            forall|m: int, n: int| 0 <= m < i && j <= n < on ==> key_less(#[trigger] c[m].0, #[trigger] o[n].0),
            forall|n: int, m: int| 0 <= n < j && i <= m < cn ==> key_less(#[trigger] o[n].0, #[trigger] c[m].0),
            forall|k: Seq<char>| #[trigger] str_views(out@).contains(k) <==> (moved_key(o, c, k) && (has_key(c.take(i as int), k) || has_key(o.take(j as int), k))),
        decreases cn - i + on - j,
    {
        let ghost before = str_views(out@);
        let take_current = if i < cn && j < on {
            let (ck, _) = current.entry(i);
            let (ok, _) = opened.entry(j);
            key_compare(ck, ok)
        } else if i < cn {
            -1
        } else {
            1
        };
        if take_current < 0 {
            let (key, _) = current.entry(i);
            let ghost k = c[i as int].0;
            proof {
                lemma_lookup_at(c, i as int);
                assert forall|n: int| 0 <= n < on implies (#[trigger] o[n]).0 != k by {
                    if n < j {
                        lemma_less_ne(o[n].0, k);
                    } else {
                        if n > j {
                            lemma_key_less_transitive(k, o[j as int].0, o[n].0);
                        }
                        lemma_less_ne(k, o[n].0);
                    }
                }
                lemma_absent(o, k);
                assert forall|n: int| j <= n < on implies key_less(k, #[trigger] o[n].0) by {
                    if n > j {
                        lemma_key_less_transitive(k, o[j as int].0, o[n].0);
                    }
                }
            }
            out.push(key);
            proof {
                assert(str_views(out@) =~= before.push(k));
                assert forall|kk: Seq<char>| #[trigger] str_views(out@).contains(kk) <==> (before.contains(kk) || kk == k) by {
                    if str_views(out@).contains(kk) {
                        let a = choose|a: int| 0 <= a < str_views(out@).len() && str_views(out@)[a] == kk;
                        if a < before.len() {
                            assert(before[a] == kk);
                        }
                    }
                    if before.contains(kk) {
                        let a = choose|a: int| 0 <= a < before.len() && before[a] == kk;
                        assert(str_views(out@)[a] == kk);
                    }
                    if kk == k {
                        assert(str_views(out@)[before.len() as int] == kk);
                    }
                }
                assert forall|kk: Seq<char>| true implies (has_key(c.take(i + 1), kk) <==> (has_key(c.take(i as int), kk) || c[i as int].0 == kk)) by {
                    lemma_has_key_take(c, i as int, kk);
                }
            }
            i += 1;
        } else if take_current > 0 {
            let (key, _) = opened.entry(j);
            let ghost k = o[j as int].0;
            proof {
                lemma_lookup_at(o, j as int);
                assert forall|m: int| 0 <= m < cn implies (#[trigger] c[m]).0 != k by {
                    if m < i {
                        lemma_less_ne(c[m].0, k);
                    } else {
                        if i < cn {
                            lemma_key_less_total(c[i as int].0, k);
                        }
                        if m > i {
                            lemma_key_less_transitive(k, c[i as int].0, c[m].0);
                        }
                        lemma_less_ne(k, c[m].0);
                    }
                }
                lemma_absent(c, k);
                assert forall|m: int| i <= m < cn implies key_less(k, #[trigger] c[m].0) by {
                    lemma_key_less_total(c[i as int].0, k);
                    if m > i {
                        lemma_key_less_transitive(k, c[i as int].0, c[m].0);
                    }
                }
            }
            out.push(key);
            proof {
                assert(str_views(out@) =~= before.push(k));
                assert forall|kk: Seq<char>| #[trigger] str_views(out@).contains(kk) <==> (before.contains(kk) || kk == k) by {
                    if str_views(out@).contains(kk) {
                        let a = choose|a: int| 0 <= a < str_views(out@).len() && str_views(out@)[a] == kk;
                        if a < before.len() {
                            assert(before[a] == kk);
                        }
                    }
                    if before.contains(kk) {
                        let a = choose|a: int| 0 <= a < before.len() && before[a] == kk;
                        assert(str_views(out@)[a] == kk);
                    }
                    if kk == k {
                        assert(str_views(out@)[before.len() as int] == kk);
                    }
                }
                assert forall|kk: Seq<char>| true implies (has_key(o.take(j + 1), kk) <==> (has_key(o.take(j as int), kk) || o[j as int].0 == kk)) by {
                    lemma_has_key_take(o, j as int, kk);
                }
            }
            j += 1;
        } else {
            let (key, now) = current.entry(i);
            let (_, then) = opened.entry(j);
            let ghost k = c[i as int].0;
            proof {
                lemma_lookup_at(c, i as int);
                lemma_lookup_at(o, j as int);
                assert forall|m: int| i < m < cn implies key_less(k, #[trigger] c[m].0) by {}
                assert forall|n: int| j < n < on implies key_less(k, #[trigger] o[n].0) by {}
                if before.contains(k) {
                    let a = choose|a: int| 0 <= a < before.len() && before[a] == k;
                    lemma_less_ne(before[a], c[i as int].0);
                }
                assert forall|kk: Seq<char>| true implies (has_key(c.take(i + 1), kk) <==> (has_key(c.take(i as int), kk) || c[i as int].0 == kk)) by {
                    lemma_has_key_take(c, i as int, kk);
                }
                assert forall|kk: Seq<char>| true implies (has_key(o.take(j + 1), kk) <==> (has_key(o.take(j as int), kk) || o[j as int].0 == kk)) by {
                    lemma_has_key_take(o, j as int, kk);
                }
            }
            if !str_eq(now, then) {
                out.push(key);
                proof {
                    assert(str_views(out@) =~= before.push(k));
                    assert forall|kk: Seq<char>| #[trigger] str_views(out@).contains(kk) <==> (before.contains(kk) || kk == k) by {
                        if str_views(out@).contains(kk) {
                            let a = choose|a: int| 0 <= a < str_views(out@).len() && str_views(out@)[a] == kk;
                            if a < before.len() {
                                assert(before[a] == kk);
                            }
                        }
                        if before.contains(kk) {
                            let a = choose|a: int| 0 <= a < before.len() && before[a] == kk;
                            assert(str_views(out@)[a] == kk);
                        }
                        if kk == k {
                            assert(str_views(out@)[before.len() as int] == kk);
                        }
                    }
                }
            }
            i += 1;
            j += 1;
        }
    }
    proof {
        assert(c.take(cn as int) =~= c);
        assert(o.take(on as int) =~= o);
        assert forall|k: Seq<char>| moved_key(o, c, k) implies (has_key(c, k) || has_key(o, k)) by {
            if lookup(c, k) is Some {
                lemma_present(c, k);
            } else {
                lemma_present(o, k);
            }
        }
    }
    out
}

/// Whether `paths` lists, in ascending order, the paths that changed between the two trees.
pub open spec fn lists_changes(paths: Seq<Seq<char>>, opened: Seq<(Seq<char>, Seq<char>)>, current: Seq<(Seq<char>, Seq<char>)>) -> bool {
    strictly_sorted(paths) && forall|k: Seq<char>| paths.contains(k) <==> moved_key(opened, current, k)
}

fn owned_strings(v: &Vec<&str>) -> (out: Vec<String>)
    ensures
        strings(out@) == str_views(v@),
{
    let mut out: Vec<String> = Vec::new();
    let mut i: usize = 0;
    while i < v.len()
        invariant
            i <= v.len(),
            strings(out@) == str_views(v@).take(i as int),
        decreases v.len() - i,
    {
        let ghost before = strings(out@);
        out.push(v[i].to_owned());
        assert(strings(out@) =~= before.push(v@[i as int]@));
        assert(str_views(v@).take(i + 1) =~= str_views(v@).take(i as int).push(v@[i as int]@));
        i += 1;
    }
    assert(str_views(v@).take(v@.len() as int) =~= str_views(v@));
    out
}

/// Records that `model` accepted the task at `unix`, with what had changed by then.
pub fn record_acceptance(task: &mut Task, tree: &Tree, model: &str, unix: u64)
    ensures
        final(task).accepted matches Some(a) && a.model@ == model@ && a.unix == unix,
        final(task).accepted matches Some(a) && a.changed_at_acceptance is None ==> forall|k: Seq<char>|
            !moved_key(old(task).opened_tree@, tree@, k),
        final(task).accepted matches Some(a) && a.changed_at_acceptance matches Some(paths) ==> paths@.len() > 0
            && lists_changes(strings(paths@), old(task).opened_tree@, tree@),
        *final(task) == (Task { accepted: final(task).accepted, ..*old(task) }),
{
    let changed_paths = changed(task, tree);
    let changed_at_acceptance = if changed_paths.len() == 0 {
        proof {
            assert forall|k: Seq<char>| !moved_key(old(task).opened_tree@, tree@, k) by {
                if moved_key(old(task).opened_tree@, tree@, k) {
                    assert(str_views(changed_paths@).contains(k));
                }
            }
        }
        None
    } else {
        let owned = owned_strings(&changed_paths);
        assert(strings(owned@).len() == owned@.len());
        assert(lists_changes(strings(owned@), old(task).opened_tree@, tree@));
        Some(owned)
    };
    task.accepted = Some(Acceptance { model: model.to_owned(), unix, changed_at_acceptance });
}

/// Whether the orchestrator may accept the task's result now.
pub open spec fn acceptable(record: Seq<char>, task: Task, entries: Seq<(Seq<char>, Seq<char>)>, standing: usize) -> bool {
    standing == 0 && readiness_spec(task, entries).supported && challenge_current_spec(record, task, entries)
        && applies_spec(task, "closed"@)
}

/// Closes the task with its result accepted by `model` at `now_unix`, recording the digest of
/// every path that changed; refused while a challenge stands or the evidence or receipt is not
/// current.
pub fn accept_result(record: &str, task: &mut Task, tree: &Tree, standing: usize, model: &str, now_unix: u64) -> (done: bool)
    ensures
        done == acceptable(record@, *old(task), tree@, standing),
        !done ==> *final(task) == *old(task),
        done ==> final(task).state@ == "closed"@ && final(task).closed_unix == Some(now_unix),
        done ==> (final(task).result matches Some(a) && a.model@ == model@ && a.unix == now_unix
            && a.changed_at_acceptance is None),
        done ==> forall|k: Seq<char>|
            lookup(#[trigger] final(task).closed_paths@, k) == if moved_key(old(task).opened_tree@, tree@, k)
                && observed(tree@, k) is Some {
                observed(tree@, k)
            } else {
                lookup(old(task).closed_paths@, k)
            },
        done ==> *final(task) == (Task {
            state: final(task).state,
            result: final(task).result,
            closed_unix: final(task).closed_unix,
            closed_paths: final(task).closed_paths,
            ..*old(task)
        }),
{
    if standing != 0 || !readiness(task, tree).supported || !challenge_current(record, task, tree) {
        return false;
    }
    if !apply(task, "closed") {
        return false;
    }
    proof {
        reveal_strlit("closed");
        reveal_strlit("accepted");
        reveal_strlit("blocked");
        assert("closed"@[0] != "accepted"@[0]);
        assert("closed"@[0] != "blocked"@[0]);
    }
    task.result = Some(Acceptance { model: model.to_owned(), unix: now_unix, changed_at_acceptance: None });
    task.closed_unix = Some(now_unix);
    let paths = owned_strings(&changed(task, tree));
    let ghost mid = *task;
    let ghost opened = old(task).opened_tree@;
    let ghost start = old(task).closed_paths@;
    let mut i: usize = 0;
    while i < paths.len()
        invariant
            i <= paths.len(),
            lists_changes(strings(paths@), opened, tree@),
            opened == task.opened_tree@,
            forall|k: Seq<char>|
                lookup(#[trigger] task.closed_paths@, k) == if strings(paths@).take(i as int).contains(k)
                    && observed(tree@, k) is Some {
                    observed(tree@, k)
                } else {
                    lookup(start, k)
                },
            *task == (Task { closed_paths: task.closed_paths, ..mid }),
        decreases paths.len() - i,
    {
        let ghost taken = strings(paths@).take(i as int);
        proof {
            assert(strings(paths@).take(i + 1) =~= taken.push(paths@[i as int]@));
            lemma_push_contains(taken, paths@[i as int]@);
        }
        match observed_digest(tree, paths[i].as_str()) {
            Some(digest) => {
                task.closed_paths.insert(paths[i].clone(), digest);
            },
            None => {},
        }
        i += 1;
    }
    proof {
        assert(strings(paths@).take(paths@.len() as int) =~= strings(paths@));
    }
    true
}

/// Owes `path` again: it is no longer listed as removed, and it is a deliverable, with its
/// digest when the task was opened.
pub fn owe_path(task: &mut Task, path: String)
    ensures
        final(task).removed_deliverables@ == old(task).removed_deliverables@.filter(
            |r: RemovedDeliverable| r.path@ != path@,
        ),
        (exists|i: int| 0 <= i < old(task).deliverables@.len() && (#[trigger] old(task).deliverables@[i]).path@ == path@)
            ==> final(task).deliverables == old(task).deliverables,
        !(exists|i: int| 0 <= i < old(task).deliverables@.len() && (#[trigger] old(task).deliverables@[i]).path@ == path@)
            ==> final(task).deliverables@.drop_last() == old(task).deliverables@ && final(task).deliverables@.len()
            == old(task).deliverables@.len() + 1 && final(task).deliverables@.last().path@ == path@
            && opt_view(final(task).deliverables@.last().opened_digest) == observed(old(task).opened_tree@, path@),
        *final(task) == (Task {
            removed_deliverables: final(task).removed_deliverables,
            deliverables: final(task).deliverables,
            ..*old(task)
        }),
{
    let mut kept: Vec<RemovedDeliverable> = Vec::new();
    let mut removed: Vec<RemovedDeliverable> = Vec::new();
    std::mem::swap(&mut removed, &mut task.removed_deliverables);
    let ghost all = removed@;
    assert(all.len() == removed.len());
    let mut i: usize = 0;
    assert(all.take(0) =~= Seq::<RemovedDeliverable>::empty());
    while removed.len() > 0
        invariant
            i + removed@.len() == all.len(),
            all.len() <= usize::MAX,
            removed@ == all.skip(i as int),
            all == old(task).removed_deliverables@,
            kept@ == all.take(i as int).filter(|r: RemovedDeliverable| r.path@ != path@),
        decreases removed.len(),
    {
        let entry = removed.remove(0);
        proof {
            reveal(Seq::filter);
            assert(all.take(i + 1).drop_last() =~= all.take(i as int));
            assert(all[i as int] == entry);
            assert(removed@ =~= all.skip(i + 1));
        }
        if !str_eq(entry.path.as_str(), path.as_str()) {
            kept.push(entry);
        }
        i += 1;
    }
    assert(all.take(all.len() as int) =~= all);
    task.removed_deliverables = kept;
    if any_deliverable_is(&task.deliverables, path.as_str()) {
        return;
    }
    let opened_digest = observed_digest(&task.opened_tree, path.as_str());
    task.deliverables.push(Deliverable { opened_digest, path });
}

fn any_deliverable_is(deliverables: &Vec<Deliverable>, path: &str) -> (b: bool)
    ensures
        b == exists|i: int| 0 <= i < deliverables@.len() && (#[trigger] deliverables@[i]).path@ == path@,
{
    let mut i: usize = 0;
    while i < deliverables.len()
        invariant
            i <= deliverables.len(),
            forall|k: int| 0 <= k < i ==> (#[trigger] deliverables@[k]).path@ != path@,
        decreases deliverables.len() - i,
    {
        if str_eq(deliverables[i].path.as_str(), path) {
            return true;
        }
        i += 1;
    }
    false
}

/// Whether `model` may address a finding: any model when no list is given, a listed model, or
/// the carrying role with an approved exception.
pub open spec fn can_address_spec(task: Task, model: Seq<char>, permitted: Seq<Seq<char>>) -> bool {
    permitted.len() == 0 || permitted.contains(model) || ((task.accepted matches Some(a) && a.model@ == model)
        && exists|i: int|
        0 <= i < task.exceptions@.len() && (#[trigger] task.exceptions@[i]).model@ == model
            && task.exceptions@[i].approval is Some)
}

/// Whether `model` may address a finding of the task.
pub fn can_address_finding(task: &Task, model: &str, permitted: &Vec<String>) -> (b: bool)
    ensures
        b == can_address_spec(*task, model@, strings(permitted@)),
{
    assert(strings(permitted@).len() == permitted@.len());
    if permitted.len() == 0 || contains_string(permitted, model) {
        return true;
    }
    let carried = match &task.accepted {
        Some(accepted) => str_eq(accepted.model.as_str(), model),
        None => false,
    };
    if !carried {
        return false;
    }
    let mut i: usize = 0;
    while i < task.exceptions.len()
        invariant
            i <= task.exceptions.len(),
            strings(permitted@).len() > 0,
            !strings(permitted@).contains(model@),
            task.accepted matches Some(a) && a.model@ == model@,
            forall|k: int| 0 <= k < i ==> !((#[trigger] task.exceptions@[k]).model@ == model@ && task.exceptions@[k].approval is Some),
        decreases task.exceptions.len() - i,
    {
        if str_eq(task.exceptions[i].model.as_str(), model) && task.exceptions[i].approval.is_some() {
            assert(task.exceptions@[i as int].model@ == model@ && task.exceptions@[i as int].approval is Some);
            return true;
        }
        i += 1;
    }
    false
}

/// Records a run of the task's check.
pub fn apply_evidence(task: &mut Task, evidence: Evidence)
    ensures
        final(task).evidence@ == old(task).evidence@.push(evidence),
        *final(task) == (Task { evidence: final(task).evidence, ..*old(task) }),
{
    task.evidence.push(evidence);
}

/// Whether some module of a contract lies in the task's scope.
pub open spec fn touches_scope(scope: Seq<String>, modules: Seq<String>) -> bool {
    exists|i: int| 0 <= i < modules.len() && in_scope_spec(scope, (#[trigger] modules[i])@)
}

/// What the task resolves to: the models, lenses and verification as given, and the
/// contracts with a module in the task's scope.
pub fn resolve(
    task: &Task,
    models: &Vec<String>,
    lenses: &Vec<String>,
    verification: &str,
    contracts: &Vec<(String, Vec<String>)>,
) -> (r: Resolution)
    ensures
        strings(r.models@) == strings(models@),
        strings(r.lenses@) == strings(lenses@),
        r.verification@ == verification@,
        strings(r.requirements@) == contracts@.filter(
            |c: (String, Vec<String>)| touches_scope(task.scope@, c.1@),
        ).map_values(|c: (String, Vec<String>)| c.0@),
{
    let mut requirements: Vec<String> = Vec::new();
    let mut i: usize = 0;
    while i < contracts.len()
        invariant
            i <= contracts.len(),
            strings(requirements@) == contracts@.take(i as int).filter(
                |c: (String, Vec<String>)| touches_scope(task.scope@, c.1@),
            ).map_values(|c: (String, Vec<String>)| c.0@),
        decreases contracts.len() - i,
    {
        let (identity, modules) = &contracts[i];
        let ghost before = strings(requirements@);
        proof {
            reveal(Seq::filter);
            assert(contracts@.take(i + 1).drop_last() =~= contracts@.take(i as int));
        }
        let mut hit = false;
        let mut m: usize = 0;
        while m < modules.len()
            invariant
                m <= modules.len(),
                hit == exists|k: int| 0 <= k < m && in_scope_spec(task.scope@, (#[trigger] modules@[k])@),
            decreases modules.len() - m,
        {
            if task.in_scope(modules[m].as_str()) {
                hit = true;
            }
            m += 1;
        }
        if hit {
            requirements.push(identity.clone());
            assert(strings(requirements@) =~= before.push(identity@));
        }
        i += 1;
    }
    assert(contracts@.take(contracts@.len() as int) =~= contracts@);
    Resolution {
        models: copy_strings(models),
        lenses: copy_strings(lenses),
        requirements,
        verification: verification.to_owned(),
    }
}

/// What opens a task.
pub struct Opening {
    pub name: String,
    pub role: String,
    pub statement: String,
    pub scope: Vec<String>,
    pub deliverables: Vec<String>,
    pub check: Option<String>,
    pub check_argv: Option<Vec<String>>,
    pub inputs: Vec<String>,
    pub goal: Option<String>,
}

impl Default for Opening {
    fn default() -> (o: Opening)
        ensures
            o.name@ == Seq::<char>::empty() && o.role@ == Seq::<char>::empty() && o.statement@
                == Seq::<char>::empty() && o.scope@.len() == 0 && o.deliverables@.len() == 0
                && o.check is None && o.check_argv is None && o.inputs@.len() == 0 && o.goal is None,
    {
        Opening {
            name: String::new(),
            role: String::new(),
            statement: String::new(),
            scope: Vec::new(),
            deliverables: Vec::new(),
            check: None,
            check_argv: None,
            inputs: Vec::new(),
            goal: None,
        }
    }
}

/// The task an opening records at `now_unix`, with the tree then and the deliverables'
/// digests then (paired in order; a missing digest drops its deliverable).
pub fn record_from(opening: Opening, now_unix: u64, tree: Tree, digests: Vec<Option<String>>) -> (task: Task)
    ensures
        task.name == opening.name && task.role == opening.role && task.statement == opening.statement,
        task.scope == opening.scope,
        task.deliverables@.len() == if opening.deliverables@.len() <= digests@.len() {
            opening.deliverables@.len()
        } else {
            digests@.len()
        },
        forall|i: int|
            0 <= i < task.deliverables@.len() ==> (#[trigger] task.deliverables@[i]).path == opening.deliverables@[i]
                && task.deliverables@[i].opened_digest == digests@[i],
        task.opened_unix == now_unix,
        task.opened_tree@ == tree@,
        task.check == opening.check && task.check_argv == opening.check_argv,
        task.check_inputs == opening.inputs,
        task.goal == opening.goal,
        task.findings@.len() == 0 && task.closed_unix is None && task.state@ == "open"@,
        task.accepted is None && task.result is None && task.assessments@.len() == 0,
        task.exceptions@.len() == 0 && task.evidence@.len() == 0 && task.challenged is None,
        task.attributions@.len() == 0 && task.build is None && task.notes@.len() == 0,
        task.removed_deliverables@.len() == 0 && task.closed_paths@.len() == 0,
        task.questions@.len() == 0 && task.decisions@.len() == 0 && task.orchestrator_records@.len() == 0,
{
    let mut paths = opening.deliverables;
    let mut digests = digests;
    let ghost all_paths = paths@;
    let ghost all_digests = digests@;
    let n = if paths.len() <= digests.len() {
        paths.len()
    } else {
        digests.len()
    };
    let mut deliverables: Vec<Deliverable> = Vec::new();
    let mut i: usize = 0;
    while i < n
        invariant
            i <= n,
            n <= all_paths.len(),
            n <= all_digests.len(),
            paths@ == all_paths.skip(i as int),
            digests@ == all_digests.skip(i as int),
            deliverables@.len() == i,
            forall|k: int|
                0 <= k < i ==> (#[trigger] deliverables@[k]).path == all_paths[k]
                    && deliverables@[k].opened_digest == all_digests[k],
        decreases n - i,
    {
        let path = paths.remove(0);
        let digest = digests.remove(0);
        proof {
            assert(path == all_paths[i as int]);
            assert(digest == all_digests[i as int]);
            assert(paths@ =~= all_paths.skip(i + 1));
            assert(digests@ =~= all_digests.skip(i + 1));
        }
        deliverables.push(Deliverable { path, opened_digest: digest });
        i += 1;
    }
    let default = Task::default();
    Task {
        name: opening.name,
        role: opening.role,
        statement: opening.statement,
        scope: opening.scope,
        deliverables,
        opened_unix: now_unix,
        opened_tree: tree,
        check: opening.check,
        check_argv: opening.check_argv,
        check_inputs: opening.inputs,
        goal: opening.goal,
        ..default
    }
}

/// The result of reading list items from a position, with `prefix` read before them.
pub open spec fn after_list(prefix: Seq<Seq<char>>, r: Result<(Seq<Seq<char>>, int), crate::project::Failure>) -> Result<
    (Seq<Seq<char>>, int),
    crate::project::Failure,
> {
    match r {
        Ok((rest, end)) => Ok((prefix + rest, end)),
        Err(f) => Err(f),
    }
}

/// The directory that holds task records: `.blabla/tasks` under the root.
pub fn directory(root: &str) -> (d: String)
    ensures
        d@ == crate::project::join_path(crate::project::join_path(root@, ".blabla"@), "tasks"@),
{
    let records = crate::project::join_path_text(root, ".blabla");
    crate::project::join_path_text(records.as_str(), "tasks")
}

/// Where the record of the task `name` is kept: `name.json` in the task directory.
pub fn path_of(root: &str, name: &str) -> (p: String)
    ensures
        p@ == crate::project::join_path(
            crate::project::join_path(crate::project::join_path(root@, ".blabla"@), "tasks"@),
            name@ + ".json"@,
        ),
{
    let file = crate::text::joined(name, ".json");
    crate::project::join_path_text(directory(root).as_str(), file.as_str())
}

/// The lines that report task records that could not be read: `task::name`, three spaces and
/// why, for each record in order.
pub fn unreadable(failures: &Vec<(String, String)>) -> (lines: Vec<String>)
    ensures
        lines@.len() == failures@.len(),
        forall|i: int|
            0 <= i < failures@.len() ==> (#[trigger] lines@[i])@ == "task::"@ + failures@[i].0@ + "   "@
                + failures@[i].1@,
{
    let mut lines: Vec<String> = Vec::new();
    let mut i: usize = 0;
    while i < failures.len()
        invariant
            i <= failures.len(),
            lines@.len() == i,
            forall|k: int|
                0 <= k < i ==> (#[trigger] lines@[k])@ == "task::"@ + failures@[k].0@ + "   "@ + failures@[k].1@,
        decreases failures.len() - i,
    {
        let mut line = crate::text::joined("task::", failures[i].0.as_str());
        crate::text::append(&mut line, "   ");
        crate::text::append(&mut line, failures[i].1.as_str());
        lines.push(line);
        i += 1;
    }
    lines
}

/// One task as `status` lists it.
#[derive(Clone, Debug)]
pub struct TaskSummary {
    pub id: String,
    pub role: String,
    pub state: String,
    pub unresolved: usize,
    pub deliverables: usize,
}

/// The recorded tasks of a project: each summarised, how many are open, and the records that
/// could not be read.
#[derive(Clone, Debug)]
pub struct TaskStatus {
    pub directory: String,
    pub tasks: Vec<TaskSummary>,
    pub open: usize,
    pub unreadable: Vec<String>,
}

/// How many findings of a task are unresolved.
pub open spec fn unresolved_count(t: Task) -> nat {
    t.findings@.filter(|f: Finding| f.resolution is None).len()
}

/// How many of `tasks` are not closed.
pub open spec fn open_count(tasks: Seq<Task>) -> nat
    decreases tasks.len(),
{
    if tasks.len() == 0 {
        0
    } else {
        open_count(tasks.drop_last()) + if tasks.last().state@ != "closed"@ {
            1nat
        } else {
            0nat
        }
    }
}

proof fn lemma_open_count_bound(tasks: Seq<Task>)
    ensures
        open_count(tasks) <= tasks.len(),
    decreases tasks.len(),
{
    if tasks.len() > 0 {
        lemma_open_count_bound(tasks.drop_last());
    }
}

/// Whether `s` summarises `t`.
pub open spec fn summarises(s: TaskSummary, t: Task) -> bool {
    &&& s.id@ == "task::"@ + t.name@
    &&& s.role@ == "role::"@ + t.role@
    &&& s.state@ == crate::text::ascii_upper(t.state@)
    &&& s.unresolved == unresolved_count(t)
    &&& s.deliverables == t.deliverables@.len()
}

/// The recorded tasks of a project, read (`tasks`, in order) or not (`unreadable`); nothing
/// when there are neither.
pub fn status(tasks: &Vec<Task>, unreadable: Vec<String>) -> (r: Option<TaskStatus>)
    ensures
        tasks@.len() == 0 && unreadable@.len() == 0 ==> r is None,
        !(tasks@.len() == 0 && unreadable@.len() == 0) ==> (r matches Some(s) && s.directory@ == ".blabla/tasks"@
            && s.open == open_count(tasks@) && s.unreadable == unreadable && s.tasks@.len() == tasks@.len()
            && forall|i: int| 0 <= i < tasks@.len() ==> summarises(#[trigger] s.tasks@[i], tasks@[i])),
{
    if tasks.len() == 0 && unreadable.len() == 0 {
        return None;
    }
    let mut summaries: Vec<TaskSummary> = Vec::new();
    let mut open: usize = 0;
    let mut i: usize = 0;
    while i < tasks.len()
        invariant
            i <= tasks.len(),
            summaries@.len() == i,
            open == open_count(tasks@.take(i as int)),
            forall|k: int| 0 <= k < i ==> summarises(#[trigger] summaries@[k], tasks@[k]),
        decreases tasks.len() - i,
    {
        let t = &tasks[i];
        assert(tasks@.take(i + 1).drop_last() =~= tasks@.take(i as int));
        proof {
            lemma_open_count_bound(tasks@.take(i as int));
        }
        if t.open() {
            open = open + 1;
        }
        let found = t.unresolved();
        proof {
            assert(found@.len() == found@.map_values(|f: &Finding| *f).len());
        }
        let summary = TaskSummary {
            id: crate::text::joined("task::", t.name.as_str()),
            role: crate::text::joined("role::", t.role.as_str()),
            state: crate::text::to_ascii_upper(t.state.as_str()),
            unresolved: found.len(),
            deliverables: t.deliverables.len(),
        };
        summaries.push(summary);
        i += 1;
    }
    assert(tasks@.take(i as int) =~= tasks@);
    Some(
        TaskStatus {
            directory: ".blabla/tasks".to_owned(),
            tasks: summaries,
            open,
            unreadable,
        },
    )
}

/// A decision with the model name it is counted under.
pub open spec fn answered_with(named: Seq<(String, &Decision)>, k: int, key: Seq<char>) -> bool {
    named[k].0@ == key && named[k].1.answer is Some
}

/// How many answered decisions in `named` are counted under `key`: answered, held (not
/// overruled), their stated confidence summed, and asked (put as a question).
pub open spec fn tally(named: Seq<(String, &Decision)>, key: Seq<char>) -> (nat, nat, nat, nat)
    decreases named.len(),
{
    if named.len() == 0 {
        (0, 0, 0, 0)
    } else {
        let (a, h, s, q) = tally(named.drop_last(), key);
        let (k, d) = named.last();
        if k@ == key && d.answer is Some {
            (
                a + 1,
                h + if !overruled_spec(*d) {
                    1nat
                } else {
                    0nat
                },
                s + d.confidence as nat,
                q + if d.on is Some {
                    1nat
                } else {
                    0nat
                },
            )
        } else {
            (a, h, s, q)
        }
    }
}

proof fn lemma_tally_bounds(named: Seq<(String, &Decision)>, key: Seq<char>)
    ensures
        tally(named, key).0 <= named.len(),
        tally(named, key).1 <= tally(named, key).0,
        tally(named, key).3 <= tally(named, key).0,
        tally(named, key).2 <= 255 * tally(named, key).0,
        tally(named, key).0 == 0 <==> forall|k: int| 0 <= k < named.len() ==> !answered_with(named, k, key),
    decreases named.len(),
{
    if named.len() > 0 {
        lemma_tally_bounds(named.drop_last(), key);
        assert forall|k: int| 0 <= k < named.len() - 1 implies answered_with(named.drop_last(), k, key)
            == answered_with(named, k, key) by {
            assert(named.drop_last()[k] == named[k]);
        }
        if answered_with(named, named.len() - 1, key) {
            assert(tally(named, key).0 > 0);
        } else {
            assert(tally(named, key).0 == tally(named.drop_last(), key).0);
            if tally(named, key).0 == 0 {
                assert forall|k: int| 0 <= k < named.len() implies !answered_with(named, k, key) by {
                    if k < named.len() - 1 {
                        assert(!answered_with(named.drop_last(), k, key));
                    }
                }
            } else {
                let k = choose|k: int| 0 <= k < named.len() - 1 && answered_with(named.drop_last(), k, key);
                assert(answered_with(named, k, key));
            }
        }
    }
}

/// The mean stated confidence, rounded half up, of `answered` decisions whose confidences
/// sum to `stated`; 100 if it did not fit a byte.
pub open spec fn mean_confidence(stated: nat, answered: nat) -> nat {
    let m = (stated + answered / 2) / answered;
    if m <= 255 {
        m
    } else {
        100
    }
}

/// Whether `c` is the row of `named` for the model `c.model`.
pub open spec fn row_of(named: Seq<(String, &Decision)>, c: Calibration) -> bool {
    let (a, h, s, q) = tally(named, c.model@);
    &&& c.answered == a
    &&& c.held == h
    &&& c.overruled == a - h
    &&& c.asked == q
    &&& c.mean_confidence == mean_confidence(s, a)
}

/// Whether `out` calibrates `named`: one row per model under which an answered decision is
/// counted (and no row without one), in ascending order of model name, each with its tally.
pub open spec fn calibrated(named: Seq<(String, &Decision)>, out: Seq<Calibration>) -> bool {
    &&& forall|i: int, j: int| 0 <= i < j < out.len() ==> key_less(#[trigger] out[i].model@, #[trigger] out[j].model@)
    &&& forall|i: int| 0 <= i < out.len() ==> (#[trigger] out[i]).answered > 0
    &&& forall|k: int|
        0 <= k < named.len() && (#[trigger] named[k]).1.answer is Some ==> exists|i: int|
            0 <= i < out.len() && out[i].model@ == named[k].0@
    &&& forall|i: int| 0 <= i < out.len() ==> row_of(named, #[trigger] out[i])
}

/// The calibration of the models under which the decisions in `named` are counted.
pub fn calibrate(named: &Vec<(String, &Decision)>) -> (out: Vec<Calibration>)
    ensures
        calibrated(named@, out@),
{
    let mut models = Tree::new();
    let mut i: usize = 0;
    while i < named.len()
        invariant
            i <= named.len(),
            forall|key: Seq<char>|
                (lookup(models@, key) is Some) == exists|k: int| 0 <= k < i && answered_with(named@, k, key),
        decreases named.len() - i,
    {
        if named[i].1.answer.is_some() {
            models.insert(named[i].0.clone(), String::new());
        }
        proof {
            assert forall|key: Seq<char>|
                (lookup(models@, key) is Some) == exists|k: int| 0 <= k < i + 1 && answered_with(named@, k, key) by {
                if answered_with(named@, i as int, key) {
                    assert(lookup(models@, key) is Some);
                }
            }
        }
        i += 1;
    }
    let n = models.len();
    let mut out: Vec<Calibration> = Vec::new();
    let mut j: usize = 0;
    while j < n
        invariant
            j <= n == models@.len(),
            sorted_keys(models@),
            out@.len() == j,
            forall|key: Seq<char>|
                (lookup(models@, key) is Some) == exists|k: int| 0 <= k < named@.len() && answered_with(named@, k, key),
            forall|m: int| 0 <= m < j ==> (#[trigger] out@[m]).model@ == models@[m].0,
            forall|m: int| 0 <= m < j ==> row_of(named@, #[trigger] out@[m]),
            forall|m: int| 0 <= m < j ==> (#[trigger] out@[m]).answered > 0,
        decreases n - j,
    {
        let (model, _) = models.entry(j);
        let mut answered: usize = 0;
        let mut held: usize = 0;
        let mut stated: u128 = 0;
        let mut asked: usize = 0;
        let mut k: usize = 0;
        while k < named.len()
            invariant
                k <= named.len(),
                (answered as nat, held as nat, stated as nat, asked as nat) == tally(named@.take(k as int), model@),
            decreases named.len() - k,
        {
            assert(named@.take(k + 1).drop_last() =~= named@.take(k as int));
            proof {
                lemma_tally_bounds(named@.take(k as int), model@);
            }
            let (name, d) = &named[k];
            if str_eq(name.as_str(), model) && d.answer.is_some() {
                answered = answered + 1;
                if !d.overruled() {
                    held = held + 1;
                }
                stated = stated + d.confidence as u128;
                if d.on.is_some() {
                    asked = asked + 1;
                }
            }
            k += 1;
        }
        assert(named@.take(k as int) =~= named@);
        proof {
            lemma_tally_bounds(named@, model@);
            crate::tree::lemma_lookup_at(models@, j as int);
            assert(lookup(models@, model@) is Some);
        }
        let mean = (stated + answered as u128 / 2) / answered as u128;
        let confidence: u8 = if mean <= 255 {
            mean as u8
        } else {
            100
        };
        out.push(
            Calibration {
                model: model.to_owned(),
                answered,
                held,
                overruled: answered - held,
                mean_confidence: confidence,
                asked,
            },
        );
        j += 1;
    }
    proof {
        assert forall|k: int| 0 <= k < named@.len() && (#[trigger] named@[k]).1.answer is Some implies exists|i: int|
            0 <= i < out@.len() && out@[i].model@ == named@[k].0@ by {
            assert(answered_with(named@, k, named@[k].0@));
            crate::tree::lemma_lookup(models@, named@[k].0@);
            let v = lookup(models@, named@[k].0@)->0;
            let m = choose|m: int| 0 <= m < models@.len() && models@[m] == (named@[k].0@, v);
            assert(out@[m].model@ == named@[k].0@);
        }
        assert forall|i: int, j: int| 0 <= i < j < out@.len() implies key_less(
            #[trigger] out@[i].model@,
            #[trigger] out@[j].model@,
        ) by {
            assert(key_less(models@[i].0, models@[j].0));
        }
        assert(forall|i: int| 0 <= i < out@.len() ==> row_of(named@, #[trigger] out@[i]));
        assert(calibrated(named@, out@));
    }
    out
}

/// Every decision of `tasks`, in order, with the model it is counted under.
pub open spec fn all_decisions(tasks: Seq<Task>) -> Seq<Decision>
    decreases tasks.len(),
{
    if tasks.len() == 0 {
        Seq::empty()
    } else {
        all_decisions(tasks.drop_last()) + tasks.last().decisions@
    }
}

/// The decisions of `ds` that the orchestrator answered, in order.
pub open spec fn answered_of(ds: Seq<Decision>) -> Seq<Decision>
    decreases ds.len(),
{
    if ds.len() == 0 {
        Seq::empty()
    } else if ds.last().answer is Some {
        answered_of(ds.drop_last()).push(ds.last())
    } else {
        answered_of(ds.drop_last())
    }
}

/// Whether `named` holds the decisions `ds`, in order, each with a name that
/// `model_named_by` gives its model.
pub open spec fn names_each<F: Fn(&str) -> String>(ds: Seq<Decision>, model_named_by: F, named: Seq<(String, &Decision)>) -> bool {
    &&& named.len() == ds.len()
    &&& forall|k: int|
        0 <= k < named.len() ==> *(#[trigger] named[k]).1 == ds[k] && exists|m: &str|
            m@ == ds[k].model@ && model_named_by.ensures((m,), named[k].0)
}

/// Whether `named` holds every answered decision of `tasks`, in order, each with a name that
/// `model_named_by` gives its model; unanswered decisions are not named.
pub open spec fn named_under<F: Fn(&str) -> String>(tasks: Seq<Task>, model_named_by: F, named: Seq<(String, &Decision)>) -> bool {
    names_each(answered_of(all_decisions(tasks)), model_named_by, named)
}

/// How often each model's picks held when the orchestrator answered them, with the models
/// named by `model_named_by`, in ascending order of name.
pub fn calibration<F>(tasks: &[Task], model_named_by: F) -> (out: Vec<Calibration>) where F: Fn(&str) -> String
    requires
        forall|m: &str| model_named_by.requires((m,)),
    ensures
        exists|named: Seq<(String, &Decision)>| named_under(tasks@, model_named_by, named) && calibrated(named, out@),
{
    let mut named: Vec<(String, &Decision)> = Vec::new();
    let mut t: usize = 0;
    assert(answered_of(all_decisions(tasks@.take(0))) =~= Seq::<Decision>::empty()) by {
        assert(tasks@.take(0) =~= Seq::<Task>::empty());
    }
    while t < tasks.len()
        invariant
            t <= tasks.len(),
            forall|m: &str| model_named_by.requires((m,)),
            names_each(answered_of(all_decisions(tasks@.take(t as int))), model_named_by, named@),
        decreases tasks.len() - t,
    {
        let task = &tasks[t];
        assert(tasks@.take(t + 1).drop_last() =~= tasks@.take(t as int));
        let ghost base = all_decisions(tasks@.take(t as int));
        let mut d: usize = 0;
        assert(base + task.decisions@.take(0) =~= base);
        while d < task.decisions.len()
            invariant
                d <= task.decisions.len(),
                forall|m: &str| model_named_by.requires((m,)),
                names_each(answered_of(base + task.decisions@.take(d as int)), model_named_by, named@),
            decreases task.decisions.len() - d,
        {
            let decision = &task.decisions[d];
            let ghost flat = base + task.decisions@.take(d as int);
            let ghost next = base + task.decisions@.take(d + 1);
            assert(next =~= flat.push(*decision));
            assert(next.drop_last() =~= flat);
            if decision.answer.is_some() {
                let m = decision.model.as_str();
                let name = model_named_by(m);
                let ghost before = named@;
                named.push((name, decision));
                proof {
                    let prev = answered_of(flat);
                    assert(answered_of(next) == prev.push(*decision));
                    assert(model_named_by.ensures((m,), named@[named@.len() - 1].0));
                    assert forall|k: int| 0 <= k < named@.len() implies *(#[trigger] named@[k]).1 == answered_of(next)[k]
                        && exists|m: &str| m@ == answered_of(next)[k].model@ && model_named_by.ensures((m,), named@[k].0) by {
                        if k < before.len() {
                            assert(named@[k] == before[k]);
                            assert(answered_of(next)[k] == prev[k]);
                            assert(*before[k].1 == prev[k]);
                        } else {
                            assert(named@[k].1 == decision);
                        }
                    }
                }
            } else {
                assert(answered_of(next) == answered_of(flat));
            }
            d += 1;
        }
        assert(task.decisions@.take(task.decisions@.len() as int) =~= task.decisions@);
        assert(all_decisions(tasks@.take(t + 1)) =~= base + task.decisions@);
        assert(base + task.decisions@.take(d as int) == all_decisions(tasks@.take(t + 1)));
        t += 1;
    }
    assert(tasks@.take(t as int) =~= tasks@);
    proof {
        lemma_all_decisions_prefix(tasks@, t as int);
    }
    let out = calibrate(&named);
    assert(named_under(tasks@, model_named_by, named@));
    out
}

proof fn lemma_all_decisions_prefix(tasks: Seq<Task>, t: int)
    requires
        t == tasks.len(),
    ensures
        all_decisions(tasks.take(t)) == all_decisions(tasks),
{
    assert(tasks.take(t) =~= tasks);
}

/// The record of a task opened now on the tree `tree`: each deliverable with the digest it
/// had when the task was opened (or none), and everything else as `record_from` sets it.
pub fn record(opening: Opening, now_unix: u64, tree: Tree) -> (task: Task)
    ensures
        task.name == opening.name && task.role == opening.role && task.statement == opening.statement,
        task.scope == opening.scope,
        task.deliverables@.len() == opening.deliverables@.len(),
        forall|i: int|
            0 <= i < task.deliverables@.len() ==> (#[trigger] task.deliverables@[i]).path == opening.deliverables@[i]
                && opt_view(task.deliverables@[i].opened_digest) == observed(tree@, opening.deliverables@[i]@),
        task.opened_unix == now_unix,
        task.opened_tree@ == tree@,
        task.check == opening.check && task.check_argv == opening.check_argv,
        task.check_inputs == opening.inputs,
        task.goal == opening.goal,
        task.findings@.len() == 0 && task.closed_unix is None && task.state@ == "open"@,
        task.accepted is None && task.result is None && task.assessments@.len() == 0,
        task.exceptions@.len() == 0 && task.evidence@.len() == 0 && task.challenged is None,
        task.attributions@.len() == 0 && task.build is None && task.notes@.len() == 0,
        task.removed_deliverables@.len() == 0 && task.closed_paths@.len() == 0,
        task.questions@.len() == 0 && task.decisions@.len() == 0 && task.orchestrator_records@.len() == 0,
{
    let mut digests: Vec<Option<String>> = Vec::new();
    let mut i: usize = 0;
    while i < opening.deliverables.len()
        invariant
            i <= opening.deliverables.len(),
            digests@.len() == i,
            forall|k: int|
                0 <= k < i ==> opt_view(#[trigger] digests@[k]) == observed(tree@, opening.deliverables@[k]@),
        decreases opening.deliverables.len() - i,
    {
        let d = observed_digest(&tree, opening.deliverables[i].as_str());
        digests.push(d);
        i += 1;
    }
    let ghost paths = opening.deliverables@;
    let ghost entries = tree@;
    let task = record_from(opening, now_unix, tree, digests);
    assert forall|k: int| 0 <= k < task.deliverables@.len() implies opt_view(
        (#[trigger] task.deliverables@[k]).opened_digest,
    ) == observed(entries, paths[k]@) by {
        assert(task.deliverables@[k].opened_digest == digests@[k]);
    }
    task
}

/// A decision below its floor holds the task: while it stands unanswered on a task that is
/// not closed, the task can neither be resumed nor handed back.
pub proof fn law_unanswered_block_holds_the_task(
    record: Seq<char>,
    task: Task,
    entries: Seq<(Seq<char>, Seq<char>)>,
)
    requires
        first_block(task.decisions@) is Some,
        task.state@ != "closed"@,
    ensures
        !applies_spec(task, "accepted"@),
        handback_spec(record, task, entries) == Err::<(), Seq<char>>("await-answer"@),
{
}

/// An asked question holds the hand-back: a task under way with a question still unpicked
/// and no blocking decision is sent to pick it before anything else is asked of it.
pub proof fn law_unpicked_question_holds_the_hand_back(
    record: Seq<char>,
    task: Task,
    entries: Seq<(Seq<char>, Seq<char>)>,
)
    requires
        task.state@ == "accepted"@,
        task.accepted is Some,
        first_block(task.decisions@) is None,
        unpicked_spec(task).len() > 0,
    ensures
        handback_spec(record, task, entries) == Err::<(), Seq<char>>("pick-question"@),
{
    reveal_strlit("accepted");
    reveal_strlit("closed");
    reveal_strlit("open");
    reveal_strlit("blocked");
    reveal_strlit("ready");
    assert("accepted"@[0] != "open"@[0] && "accepted"@[0] != "blocked"@[0] && "accepted"@[0] != "ready"@[0]);
    assert("accepted"@[0] != "closed"@[0]);
}

/// Whether `evidence[i]` is the latest run of the check `check` declares (of any check, when
/// none is declared).
pub open spec fn latest_run_of(evidence: Seq<Evidence>, check: Option<String>, i: int) -> bool {
    &&& 0 <= i < evidence.len()
    &&& match check {
        Some(c) => evidence[i].check@ == c@ && forall|j: int| i < j < evidence.len() ==> (#[trigger] evidence[j]).check@ != c@,
        None => i == evidence.len() - 1,
    }
}

proof fn lemma_latest_is_latest(evidence: Seq<Evidence>, check: Option<String>)
    ensures
        latest_index(evidence, check) matches Some(i) ==> latest_run_of(evidence, check, i),
    decreases evidence.len(),
{
    if evidence.len() > 0 {
        lemma_latest_is_latest(evidence.drop_last(), check);
        match check {
            Some(c) => {
                if evidence.last().check@ != c@ {
                    match latest_index(evidence.drop_last(), check) {
                        Some(i) => {
                            assert forall|j: int| i < j < evidence.len() implies (#[trigger] evidence[j]).check@ != c@ by {
                                if j < evidence.len() - 1 {
                                    assert(evidence.drop_last()[j] == evidence[j]);
                                }
                            }
                        },
                        None => {},
                    }
                }
            },
            None => {},
        }
    }
}

proof fn lemma_latest_found(evidence: Seq<Evidence>, check: Option<String>, i: int)
    requires
        latest_run_of(evidence, check, i),
    ensures
        latest_index(evidence, check) == Some(i),
    decreases evidence.len(),
{
    if i < evidence.len() - 1 {
        match check {
            Some(c) => {
                assert(evidence.last().check@ != c@);
                assert(latest_run_of(evidence.drop_last(), check, i)) by {
                    assert forall|j: int| i < j < evidence.drop_last().len() implies (#[trigger] evidence.drop_last()[j]).check@ != c@ by {
                        assert(evidence.drop_last()[j] == evidence[j]);
                    }
                }
                lemma_latest_found(evidence.drop_last(), check, i);
            },
            None => {},
        }
    }
}

/// Only passing evidence supports a handback: a task's readiness answers its declared check,
/// and so is supported, only when the latest run of that check (of any check, when none is
/// declared) exited with 0; a failing latest run never supports handing the task back, and a
/// passing one does while the evidence is current.
pub proof fn law_only_a_passing_check_supports_a_handback(task: Task, entries: Seq<(Seq<char>, Seq<char>)>)
    ensures
        readiness_spec(task, entries).supported ==> readiness_spec(task, entries).answers_declared_check,
        readiness_spec(task, entries).answers_declared_check ==> exists|i: int|
            latest_run_of(task.evidence@, task.check, i) && (#[trigger] task.evidence@[i]).exit == 0,
        forall|i: int| latest_run_of(task.evidence@, task.check, i) && (#[trigger] task.evidence@[i]).exit != 0
            ==> !readiness_spec(task, entries).supported,
        forall|i: int| latest_run_of(task.evidence@, task.check, i) && (#[trigger] task.evidence@[i]).exit == 0
            && current_spec(task, entries) ==> readiness_spec(task, entries).supported,
{
    lemma_latest_is_latest(task.evidence@, task.check);
    assert forall|i: int| latest_run_of(task.evidence@, task.check, i) && (#[trigger] task.evidence@[i]).exit == 0
        && current_spec(task, entries) implies readiness_spec(task, entries).supported by {
        lemma_latest_found(task.evidence@, task.check, i);
    }
    match latest_index(task.evidence@, task.check) {
        Some(k) => {
            assert forall|i: int| latest_run_of(task.evidence@, task.check, i) && (#[trigger] task.evidence@[i]).exit != 0
                implies !readiness_spec(task, entries).supported by {
                match task.check {
                    Some(c) => {
                        if i < k {
                            assert(task.evidence@[k].check@ == c@);
                        } else if k < i {
                            assert(task.evidence@[i].check@ == c@);
                        }
                    },
                    None => {},
                }
            }
        },
        None => {},
    }
}

/// Work can always resume before a task closes: an accepted, blocked or ready task may be
/// sent (back) to accepted, and with no decision blocking it, `apply` moves it there; a task
/// closes only from ready, a closed task moves nowhere, an open task only to accepted, and
/// no task goes back to open; only an accepted task is blocked or handed back as ready, and
/// `apply` never hands a task back (that is `mark_ready`'s).
pub proof fn law_work_resumes_until_a_task_closes(task: Task, from: Seq<char>, to: Seq<char>)
    ensures
        (from == "accepted"@ || from == "blocked"@ || from == "ready"@) ==> transition_spec(from, "accepted"@),
        (task.state@ == "accepted"@ || task.state@ == "blocked"@ || task.state@ == "ready"@) && first_block(
            task.decisions@,
        ) is None ==> applies_spec(task, "accepted"@),
        transition_spec(from, "closed"@) ==> from == "ready"@,
        !transition_spec("closed"@, to),
        transition_spec("open"@, to) ==> to == "accepted"@,
        !transition_spec(from, "open"@),
        transition_spec("open"@, "accepted"@) && transition_spec("accepted"@, "blocked"@) && transition_spec(
            "accepted"@,
            "ready"@,
        ) && transition_spec("ready"@, "closed"@),
        transition_spec(from, "blocked"@) ==> from == "accepted"@,
        transition_spec(from, "ready"@) ==> from == "accepted"@,
        !applies_spec(task, "ready"@),
{
    reveal_strlit("open");
    reveal_strlit("accepted");
    reveal_strlit("blocked");
    reveal_strlit("ready");
    reveal_strlit("closed");
    assert("open"@.len() == 4 && "ready"@.len() == 5 && "closed"@.len() == 6 && "blocked"@.len() == 7
        && "accepted"@.len() == 8);
    assert("accepted"@ != "ready"@);
    assert("closed"@ != "accepted"@ && "closed"@ != "blocked"@ && "closed"@ != "ready"@ && "closed"@ != "open"@);
    assert("open"@ != "accepted"@ && "open"@ != "blocked"@ && "open"@ != "ready"@);
    assert("blocked"@ != "accepted"@ && "blocked"@ != "ready"@ && "ready"@ != "accepted"@);
}

} // verus!
