use crate::diagnostic::Location;
use crate::project::{Layer, Profile, ProfileView, Rule, option_view, strings_view};
use crate::project::runstate::{Classification, Marker, classify, classify_spec, profile_identity, profile_identity_spec};
use crate::report::{Call, CoverageStatus, RunStatus};
use crate::text::{append, decimal, decimal_text, join, joined, str_eq};
use vstd::prelude::*;

verus! {

pub const RECORD_DIRECTORY: &'static str = ".blabla";

pub const RECORD_FILE: &'static str = "status.json";

/// How many rules the status names as next.
pub const NEXT_LIMIT: usize = 3;

pub const FINISH_COMMAND: &'static str = "blabla finish";

/// What a recorded run reported.
#[derive(Clone, Debug)]
pub struct RecordedReport {
    pub status: RunStatus,
    pub seed: u64,
    pub cases: usize,
    pub steps: usize,
    pub shrink_budget: usize,
    pub steps_executed: usize,
    pub verified: usize,
    pub unexercised: usize,
    pub violated: usize,
    pub coverage: Vec<RecordedObligation>,
}

/// One obligation as a recorded run left it.
#[derive(Clone, Debug)]
pub struct RecordedObligation {
    pub id: String,
    pub property: String,
    pub action: Option<String>,
    pub location: Option<Location>,
    pub required_witness: String,
    pub status: CoverageStatus,
    pub evaluations: usize,
    pub witnesses: usize,
    pub reason: Option<String>,
}

/// The state of a rule, a group or the project.
#[derive(Clone, Copy, Debug, PartialEq, Eq, Structural)]
pub enum State {
    Green,
    Yellow,
    Red,
    Unverified,
    Stale,
    Verifying,
    Interrupted,
    NoActiveContracts,
}

pub open spec fn state_exit(s: State) -> i32 {
    match s {
        State::Green => 0,
        State::Red => 1,
        _ => 5,
    }
}

pub open spec fn state_word(s: State) -> Seq<char> {
    match s {
        State::Green => "GREEN"@,
        State::Yellow => "YELLOW"@,
        State::Red => "RED"@,
        State::Unverified => "UNVERIFIED"@,
        State::Stale => "STALE"@,
        State::Verifying => "VERIFYING"@,
        State::Interrupted => "INTERRUPTED"@,
        State::NoActiveContracts => "NO ACTIVE CONTRACTS"@,
    }
}

impl State {
    /// The exit code the state answers with: 0 when green, 1 when red, 5 otherwise.
    pub fn exit(self) -> (code: i32)
        ensures
            code == state_exit(self),
    {
        match self {
            State::Green => 0,
            State::Red => 1,
            _ => 5,
        }
    }

    /// The state's word in reports.
    pub fn word(self) -> (w: &'static str)
        ensures
            w@ == state_word(self),
    {
        match self {
            State::Green => "GREEN",
            State::Yellow => "YELLOW",
            State::Red => "RED",
            State::Unverified => "UNVERIFIED",
            State::Stale => "STALE",
            State::Verifying => "VERIFYING",
            State::Interrupted => "INTERRUPTED",
            State::NoActiveContracts => "NO ACTIVE CONTRACTS",
        }
    }
}

/// Whether the completion gate lets the project finish, and if not, why not.
#[derive(Clone, Copy, Debug, PartialEq, Eq, Structural)]
pub enum CompletionState {
    Green,
    Yellow,
    Red,
    Stale,
    Unverified,
    Verifying,
    Interrupted,
    NotCanonical,
    NoProfile,
    NoActiveContracts,
    StructureRed,
    StructureError,
}

impl CompletionState {
    /// GREEN when the project may finish, BLOCKED otherwise.
    pub fn word(self) -> (w: &'static str)
        ensures
            w@ == if self == CompletionState::Green {
                "GREEN"@
            } else {
                "BLOCKED"@
            },
    {
        match self {
            CompletionState::Green => "GREEN",
            _ => "BLOCKED",
        }
    }
}

/// The project's overall standing.
#[derive(Clone, Copy, Debug, PartialEq, Eq, Structural)]
pub enum OverallStatus {
    Green,
    Blocked,
}

impl OverallStatus {
    pub fn word(self) -> (w: &'static str)
        ensures
            w@ == match self {
                OverallStatus::Green => "GREEN"@,
                OverallStatus::Blocked => "BLOCKED"@,
            },
    {
        match self {
            OverallStatus::Green => "GREEN",
            OverallStatus::Blocked => "BLOCKED",
        }
    }
}

#[derive(Clone, Debug)]
pub struct OverallView {
    pub status: OverallStatus,
    pub reason: String,
    pub exit: i32,
}

/// A run under way, or one that did not complete.
#[derive(Clone, Debug)]
pub struct RunStateView {
    pub classification: Classification,
    pub run_id: String,
    pub pid: u32,
    pub started_at: String,
}

#[derive(Clone, Debug)]
pub struct CompletionView {
    pub state: CompletionState,
    pub allowed: bool,
    pub command: Option<&'static str>,
    pub reason: String,
}

/// How many rules are in each state.
#[derive(Clone, Copy, Debug)]
pub struct RuleCounts {
    pub total: usize,
    pub green: usize,
    pub yellow: usize,
    pub red: usize,
}

impl Default for RuleCounts {
    fn default() -> (c: RuleCounts)
        ensures
            c.total == 0 && c.green == 0 && c.yellow == 0 && c.red == 0,
    {
        RuleCounts { total: 0, green: 0, yellow: 0, red: 0 }
    }
}

impl RuleCounts {
    /// Counts one more rule in state `state`: red and green as such, anything else as yellow.
    pub fn add(&mut self, state: State)
        requires
            old(self).total < usize::MAX,
            old(self).green <= old(self).total,
            old(self).yellow <= old(self).total,
            old(self).red <= old(self).total,
        ensures
            final(self).total == old(self).total + 1,
            final(self).green == old(self).green + if state == State::Green {
                1int
            } else {
                0int
            },
            final(self).red == old(self).red + if state == State::Red {
                1int
            } else {
                0int
            },
            final(self).yellow == old(self).yellow + if state != State::Green && state != State::Red {
                1int
            } else {
                0int
            },
            old(self).green + old(self).yellow + old(self).red == old(self).total ==> final(self).green
                + final(self).yellow + final(self).red == final(self).total,
    {
        self.total = self.total + 1;
        match state {
            State::Green => {
                self.green = self.green + 1;
            },
            State::Red => {
                self.red = self.red + 1;
            },
            _ => {
                self.yellow = self.yellow + 1;
            },
        }
    }

    /// Red when any rule is red, else yellow when any is yellow, else green.
    pub fn state(&self) -> (s: State)
        ensures
            s == if self.red > 0 {
                State::Red
            } else if self.yellow > 0 {
                State::Yellow
            } else {
                State::Green
            },
    {
        if self.red > 0 {
            State::Red
        } else if self.yellow > 0 {
            State::Yellow
        } else {
            State::Green
        }
    }
}

#[derive(Clone, Debug)]
pub struct ActionCounts {
    pub total: usize,
    pub exercised: usize,
}

#[derive(Clone, Debug)]
pub struct DraftView {
    pub name: String,
    pub path: String,
    pub layer: Layer,
    pub check: String,
}

#[derive(Clone, Debug)]
pub struct RuleView {
    pub id: String,
    pub group: String,
    pub label: String,
    pub file: String,
    pub line: usize,
    pub state: State,
    pub unexercised: usize,
}

#[derive(Clone, Debug)]
pub struct RecordedView {
    pub status: RunStatus,
    pub verified: usize,
    pub unexercised: usize,
    pub violated: usize,
    pub seed: u64,
    pub cases: usize,
    pub steps: usize,
    pub steps_executed: usize,
    pub shrink_budget: usize,
    pub timeout_ms: u64,
    pub application: Vec<String>,
    pub recorded_at: String,
    pub stale: Vec<&'static str>,
    pub canonical: bool,
}

/// A runtime primitive as `explain` shows it, with the rules that use it.
#[derive(Clone, Debug)]
pub struct PrimitiveView {
    pub id: &'static str,
    pub owner: &'static str,
    pub summary: &'static str,
    pub semantics: &'static [crate::runtime::primitives::Fact],
    pub distinction: &'static str,
    pub used_by: Vec<String>,
}

/// Where the record of the last verification is kept.
pub fn record_path(root: &str) -> (p: String)
    ensures
        p@ == crate::project::join_path(crate::project::join_path(root@, ".blabla"@), "status.json"@),
{
    let records = crate::project::join_path_text(root, ".blabla");
    crate::project::join_path_text(records.as_str(), "status.json")
}

/// The state of a rule from its obligations: red when one is violated, yellow when none are
/// recorded or one is unexercised, green otherwise.
pub open spec fn obligations_state_spec(obligations: Seq<RecordedObligation>) -> State {
    if exists|i: int| 0 <= i < obligations.len() && (#[trigger] obligations[i]).status == CoverageStatus::Violated {
        State::Red
    } else if obligations.len() == 0 || exists|i: int|
        0 <= i < obligations.len() && (#[trigger] obligations[i]).status == CoverageStatus::Unexercised {
        State::Yellow
    } else {
        State::Green
    }
}

/// The state of a rule from its recorded obligations.
pub fn obligations_state(obligations: &Vec<&RecordedObligation>) -> (s: State)
    ensures
        s == obligations_state_spec(obligations@.map_values(|o: &RecordedObligation| *o)),
{
    let ghost all = obligations@.map_values(|o: &RecordedObligation| *o);
    let mut violated = false;
    let mut unexercised = false;
    let mut i: usize = 0;
    while i < obligations.len()
        invariant
            i <= obligations.len(),
            all == obligations@.map_values(|o: &RecordedObligation| *o),
            violated == exists|k: int| 0 <= k < i && (#[trigger] all[k]).status == CoverageStatus::Violated,
            unexercised == exists|k: int| 0 <= k < i && (#[trigger] all[k]).status == CoverageStatus::Unexercised,
        decreases obligations.len() - i,
    {
        assert(all[i as int] == *obligations@[i as int]);
        match obligations[i].status {
            CoverageStatus::Violated => {
                violated = true;
            },
            CoverageStatus::Unexercised => {
                unexercised = true;
            },
            CoverageStatus::Verified => {},
        }
        i += 1;
    }
    if violated {
        State::Red
    } else if obligations.len() == 0 || unexercised {
        State::Yellow
    } else {
        State::Green
    }
}

// ---------------------------------------------------------------------------------------
// Time.
// ---------------------------------------------------------------------------------------

/// The calendar date of day `days` after 1970-01-01 (proleptic Gregorian): year, month, day.
pub open spec fn civil(days: int) -> (int, int, int) {
    let shifted = days + 719468;
    let era = (if shifted >= 0 {
        shifted
    } else {
        shifted - 146096
    }) / 146097;
    let doe = shifted - era * 146097;
    let yoe = (doe - doe / 1460 + doe / 36524 - doe / 146096) / 365;
    let doy = doe - (365 * yoe + yoe / 4 - yoe / 100);
    let mp = (5 * doy + 2) / 153;
    let day = doy - (153 * mp + 2) / 5 + 1;
    let month = if mp < 10 {
        mp + 3
    } else {
        mp - 9
    };
    let year = yoe + era * 400;
    (if month <= 2 {
        year + 1
    } else {
        year
    }, month, day)
}

/// `decimal(n)` padded with zeros to `width` digits.
pub open spec fn padded(n: nat, width: nat) -> Seq<char> {
    let d = decimal(n);
    if d.len() < width {
        Seq::new((width - d.len()) as nat, |i: int| '0') + d
    } else {
        d
    }
}

fn padded_text(n: u64, width: usize) -> (s: String)
    ensures
        s@ == padded(n as nat, width as nat),
{
    let d = decimal_text(n);
    let len = d.as_str().unicode_len();
    if len < width {
        let mut s = String::new();
        let mut k: usize = 0;
        while k < width - len
            invariant
                k <= width - len,
                s@ == Seq::new(k as nat, |i: int| '0'),
            decreases width - len - k,
        {
            crate::text::push_char(&mut s, '0');
            assert(s@ =~= Seq::new((k + 1) as nat, |i: int| '0'));
            k += 1;
        }
        append(&mut s, d.as_str());
        s
    } else {
        d
    }
}

/// The UTC time `seconds` after the Unix epoch, as `YYYY-MM-DDThh:mm:ssZ`.
pub open spec fn format_unix_spec(seconds: u64) -> Seq<char> {
    let (y, m, d) = civil((seconds / 86400) as int);
    let r = seconds % 86400;
    padded(y as nat, 4) + "-"@ + padded(m as nat, 2) + "-"@ + padded(d as nat, 2) + "T"@ + padded(
        (r / 3600) as nat,
        2,
    ) + ":"@ + padded(((r % 3600) / 60) as nat, 2) + ":"@ + padded((r % 60) as nat, 2) + "Z"@
}

proof fn lemma_civil_bounds(days: int)
    requires
        0 <= days <= 0x1_0000_0000_0000_0000int / 86400,
    ensures
        ({
            let (y, m, d) = civil(days);
            0 <= y < 0x1_0000_0000_0000_0000int && 1 <= m <= 12 && 1 <= d <= 31
        }),
{
    let shifted = days + 719468;
    let era = shifted / 146097;
    let doe = shifted - era * 146097;
    assert(0 <= doe < 146097) by (nonlinear_arith)
        requires
            shifted >= 0,
            era == shifted / 146097,
            doe == shifted - era * 146097,
    ;
    assert(0 <= era <= shifted) by (nonlinear_arith)
        requires
            shifted >= 0,
            era == shifted / 146097,
    ;
    let yoe = (doe - doe / 1460 + doe / 36524 - doe / 146096) / 365;
    assert(0 <= yoe <= 399) by (nonlinear_arith)
        requires
            0 <= doe < 146097,
            yoe == (doe - doe / 1460 + doe / 36524 - doe / 146096) / 365,
    ;
    let doy = doe - (365 * yoe + yoe / 4 - yoe / 100);
    assert(0 <= doy <= 365) by (nonlinear_arith)
        requires
            0 <= doe < 146097,
            yoe == (doe - doe / 1460 + doe / 36524 - doe / 146096) / 365,
            0 <= yoe <= 399,
            doy == doe - (365 * yoe + yoe / 4 - yoe / 100),
    ;
    let mp = (5 * doy + 2) / 153;
    assert(0 <= mp <= 11) by (nonlinear_arith)
        requires
            0 <= doy <= 365,
            mp == (5 * doy + 2) / 153,
    ;
    let day = doy - (153 * mp + 2) / 5 + 1;
    assert(1 <= day <= 31) by (nonlinear_arith)
        requires
            0 <= doy <= 365,
            mp == (5 * doy + 2) / 153,
            0 <= mp <= 11,
            day == doy - (153 * mp + 2) / 5 + 1,
    ;
}

/// The UTC date and time `seconds` after the Unix epoch.
pub fn format_unix(seconds: u64) -> (s: String)
    ensures
        s@ == format_unix_spec(seconds),
{
    let days: u64 = seconds / 86400;
    let remainder = seconds % 86400;
    proof {
        lemma_civil_bounds(days as int);
    }
    let shifted: u64 = days + 719468;
    let era: u64 = shifted / 146097;
    let doe: u64 = shifted - era * 146097;
    let yoe: u64 = (doe - doe / 1460 + doe / 36524 - doe / 146096) / 365;
    let doy: u64 = doe - (365 * yoe + yoe / 4 - yoe / 100);
    let mp: u64 = (5 * doy + 2) / 153;
    let day: u64 = doy - (153 * mp + 2) / 5 + 1;
    let month: u64 = if mp < 10 {
        mp + 3
    } else {
        mp - 9
    };
    let year: u64 = yoe + era * 400;
    let year: u64 = if month <= 2 {
        year + 1
    } else {
        year
    };
    let mut s = padded_text(year, 4);
    append(&mut s, "-");
    append(&mut s, padded_text(month, 2).as_str());
    append(&mut s, "-");
    append(&mut s, padded_text(day, 2).as_str());
    append(&mut s, "T");
    append(&mut s, padded_text(remainder / 3600, 2).as_str());
    append(&mut s, ":");
    append(&mut s, padded_text((remainder % 3600) / 60, 2).as_str());
    append(&mut s, ":");
    append(&mut s, padded_text(remainder % 60, 2).as_str());
    append(&mut s, "Z");
    s
}

// ---------------------------------------------------------------------------------------
// The record of the last verification, held against the project as it is now.
// ---------------------------------------------------------------------------------------

/// What the finish gate recorded of its last run, besides the report itself.
#[derive(Clone, Debug)]
pub struct Record {
    pub verifier_version: String,
    pub project: String,
    pub manifest: String,
    pub project_identity: String,
    pub implementation_fingerprint: String,
    pub fingerprinted_files: Vec<String>,
    pub application: Vec<String>,
    pub timeout_ms: u64,
    pub profile: Option<Profile>,
    pub run_id: Option<String>,
    pub recorded_unix: u64,
}

/// The violation a recorded run found, each compared value as its JSON text.
#[derive(Clone, Debug)]
pub struct RecordedFailure {
    pub property: String,
    pub minimal_sequence: Vec<Call>,
    pub original_sequence_length: usize,
    pub minimal_sequence_length: usize,
    pub predicate: String,
    pub expected: Option<String>,
    pub actual: Option<String>,
}

/// A record as read: what it says of the run, its report (or why the report cannot be read)
/// and the violation in it, where one could be read.
pub struct RecordedRun {
    pub record: Record,
    pub report: Result<RecordedReport, String>,
    pub failure: Option<RecordedFailure>,
}

/// The record of the last run held against the project as it is now.
pub struct Evaluation {
    pub report: Option<RecordedReport>,
    pub failure: Option<RecordedFailure>,
    pub recorded: Option<RecordedView>,
    pub stale: bool,
    pub canonical: bool,
    pub record_error: Option<String>,
    pub run_state: Option<RunStateView>,
    pub record_run_id: Option<String>,
}

/// Whether two profiles are the same profile.
pub fn same_profile(a: &Option<Profile>, b: &Option<Profile>) -> (e: bool)
    ensures
        e == (option_view(*a) == option_view(*b)),
{
    match (a, b) {
        (None, None) => true,
        (Some(x), Some(y)) => {
            let prepare_same = match (&x.prepare, &y.prepare) {
                (None, None) => true,
                (Some(p), Some(q)) => same_strings(p, q),
                _ => false,
            };
            let same = same_strings(&x.command, &y.command) && prepare_same && x.seed == y.seed && x.cases
                == y.cases && x.steps == y.steps && x.timeout_ms == y.timeout_ms && x.startup_ms == y.startup_ms
                && x.shrink_budget == y.shrink_budget;
            proof {
                if same {
                    assert(x@ == y@);
                }
            }
            same
        },
        _ => false,
    }
}

/// Whether two lists of strings hold the same strings in the same order.
pub fn same_strings(a: &Vec<String>, b: &Vec<String>) -> (e: bool)
    ensures
        e == (strings_view(a@) == strings_view(b@)),
{
    if a.len() != b.len() {
        assert(strings_view(a@).len() != strings_view(b@).len());
        return false;
    }
    let mut i: usize = 0;
    while i < a.len()
        invariant
            i <= a.len() == b.len(),
            forall|k: int| 0 <= k < i ==> a@[k]@ == b@[k]@,
        decreases a.len() - i,
    {
        if !str_eq(a[i].as_str(), b[i].as_str()) {
            assert(strings_view(a@)[i as int] != strings_view(b@)[i as int]);
            return false;
        }
        i += 1;
    }
    assert(strings_view(a@) =~= strings_view(b@));
    true
}

/// What has changed since a run was recorded: the verifier, the contracts, the
/// implementation or the profile, in that order.
pub open spec fn stale_parts(
    record: Record,
    version: Seq<char>,
    identity: Seq<char>,
    fingerprint: Seq<char>,
    profile: Option<ProfileView>,
) -> Seq<Seq<char>> {
    (if record.verifier_version@ != version {
        seq!["verifier"@]
    } else {
        Seq::empty()
    }) + (if record.project_identity@ != identity {
        seq!["contracts"@]
    } else {
        Seq::empty()
    }) + (if record.implementation_fingerprint@ != fingerprint {
        seq!["implementation"@]
    } else {
        Seq::empty()
    }) + if option_view(record.profile) != profile {
        seq!["profile"@]
    } else {
        Seq::empty()
    }
}

/// Whether a run was the canonical verification: the project declares a profile, and the run
/// used its command, seed, cases, steps, shrink budget and timeout.
pub open spec fn canonical_spec(record: Record, report: RecordedReport, profile: Option<ProfileView>) -> bool {
    match profile {
        Some(p) => p.command == strings_view(record.application@) && p.seed == report.seed && p.cases
            == report.cases && p.steps == report.steps && p.shrink_budget == report.shrink_budget && p.timeout_ms
            == record.timeout_ms,
        None => false,
    }
}

pub open spec fn static_strs(v: Seq<&'static str>) -> Seq<Seq<char>> {
    v.map_values(|s: &'static str| s@)
}

fn stale_list(
    record: &Record,
    version: &str,
    identity: &str,
    fingerprint: &str,
    profile: &Option<Profile>,
) -> (v: Vec<&'static str>)
    ensures
        static_strs(v@) == stale_parts(*record, version@, identity@, fingerprint@, option_view(*profile)),
{
    let mut v: Vec<&'static str> = Vec::new();
    let ghost a = if record.verifier_version@ != version@ {
        seq!["verifier"@]
    } else {
        Seq::<Seq<char>>::empty()
    };
    if !str_eq(record.verifier_version.as_str(), version) {
        v.push("verifier");
    }
    assert(static_strs(v@) =~= a);
    let ghost b = if record.project_identity@ != identity@ {
        seq!["contracts"@]
    } else {
        Seq::<Seq<char>>::empty()
    };
    if !str_eq(record.project_identity.as_str(), identity) {
        v.push("contracts");
    }
    assert(static_strs(v@) =~= a + b);
    let ghost c = if record.implementation_fingerprint@ != fingerprint@ {
        seq!["implementation"@]
    } else {
        Seq::<Seq<char>>::empty()
    };
    if !str_eq(record.implementation_fingerprint.as_str(), fingerprint) {
        v.push("implementation");
    }
    assert(static_strs(v@) =~= a + b + c);
    let ghost d = if option_view(record.profile) != option_view(*profile) {
        seq!["profile"@]
    } else {
        Seq::<Seq<char>>::empty()
    };
    if !same_profile(&record.profile, profile) {
        v.push("profile");
    }
    assert(static_strs(v@) =~= a + b + c + d);
    v
}

fn canonical_run(record: &Record, report: &RecordedReport, profile: &Option<Profile>) -> (b: bool)
    ensures
        b == canonical_spec(*record, *report, option_view(*profile)),
{
    match profile {
        Some(p) => same_strings(&p.command, &record.application) && p.seed == report.seed && p.cases == report.cases
            && p.steps == report.steps && p.shrink_budget == report.shrink_budget && p.timeout_ms
            == record.timeout_ms,
        None => false,
    }
}

pub(crate) fn copy_strings(v: &Vec<String>) -> (out: Vec<String>)
    ensures
        strings_view(out@) == strings_view(v@),
{
    let mut out: Vec<String> = Vec::new();
    let mut i: usize = 0;
    while i < v.len()
        invariant
            i <= v.len(),
            out@.len() == i,
            forall|k: int| 0 <= k < i ==> (#[trigger] out@[k])@ == v@[k]@,
        decreases v.len() - i,
    {
        out.push(v[i].as_str().to_owned());
        i += 1;
    }
    assert(strings_view(out@) =~= strings_view(v@));
    out
}

pub(crate) fn copy_text(o: &Option<String>) -> (out: Option<String>)
    ensures
        option_text(out) == option_text(*o),
{
    match o {
        Some(s) => Some(s.as_str().to_owned()),
        None => None,
    }
}

pub open spec fn option_text(o: Option<String>) -> Option<Seq<char>> {
    match o {
        Some(s) => Some(s@),
        None => None,
    }
}

/// The record of the last run held against the project as it is now: `version` is the
/// running verifier's, `identity` the contracts' identity, `fingerprint` the fingerprint of
/// the files the record names as they are now, and `profile` the manifest's profile.
/// `record` is the record as read: none, or why it cannot be read.
pub fn evaluate(
    version: &str,
    identity: &str,
    fingerprint: &str,
    profile: &Option<Profile>,
    record: Result<Option<RecordedRun>, String>,
) -> (e: Evaluation)
    ensures
        e.run_state is None,
        match record {
            Err(message) => e.report is None && e.failure is None && e.recorded is None && !e.stale && !e.canonical
                && option_text(e.record_error) == Some(message@) && e.record_run_id is None,
            Ok(None) => e.report is None && e.failure is None && e.recorded is None && !e.stale && !e.canonical
                && e.record_error is None && e.record_run_id is None,
            Ok(Some(run)) => match run.report {
                Err(failure) => e.report is None && e.failure is None && e.recorded is None && !e.stale
                    && !e.canonical && option_text(e.record_error) == Some(
                    "recorded report is unreadable: "@ + failure@,
                ) && option_text(e.record_run_id) == option_text(run.record.run_id),
                Ok(report) => {
                    let stale = stale_parts(run.record, version@, identity@, fingerprint@, option_view(*profile));
                    let canonical = canonical_spec(run.record, report, option_view(*profile));
                    &&& e.report == Some(report)
                    &&& e.failure == (if report.status == RunStatus::Red {
                        run.failure
                    } else {
                        None
                    })
                    &&& e.stale == (stale.len() > 0)
                    &&& e.canonical == canonical
                    &&& e.record_error is None
                    &&& option_text(e.record_run_id) == option_text(run.record.run_id)
                    &&& e.recorded matches Some(v) && v.status == report.status && v.verified == report.verified
                        && v.unexercised == report.unexercised && v.violated == report.violated && v.seed
                        == report.seed && v.cases == report.cases && v.steps == report.steps && v.steps_executed
                        == report.steps_executed && v.shrink_budget == report.shrink_budget && v.timeout_ms
                        == run.record.timeout_ms && strings_view(v.application@) == strings_view(
                        run.record.application@,
                    ) && v.recorded_at@ == format_unix_spec(run.record.recorded_unix) && static_strs(v.stale@)
                        == stale && v.canonical == canonical
                },
            },
        },
{
    let run = match record {
        Err(message) => {
            return Evaluation {
                report: None,
                failure: None,
                recorded: None,
                stale: false,
                canonical: false,
                record_error: Some(message),
                run_state: None,
                record_run_id: None,
            };
        },
        Ok(None) => {
            return Evaluation {
                report: None,
                failure: None,
                recorded: None,
                stale: false,
                canonical: false,
                record_error: None,
                run_state: None,
                record_run_id: None,
            };
        },
        Ok(Some(run)) => run,
    };
    let RecordedRun { record, report, failure } = run;
    let report = match report {
        Err(failure) => {
            return Evaluation {
                report: None,
                failure: None,
                recorded: None,
                stale: false,
                canonical: false,
                record_error: Some(joined("recorded report is unreadable: ", failure.as_str())),
                run_state: None,
                record_run_id: copy_text(&record.run_id),
            };
        },
        Ok(report) => report,
    };
    let failure = match report.status {
        RunStatus::Red => failure,
        _ => None,
    };
    let stale = stale_list(&record, version, identity, fingerprint, profile);
    let canonical = canonical_run(&record, &report, profile);
    let recorded = RecordedView {
        status: report.status,
        verified: report.verified,
        unexercised: report.unexercised,
        violated: report.violated,
        seed: report.seed,
        cases: report.cases,
        steps: report.steps,
        steps_executed: report.steps_executed,
        shrink_budget: report.shrink_budget,
        timeout_ms: record.timeout_ms,
        application: copy_strings(&record.application),
        recorded_at: format_unix(record.recorded_unix),
        stale: stale.clone(),
        canonical,
    };
    let is_stale = stale.len() > 0;
    Evaluation {
        report: Some(report),
        failure,
        recorded: Some(recorded),
        stale: is_stale,
        canonical,
        record_error: None,
        run_state: None,
        record_run_id: copy_text(&record.run_id),
    }
}

/// What a run marker says of the run it names: nothing when there is none or the run
/// completed, else the run under way or interrupted; a marker that cannot be read counts as
/// an interrupted run, its failure standing where the start time would.
pub open spec fn run_state_spec(
    marker: Result<Option<Marker>, String>,
    identity: Seq<char>,
    profile: Option<ProfileView>,
    record_run_id: Option<Seq<char>>,
    started: Option<u64>,
) -> Option<(Classification, Seq<char>, u32, Seq<char>)> {
    match marker {
        Ok(None) => None,
        Err(message) => Some((Classification::Interrupted, Seq::empty(), 0u32, message@)),
        Ok(Some(m)) => {
            let c = classify_spec(m, identity, profile_identity_spec(profile), record_run_id, started);
            if c == Classification::Completed {
                None
            } else {
                Some((c, m.run_id@, m.pid, format_unix_spec(m.started_unix)))
            }
        },
    }
}

pub open spec fn run_state_view(v: Option<RunStateView>) -> Option<(Classification, Seq<char>, u32, Seq<char>)> {
    match v {
        Some(r) => Some((r.classification, r.run_id@, r.pid, r.started_at@)),
        None => None,
    }
}

/// Sets the run state of `evaluation` from the marker of a run (`started` is when the
/// marker's process started, if it is still alive), for the contracts of identity `identity`
/// and the manifest's `profile`; a marker whose run completed, or no marker, leaves it as it
/// was.
pub fn apply_run_state(
    evaluation: &mut Evaluation,
    identity: &str,
    profile: Option<&Profile>,
    marker: Result<Option<Marker>, String>,
    started: Option<u64>,
)
    ensures
        final(evaluation).report == old(evaluation).report,
        final(evaluation).failure == old(evaluation).failure,
        final(evaluation).recorded == old(evaluation).recorded,
        final(evaluation).stale == old(evaluation).stale,
        final(evaluation).canonical == old(evaluation).canonical,
        final(evaluation).record_error == old(evaluation).record_error,
        final(evaluation).record_run_id == old(evaluation).record_run_id,
        match run_state_spec(
            marker,
            identity@,
            match profile {
                Some(p) => Some(p@),
                None => None,
            },
            option_text(old(evaluation).record_run_id),
            started,
        ) {
            None => final(evaluation).run_state == old(evaluation).run_state,
            Some(v) => run_state_view(final(evaluation).run_state) == Some(v),
        },
{
    let marker = match marker {
        Ok(None) => {
            return;
        },
        Ok(Some(marker)) => marker,
        Err(message) => {
            evaluation.run_state = Some(
                RunStateView {
                    classification: Classification::Interrupted,
                    run_id: String::new(),
                    pid: 0,
                    started_at: message,
                },
            );
            return;
        },
    };
    let profile_id = profile_identity(profile);
    let record_run_id: Option<&str> = match &evaluation.record_run_id {
        Some(r) => Some(r.as_str()),
        None => None,
    };
    let classification = classify(&marker, identity, profile_id.as_str(), record_run_id, started);
    match classification {
        Classification::Completed => {
            return;
        },
        _ => {},
    }
    let started_at = format_unix(marker.started_unix);
    evaluation.run_state = Some(
        RunStateView { classification, run_id: marker.run_id, pid: marker.pid, started_at },
    );
}

/// Whether completion may be declared on the behavior layer, and why, from the project's
/// state, whether the manifest declares a profile, and the evaluation of the last run.
pub open spec fn behavior_completion_spec(has_profile: bool, e: Evaluation, state: State) -> (CompletionState, Seq<char>) {
    match state {
        State::NoActiveContracts => (
            CompletionState::NoActiveContracts,
            "no active contracts; promote a draft with `use behavior` in project.bla"@,
        ),
        State::Verifying => (
            CompletionState::Verifying,
            "blabla finish is running (started at "@ + (match e.run_state {
                Some(r) => r.started_at@,
                None => "unknown"@,
            }) + ", pid "@ + decimal(
                (match e.run_state {
                    Some(r) => r.pid,
                    None => 0u32,
                }) as nat,
            ) + ")"@,
        ),
        State::Interrupted => (
            CompletionState::Interrupted,
            "a blabla finish started at "@ + (match e.run_state {
                Some(r) => r.started_at@,
                None => "unknown"@,
            }) + " did not complete; run it again"@,
        ),
        _ => if !has_profile {
            (
                match state {
                    State::Green => CompletionState::Green,
                    State::Yellow => CompletionState::Yellow,
                    State::Red => CompletionState::Red,
                    State::Stale => CompletionState::Stale,
                    _ => CompletionState::Unverified,
                },
                "project.bla has no `verify behavior { command [...] }` profile; completion follows the recorded run until one is added"@,
            )
        } else {
            match state {
                State::Stale => (
                    CompletionState::Stale,
                    (match e.recorded {
                        Some(r) => join(static_strs(r.stale@), ", "@),
                        None => Seq::empty(),
                    }) + " changed since the recorded run"@,
                ),
                State::Unverified => (CompletionState::Unverified, "no recorded canonical verification"@),
                _ => if !e.canonical {
                    (
                        CompletionState::NotCanonical,
                        "the recorded run did not use the canonical verification profile"@,
                    )
                } else {
                    match state {
                        State::Green => (CompletionState::Green, "canonical verification is GREEN"@),
                        State::Yellow => (
                            CompletionState::Yellow,
                            decimal(
                                (match e.recorded {
                                    Some(r) => r.unexercised,
                                    None => 0usize,
                                }) as nat,
                            ) + " obligations remain unverified under the canonical profile"@,
                        ),
                        _ => (
                            CompletionState::Red,
                            decimal(
                                (match e.recorded {
                                    Some(r) => r.violated,
                                    None => 0usize,
                                }) as nat,
                            ) + " obligations violated"@,
                        ),
                    }
                },
            }
        },
    }
}

fn join_static(parts: &Vec<&'static str>, sep: &str) -> (s: String)
    ensures
        s@ == join(static_strs(parts@), sep@),
{
    let mut owned: Vec<String> = Vec::new();
    let mut i: usize = 0;
    while i < parts.len()
        invariant
            i <= parts.len(),
            owned@.len() == i,
            forall|k: int| 0 <= k < i ==> (#[trigger] owned@[k])@ == parts@[k]@,
        decreases parts.len() - i,
    {
        owned.push(parts[i].to_owned());
        i += 1;
    }
    assert(strings_view(owned@) =~= static_strs(parts@));
    crate::text::join_strings(&owned, sep)
}

/// Whether completion may be declared on the behavior layer, and why.
pub fn behavior_completion(has_profile: bool, evaluation: &Evaluation, state: State) -> (r: (CompletionState, String))
    ensures
        (r.0, r.1@) == behavior_completion_spec(has_profile, *evaluation, state),
{
    match state {
        State::NoActiveContracts => {
            return (
                CompletionState::NoActiveContracts,
                "no active contracts; promote a draft with `use behavior` in project.bla".to_owned(),
            );
        },
        State::Verifying => {
            let mut m = "blabla finish is running (started at ".to_owned();
            match &evaluation.run_state {
                Some(run) => append(&mut m, run.started_at.as_str()),
                None => append(&mut m, "unknown"),
            }
            append(&mut m, ", pid ");
            let pid: u32 = match &evaluation.run_state {
                Some(run) => run.pid,
                None => 0,
            };
            append(&mut m, decimal_text(pid as u64).as_str());
            append(&mut m, ")");
            return (CompletionState::Verifying, m);
        },
        State::Interrupted => {
            let mut m = "a blabla finish started at ".to_owned();
            match &evaluation.run_state {
                Some(run) => append(&mut m, run.started_at.as_str()),
                None => append(&mut m, "unknown"),
            }
            append(&mut m, " did not complete; run it again");
            return (CompletionState::Interrupted, m);
        },
        _ => {},
    }
    if !has_profile {
        let c = match state {
            State::Green => CompletionState::Green,
            State::Yellow => CompletionState::Yellow,
            State::Red => CompletionState::Red,
            State::Stale => CompletionState::Stale,
            _ => CompletionState::Unverified,
        };
        return (
            c,
            "project.bla has no `verify behavior { command [...] }` profile; completion follows the recorded run until one is added".to_owned(),
        );
    }
    match state {
        State::Stale => {
            let mut m = match &evaluation.recorded {
                Some(recorded) => join_static(&recorded.stale, ", "),
                None => String::new(),
            };
            append(&mut m, " changed since the recorded run");
            return (CompletionState::Stale, m);
        },
        State::Unverified => {
            return (CompletionState::Unverified, "no recorded canonical verification".to_owned());
        },
        _ => {},
    }
    if !evaluation.canonical {
        return (
            CompletionState::NotCanonical,
            "the recorded run did not use the canonical verification profile".to_owned(),
        );
    }
    match state {
        State::Green => (CompletionState::Green, "canonical verification is GREEN".to_owned()),
        State::Yellow => {
            let n: usize = match &evaluation.recorded {
                Some(recorded) => recorded.unexercised,
                None => 0,
            };
            let mut m = decimal_text(n as u64);
            append(&mut m, " obligations remain unverified under the canonical profile");
            (CompletionState::Yellow, m)
        },
        _ => {
            let n: usize = match &evaluation.recorded {
                Some(recorded) => recorded.violated,
                None => 0,
            };
            let mut m = decimal_text(n as u64);
            append(&mut m, " obligations violated");
            (CompletionState::Red, m)
        },
    }
}

/// The obligations of a recorded run that belong to `rule`, in order.
pub open spec fn rule_obligations_spec(rule: Rule, report: RecordedReport) -> Seq<RecordedObligation> {
    report.coverage@.filter(|o: RecordedObligation| o.property@ == rule.id@)
}

/// The obligations of a recorded run that belong to `rule`, in order.
pub fn rule_obligations<'a>(rule: &Rule, report: &'a RecordedReport) -> (r: Vec<&'a RecordedObligation>)
    ensures
        r@.map_values(|o: &RecordedObligation| *o) == rule_obligations_spec(*rule, *report),
{
    let mut out: Vec<&RecordedObligation> = Vec::new();
    let mut i: usize = 0;
    while i < report.coverage.len()
        invariant
            i <= report.coverage.len(),
            out@.map_values(|o: &RecordedObligation| *o) == report.coverage@.take(i as int).filter(
                |o: RecordedObligation| o.property@ == rule.id@,
            ),
        decreases report.coverage.len() - i,
    {
        let ghost before = out@.map_values(|o: &RecordedObligation| *o);
        proof {
            reveal(Seq::filter);
            assert(report.coverage@.take(i + 1).drop_last() =~= report.coverage@.take(i as int));
        }
        if str_eq(report.coverage[i].property.as_str(), rule.id.as_str()) {
            out.push(&report.coverage[i]);
            assert(out@.map_values(|o: &RecordedObligation| *o) =~= before.push(report.coverage@[i as int]));
        }
        i += 1;
    }
    assert(report.coverage@.take(report.coverage@.len() as int) =~= report.coverage@);
    out
}

/// How many of `os` a run left unexercised.
pub open spec fn unexercised_count(os: Seq<RecordedObligation>) -> nat {
    os.filter(|o: RecordedObligation| o.status == CoverageStatus::Unexercised).len()
}

/// A rule as the status shows it: its state from the recorded run's obligations, or
/// `fallback` when there is no recorded run, and how many of its obligations are unexercised.
pub fn rule_view(rule: &Rule, report: Option<&RecordedReport>, fallback: State) -> (v: RuleView)
    ensures
        v.id@ == rule.id@,
        v.group@ == rule.group@,
        v.label@ == rule.label@,
        v.file@ == rule.file@,
        v.line == rule.line,
        match report {
            Some(r) => v.state == obligations_state_spec(rule_obligations_spec(*rule, *r)) && v.unexercised
                == unexercised_count(rule_obligations_spec(*rule, *r)),
            None => v.state == fallback && v.unexercised == 0,
        },
{
    let (state, unexercised) = match report {
        Some(r) => {
            let obligations = rule_obligations(rule, r);
            let ghost os = obligations@.map_values(|o: &RecordedObligation| *o);
            let state = obligations_state(&obligations);
            let mut n: usize = 0;
            let mut i: usize = 0;
            while i < obligations.len()
                invariant
                    i <= obligations.len(),
                    os == obligations@.map_values(|o: &RecordedObligation| *o),
                    n == unexercised_count(os.take(i as int)),
                    n <= i,
                decreases obligations.len() - i,
            {
                proof {
                    reveal(Seq::filter);
                    assert(os.take(i + 1).drop_last() =~= os.take(i as int));
                    assert(os[i as int] == *obligations@[i as int]);
                }
                match obligations[i].status {
                    CoverageStatus::Unexercised => {
                        n += 1;
                    },
                    _ => {},
                }
                i += 1;
            }
            assert(os.take(os.len() as int) =~= os);
            (state, n)
        },
        None => (fallback, 0),
    };
    RuleView {
        id: rule.id.as_str().to_owned(),
        group: rule.group.as_str().to_owned(),
        label: rule.label.as_str().to_owned(),
        file: rule.file.as_str().to_owned(),
        line: rule.line,
        state,
        unexercised,
    }
}

/// What the run state of an evaluation makes of the project's state: verifying while a run
/// is under way, interrupted when one did not complete.
pub open spec fn run_state_of_spec(e: Evaluation) -> Option<State> {
    match e.run_state {
        Some(r) => Some(
            match r.classification {
                Classification::Verifying => State::Verifying,
                _ => State::Interrupted,
            },
        ),
        None => None,
    }
}

/// What the run state of an evaluation makes of the project's state.
pub fn run_state_of(evaluation: &Evaluation) -> (s: Option<State>)
    ensures
        s == run_state_of_spec(*evaluation),
{
    match &evaluation.run_state {
        Some(run) => Some(
            match run.classification {
                Classification::Verifying => State::Verifying,
                _ => State::Interrupted,
            },
        ),
        None => None,
    }
}

/// Completion on the behavior layer is allowed only for a green project, and, when the
/// manifest declares a profile, only on a canonical run.
pub proof fn law_green_completion_needs_a_canonical_green_run(has_profile: bool, e: Evaluation, state: State)
    ensures
        behavior_completion_spec(has_profile, e, state).0 == CompletionState::Green ==> state == State::Green
            && (has_profile ==> e.canonical),
{
}

/// A run recorded by the same verifier, for the same contracts, implementation fingerprint
/// and profile as the project has now, is not stale.
pub proof fn law_an_unchanged_project_is_not_stale(
    record: Record,
    version: Seq<char>,
    identity: Seq<char>,
    fingerprint: Seq<char>,
    profile: Option<ProfileView>,
)
    requires
        record.verifier_version@ == version,
        record.project_identity@ == identity,
        record.implementation_fingerprint@ == fingerprint,
        option_view(record.profile) == profile,
    ensures
        stale_parts(record, version, identity, fingerprint, profile).len() == 0,
{
    assert(stale_parts(record, version, identity, fingerprint, profile) =~= Seq::<Seq<char>>::empty());
}

/// Any one change since the recorded run makes it stale, and names what changed.
pub proof fn law_a_changed_project_is_stale(
    record: Record,
    version: Seq<char>,
    identity: Seq<char>,
    fingerprint: Seq<char>,
    profile: Option<ProfileView>,
)
    ensures
        record.verifier_version@ != version ==> stale_parts(record, version, identity, fingerprint, profile).contains(
            "verifier"@,
        ),
        record.project_identity@ != identity ==> stale_parts(record, version, identity, fingerprint, profile).contains(
            "contracts"@,
        ),
        record.implementation_fingerprint@ != fingerprint ==> stale_parts(
            record,
            version,
            identity,
            fingerprint,
            profile,
        ).contains("implementation"@),
        option_view(record.profile) != profile ==> stale_parts(record, version, identity, fingerprint, profile).contains(
            "profile"@,
        ),
{
    let a = if record.verifier_version@ != version {
        seq!["verifier"@]
    } else {
        Seq::<Seq<char>>::empty()
    };
    let b = if record.project_identity@ != identity {
        seq!["contracts"@]
    } else {
        Seq::<Seq<char>>::empty()
    };
    let c = if record.implementation_fingerprint@ != fingerprint {
        seq!["implementation"@]
    } else {
        Seq::<Seq<char>>::empty()
    };
    let d = if option_view(record.profile) != profile {
        seq!["profile"@]
    } else {
        Seq::<Seq<char>>::empty()
    };
    let all = stale_parts(record, version, identity, fingerprint, profile);
    assert(all == a + b + c + d);
    if a.len() > 0 {
        assert(all[0] == "verifier"@);
    }
    if b.len() > 0 {
        assert(all[a.len() as int] == "contracts"@);
    }
    if c.len() > 0 {
        assert(all[(a.len() + b.len()) as int] == "implementation"@);
    }
    if d.len() > 0 {
        assert(all[(a.len() + b.len() + c.len()) as int] == "profile"@);
    }
}

/// The ids of the rules of `rules` that rely on the runtime primitive `primitive`, in order.
pub open spec fn rules_using_spec(rules: Seq<Rule>, primitive: Seq<char>) -> Seq<Seq<char>> {
    rules.filter(|r: Rule| r.runtime matches Some(p) && p@ == primitive).map_values(|r: Rule| r.id@)
}

/// The ids of the rules that rely on the runtime primitive `primitive`, in order.
pub fn rules_using(rules: &Vec<Rule>, primitive: &str) -> (ids: Vec<String>)
    ensures
        strings_view(ids@) == rules_using_spec(rules@, primitive@),
{
    let mut ids: Vec<String> = Vec::new();
    let mut i: usize = 0;
    while i < rules.len()
        invariant
            i <= rules.len(),
            strings_view(ids@) == rules_using_spec(rules@.take(i as int), primitive@),
        decreases rules.len() - i,
    {
        let ghost before = strings_view(ids@);
        proof {
            reveal(Seq::filter);
            assert(rules@.take(i + 1).drop_last() =~= rules@.take(i as int));
        }
        let uses = match rules[i].runtime {
            Some(p) => str_eq(p, primitive),
            None => false,
        };
        if uses {
            ids.push(rules[i].id.as_str().to_owned());
            assert(strings_view(ids@) =~= before.push(rules@[i as int].id@));
        }
        assert(strings_view(ids@) =~= rules_using_spec(rules@.take(i + 1), primitive@));
        i += 1;
    }
    assert(rules@.take(rules@.len() as int) =~= rules@);
    ids
}

/// Whether `v` shows the primitive `p`: its id, owner, summary, facts and distinction.
pub open spec fn primitive_described(v: PrimitiveView, p: crate::runtime::primitives::PrimitiveV) -> bool {
    &&& v.id@ == p.id
    &&& v.owner@ == p.owner
    &&& v.summary@ == p.summary
    &&& crate::runtime::primitives::facts_v(v.semantics@) == p.semantics
    &&& v.distinction@ == p.distinction
}

/// What `explain` shows of the runtime primitive `query`, with the rules of the project that
/// rely on it (`rules`, when a project is loaded), or the refusal that no primitive has
/// that id.
pub fn primitive_view(rules: Option<&Vec<Rule>>, query: &str) -> (r: Result<PrimitiveView, String>)
    ensures
        query@ == crate::runtime::primitives::restart_id() ==> (r matches Ok(v) && v.id@ == query@ && strings_view(
            v.used_by@,
        ) == match rules {
            Some(rs) => rules_using_spec(rs@, query@),
            None => Seq::empty(),
        } && primitive_described(v, crate::runtime::primitives::restart_spec())),
        query@ != crate::runtime::primitives::restart_id() ==> (r matches Err(m) && m@ == "no runtime primitive matches '"@
            + query@ + "'; known primitives: "@ + crate::runtime::primitives::restart_id()),
{
    let primitive = match crate::runtime::primitives::find(query) {
        Some(p) => p,
        None => {
            let ids = crate::runtime::primitives::ids();
            let mut owned: Vec<String> = Vec::new();
            owned.push(ids[0].to_owned());
            assert(strings_view(owned@) =~= seq![crate::runtime::primitives::restart_id()]);
            let mut m = joined("no runtime primitive matches '", query);
            append(&mut m, "'; known primitives: ");
            append(&mut m, crate::text::join_strings(&owned, ", ").as_str());
            return Err(m);
        },
    };
    let used_by = match rules {
        Some(rs) => rules_using(rs, primitive.id),
        None => {
            let v: Vec<String> = Vec::new();
            assert(strings_view(v@) =~= Seq::<Seq<char>>::empty());
            v
        },
    };
    Ok(
        PrimitiveView {
            id: primitive.id,
            owner: primitive.owner,
            summary: primitive.summary,
            semantics: primitive.semantics,
            distinction: primitive.distinction,
            used_by,
        },
    )
}

/// A run is canonical only if it ran the profile exactly: its report's seed, case count,
/// steps and shrink budget, its record's timeout and its application command are the
/// profile's; a run that differs from the profile in any of them, its case count alone
/// included, is not canonical; without a profile no run is; and a run that matches the
/// profile in all of them is.
pub proof fn law_a_canonical_run_ran_the_profile_exactly(record: Record, report: RecordedReport, profile: Option<ProfileView>)
    ensures
        canonical_spec(record, report, profile) ==> profile is Some,
        canonical_spec(record, report, profile) ==> report.cases == profile->0.cases && report.seed
            == profile->0.seed && report.steps == profile->0.steps && report.shrink_budget == profile->0.shrink_budget
            && record.timeout_ms == profile->0.timeout_ms && strings_view(record.application@) == profile->0.command,
        profile matches Some(p) && report.cases != p.cases ==> !canonical_spec(record, report, profile),
        profile matches Some(p) && report.cases == p.cases && report.seed == p.seed && report.steps == p.steps
            && report.shrink_budget == p.shrink_budget && record.timeout_ms == p.timeout_ms && strings_view(
            record.application@,
        ) == p.command ==> canonical_spec(record, report, profile),
{
}

} // verus!
