use crate::diagnostic::{Diagnostic, Span};
use crate::report::{DEFAULT_CASES, DEFAULT_STEPS, DEFAULT_TIMEOUT_MS, MAX_SHRINK_ATTEMPTS};
use crate::project::ignore::{IgnoreDeclView, IgnoreDeclaration, last_slash};
use crate::syntax::{KindView, Token, TokenKind, TokenView, lex_from, tokens_view};
use crate::text::{append, decimal, decimal_text, hex_fixed, join, join_strings, joined, split, str_eq};
use crate::voice::{Voice, voice_named, voices_text};
use vstd::prelude::*;
use vstd::string::StringSliceAdditionalSpecFns;

pub mod digest;
pub mod identity;
pub mod lookup;
pub mod ignore;
pub mod runstate;
pub mod status;
pub mod status_view;
pub mod task;

verus! {

pub const MANIFEST_NAME: &'static str = "project.bla";

pub const PROFILE_FIELDS: &'static str =
    "command, prepare, seed, cases, steps, timeout_ms, startup_ms, shrink_budget";

/// The longest exchange timeout a profile may set, in milliseconds.
pub const MAX_TIMEOUT_MS: u64 = 5000;

/// The longest startup wait a profile may set, in milliseconds.
pub const MAX_STARTUP_MS: u64 = 60000;

/// The layer a contract belongs to.
#[derive(Clone, Copy, Debug, PartialEq, Eq)]
pub enum Layer {
    Behavior,
    Structure,
}

impl Layer {
    pub open spec fn word_view(self) -> Seq<char> {
        match self {
            Layer::Behavior => "behavior"@,
            Layer::Structure => "structure"@,
        }
    }

    /// The layer's name in the manifest.
    pub fn word(self) -> (w: &'static str)
        ensures
            w@ == self.word_view(),
    {
        match self {
            Layer::Behavior => "behavior",
            Layer::Structure => "structure",
        }
    }
}

/// The canonical verification profile of a project.
#[derive(Clone, Debug, PartialEq, Eq)]
pub struct Profile {
    pub command: Vec<String>,
    pub prepare: Option<Vec<String>>,
    pub seed: u64,
    pub cases: usize,
    pub steps: usize,
    pub timeout_ms: u64,
    pub startup_ms: Option<u64>,
    pub shrink_budget: usize,
}

pub struct ProfileView {
    pub command: Seq<Seq<char>>,
    pub prepare: Option<Seq<Seq<char>>>,
    pub seed: u64,
    pub cases: usize,
    pub steps: usize,
    pub timeout_ms: u64,
    pub startup_ms: Option<u64>,
    pub shrink_budget: usize,
}

pub open spec fn strings_view(v: Seq<String>) -> Seq<Seq<char>> {
    v.map_values(|s: String| s@)
}

impl View for Profile {
    type V = ProfileView;

    open spec fn view(&self) -> ProfileView {
        ProfileView {
            command: strings_view(self.command@),
            prepare: match &self.prepare {
                Some(p) => Some(strings_view(p@)),
                None => None,
            },
            seed: self.seed,
            cases: self.cases,
            steps: self.steps,
            timeout_ms: self.timeout_ms,
            startup_ms: self.startup_ms,
            shrink_budget: self.shrink_budget,
        }
    }
}

impl Profile {
    /// How long the application may take to start: its own startup budget, or the exchange
    /// timeout.
    pub fn startup(&self) -> (ms: u64)
        ensures
            ms == match self.startup_ms {
                Some(v) => v,
                None => self.timeout_ms,
            },
    {
        match self.startup_ms {
            Some(v) => v,
            None => self.timeout_ms,
        }
    }
}

/// A memory file that the manifest registers.
#[derive(Clone, Debug)]
pub struct MemoryEntry {
    pub display: String,
    pub path: String,
    pub span: Span,
}

pub struct MemoryView {
    pub display: Seq<char>,
    pub path: Seq<char>,
    pub span: Span,
}

impl View for MemoryEntry {
    type V = MemoryView;

    open spec fn view(&self) -> MemoryView {
        MemoryView { display: self.display@, path: self.path@, span: self.span }
    }
}

/// A contract that the manifest uses or drafts.
#[derive(Clone, Debug)]
pub struct Entry {
    pub group: String,
    pub display: String,
    pub path: String,
    pub draft: bool,
    pub layer: Layer,
    pub span: Span,
}

/// One rule of the project: its qualified id, the group and label it has, where it is
/// written, and the action (and runtime primitive) it concerns.
#[derive(Clone, Debug)]
pub struct Rule {
    pub id: String,
    pub group: String,
    pub label: String,
    pub file: String,
    pub line: usize,
    pub column: usize,
    pub source: String,
    pub action: Option<String>,
    pub runtime: Option<&'static str>,
}

/// A contract group of the active set with the number of its rules.
#[derive(Clone, Debug)]
pub struct Group {
    pub name: String,
    pub display: String,
    pub rules: usize,
    pub layer: Layer,
}

/// A drafted contract with the result of checking it against the active set.
#[derive(Debug)]
pub struct Draft {
    pub name: String,
    pub display: String,
    pub layer: Layer,
    pub check: Result<(), Diagnostic>,
}

pub struct EntryView {
    pub group: Seq<char>,
    pub display: Seq<char>,
    pub path: Seq<char>,
    pub draft: bool,
    pub layer: Layer,
    pub span: Span,
}

impl View for Entry {
    type V = EntryView;

    open spec fn view(&self) -> EntryView {
        EntryView {
            group: self.group@,
            display: self.display@,
            path: self.path@,
            draft: self.draft,
            layer: self.layer,
            span: self.span,
        }
    }
}

/// A parsed project manifest.
#[derive(Clone, Debug)]
pub struct Manifest {
    pub name: String,
    pub path: String,
    pub root: String,
    pub source: String,
    pub entries: Vec<Entry>,
    pub mission: Option<MemoryEntry>,
    pub system: Option<MemoryEntry>,
    pub process: Option<MemoryEntry>,
    pub knowledge: Vec<MemoryEntry>,
    pub profile: Option<Profile>,
    pub profile_span: Option<Span>,
    pub voice: Voice,
    pub ignores: Vec<IgnoreDeclaration>,
}

pub open spec fn option_view<T: View>(o: Option<T>) -> Option<T::V> {
    match o {
        Some(v) => Some(v@),
        None => None,
    }
}

pub struct ManifestView {
    pub name: Seq<char>,
    pub path: Seq<char>,
    pub root: Seq<char>,
    pub source: Seq<char>,
    pub entries: Seq<EntryView>,
    pub mission: Option<MemoryView>,
    pub system: Option<MemoryView>,
    pub process: Option<MemoryView>,
    pub knowledge: Seq<MemoryView>,
    pub profile: Option<ProfileView>,
    pub profile_span: Option<Span>,
    pub voice: Voice,
    pub ignores: Seq<IgnoreDeclView>,
}

impl View for Manifest {
    type V = ManifestView;

    open spec fn view(&self) -> ManifestView {
        ManifestView {
            name: self.name@,
            path: self.path@,
            root: self.root@,
            source: self.source@,
            entries: self.entries@.map_values(|e: Entry| e@),
            mission: option_view(self.mission),
            system: option_view(self.system),
            process: option_view(self.process),
            knowledge: self.knowledge@.map_values(|e: MemoryEntry| e@),
            profile: option_view(self.profile),
            profile_span: self.profile_span,
            voice: self.voice,
            ignores: self.ignores@.map_values(|d: IgnoreDeclaration| d@),
        }
    }
}

// ---------------------------------------------------------------------------------------
// Paths, as the manifest writes them.
// ---------------------------------------------------------------------------------------

/// `written` resolved against `root` (`Path::join`): an absolute path stays as written.
pub open spec fn join_path(root: Seq<char>, written: Seq<char>) -> Seq<char> {
    if written.len() > 0 && written[0] == '/' {
        written
    } else if root.len() == 0 {
        written
    } else if root.last() == '/' {
        root + written
    } else {
        root + seq!['/'] + written
    }
}

/// The directory that holds the manifest at `path`.
pub open spec fn root_of(path: Seq<char>) -> Seq<char> {
    if path.len() == 0 {
        seq!['.']
    } else {
        match last_slash(path) {
            None => Seq::empty(),
            Some(j) => if j == 0 {
                seq!['/']
            } else {
                path.take(j)
            },
        }
    }
}

/// The components of a path once `.` and empty ones are dropped and each `..` takes back the
/// component before it where there is one.
pub open spec fn normal_stack(segments: Seq<Seq<char>>) -> Seq<Seq<char>>
    decreases segments.len(),
{
    if segments.len() == 0 {
        Seq::empty()
    } else {
        let st = normal_stack(segments.drop_last());
        let s = segments.last();
        if s.len() == 0 || s == seq!['.'] {
            st
        } else if s == seq!['.', '.'] {
            if st.len() > 0 {
                st.drop_last()
            } else {
                st.push(s)
            }
        } else {
            st.push(s)
        }
    }
}

/// The lexical normal form of a path: whether it is absolute, and its components.
pub open spec fn normal_form(path: Seq<char>) -> (bool, Seq<Seq<char>>) {
    (path.len() > 0 && path[0] == '/', normal_stack(split(path, '/')))
}

pub open spec fn kept_component(s: Seq<char>) -> bool {
    s.len() > 0 && s != seq!['.']
}

/// The last component that is neither empty nor `.`.
pub open spec fn last_kept(segments: Seq<Seq<char>>) -> Option<Seq<char>>
    decreases segments.len(),
{
    if segments.len() == 0 {
        None
    } else if kept_component(segments.last()) {
        Some(segments.last())
    } else {
        last_kept(segments.drop_last())
    }
}

/// The file name of a path: its last component, unless that climbs with `..`.
pub open spec fn file_name(path: Seq<char>) -> Option<Seq<char>> {
    match last_kept(split(path, '/')) {
        Some(name) => if name == seq!['.', '.'] {
            None
        } else {
            Some(name)
        },
        None => None,
    }
}

/// The file name without its extension (`Path::file_stem`); empty when there is no file name.
pub open spec fn file_stem(path: Seq<char>) -> Seq<char> {
    match file_name(path) {
        None => Seq::empty(),
        Some(name) => match crate::text::last_index(name, '.') {
            Some(k) => if k == 0 {
                name
            } else {
                name.take(k)
            },
            None => name,
        },
    }
}

// ---------------------------------------------------------------------------------------
// The manifest grammar.
// ---------------------------------------------------------------------------------------

/// A refusal of the manifest: where, which code, and why.
pub struct Failure {
    pub span: Span,
    pub code: Seq<char>,
    pub message: Seq<char>,
}

pub open spec fn fail(span: Span, code: Seq<char>, message: Seq<char>) -> Failure {
    Failure { span, code, message }
}

/// Whether `d` is the refusal `f` reported against `file`.
pub open spec fn reports(d: Diagnostic, file: Seq<char>, f: Failure) -> bool {
    &&& d.location.file@ == file
    &&& d.location.line == f.span.line
    &&& d.location.column == f.span.column
    &&& d.code@ == f.code
    &&& d.message@ == f.message
}

/// The token at `p`, or the last one (`Eof`) past the end.
pub open spec fn token(ts: Seq<TokenView>, p: int) -> TokenView {
    if 0 <= p < ts.len() {
        ts[p]
    } else {
        ts[ts.len() - 1]
    }
}

pub open spec fn is_word(t: TokenView, w: Seq<char>) -> bool {
    t.kind matches KindView::Identifier(x) && x == w
}

/// The span from `start` to the end of `last`, placed at `start`.
pub open spec fn spanning(start: Span, last: Span) -> Span {
    Span { start: start.start, end: last.end, line: start.line, column: start.column }
}

/// The project name after `project`, and where parsing goes on.
pub open spec fn header_spec(ts: Seq<TokenView>) -> Result<(Seq<char>, int), Failure> {
    let first = token(ts, 0);
    if !is_word(first, "project"@) {
        Err(fail(first.span, "E_PROJECT_HEADER"@, "a project manifest must start with `project <Name>`"@))
    } else {
        let name = token(ts, 1);
        match name.kind {
            KindView::Identifier(n) => Ok((n, 2)),
            _ => Err(fail(name.span, "E_PROJECT_HEADER"@, "expected the project name after `project`"@)),
        }
    }
}

pub open spec fn layer_refusal(other: Seq<char>) -> Seq<char> {
    "layer '"@ + other
        + "' is not supported; a project composes `behavior` and `structure` contracts, and mission, system, process and knowledge memory are registered by their own statements `mission \"path\"`, `system \"path\"`, `process \"path\"` and `knowledge \"path\"` because they are not layers and never decide completion"@
}

/// The layer named at `p`.
pub open spec fn layer_spec(ts: Seq<TokenView>, p: int) -> Result<(Layer, int), Failure> {
    let t = token(ts, p);
    match t.kind {
        KindView::Identifier(name) => if name == "behavior"@ {
            Ok((Layer::Behavior, p + 1))
        } else if name == "structure"@ {
            Ok((Layer::Structure, p + 1))
        } else {
            Err(fail(t.span, "E_UNSUPPORTED_LAYER"@, layer_refusal(name)))
        },
        _ => Err(fail(t.span, "E_MANIFEST_STATEMENT"@, "expected a layer name such as `behavior` or `structure`"@)),
    }
}

/// The decimal value of a run of digits.
pub open spec fn digits_value(s: Seq<char>) -> nat
    decreases s.len(),
{
    if s.len() == 0 {
        0
    } else {
        digits_value(s.drop_last()) * 10 + ((s.last() as u32) - 48) as nat
    }
}

pub open spec fn integer_refusal(field: Seq<char>, min: u64, max: u64) -> Seq<char> {
    if max == u64::MAX {
        "`"@ + field + "` must be an integer of at least "@ + decimal(min as nat)
    } else {
        "`"@ + field + "` must be an integer from "@ + decimal(min as nat) + " through "@ + decimal(
            max as nat,
        )
    }
}

pub open spec fn all_digits(s: Seq<char>) -> bool {
    forall|i: int| 0 <= i < s.len() ==> '0' <= #[trigger] s[i] <= '9'
}

/// The value of a decimal numeral that fits in 64 bits (`str::parse::<u64>` on a numeral).
pub open spec fn parsed_u64(s: Seq<char>) -> Option<u64> {
    if s.len() > 0 && all_digits(s) && digits_value(s) <= u64::MAX {
        Some(digits_value(s) as u64)
    } else {
        None
    }
}

/// A whole number from `min` through `max` at `p`.
pub open spec fn integer_spec(ts: Seq<TokenView>, p: int, field: Seq<char>, min: u64, max: u64) -> Result<
    (u64, int),
    Failure,
> {
    let t = token(ts, p);
    match t.kind {
        KindView::Integer(text) => match parsed_u64(text) {
            Some(v) => if min <= v <= max {
                Ok((v, p + 1))
            } else {
                Err(fail(t.span, "E_PROFILE_FIELD"@, integer_refusal(field, min, max)))
            },
            None => Err(fail(t.span, "E_PROFILE_FIELD"@, integer_refusal(field, min, max))),
        },
        _ => Err(fail(t.span, "E_PROFILE_FIELD"@, integer_refusal(field, min, max))),
    }
}

/// The quoted elements of a command list from position `p` (after `[`), up to its `]`.
pub open spec fn command_items(ts: Seq<TokenView>, p: int) -> Result<(Seq<Seq<char>>, int), Failure>
    decreases ts.len() - p,
{
    let t = token(ts, p);
    match t.kind {
        KindView::RightBracket => Ok((Seq::empty(), p + 1)),
        KindView::String(value) => if value.len() == 0 {
            Err(fail(t.span, "E_PROFILE_COMMAND"@, "command elements must not be empty strings"@))
        } else {
            let after = token(ts, p + 1);
            if after.kind == KindView::Comma {
                if p + 2 <= ts.len() && 0 <= p {
                    match command_items(ts, p + 2) {
                        Ok((rest, end)) => Ok((seq![value] + rest, end)),
                        Err(f) => Err(f),
                    }
                } else {
                    Err(fail(after.span, "E_PROFILE_COMMAND"@, "expected `,` or `]` after a command element"@))
                }
            } else if after.kind == KindView::RightBracket {
                Ok((seq![value], p + 2))
            } else {
                Err(fail(after.span, "E_PROFILE_COMMAND"@, "expected `,` or `]` after a command element"@))
            }
        },
        _ => Err(fail(t.span, "E_PROFILE_COMMAND"@, "command elements must be quoted strings"@)),
    }
}

/// A command list `["program", "argument", ...]` at `p`; `field` is where the field name stands.
pub open spec fn command_list_spec(ts: Seq<TokenView>, p: int, field: Span) -> Result<
    (Seq<Seq<char>>, int),
    Failure,
> {
    let open = token(ts, p);
    if open.kind != KindView::LeftBracket {
        Err(fail(open.span, "E_PROFILE_COMMAND"@, "expected `[\"program\", \"argument\", ...]` after `command`"@))
    } else {
        match command_items(ts, p + 1) {
            Err(f) => Err(f),
            Ok((values, end)) => if values.len() == 0 {
                Err(fail(field, "E_PROFILE_COMMAND"@, "`command` needs at least the program to launch"@))
            } else {
                Ok((values, end))
            },
        }
    }
}

/// The fields of a profile seen so far.
pub struct Fields {
    pub command: Option<Seq<Seq<char>>>,
    pub prepare: Option<Seq<Seq<char>>>,
    pub startup_ms: Option<u64>,
    pub seed: Option<u64>,
    pub cases: Option<u64>,
    pub steps: Option<u64>,
    pub timeout_ms: Option<u64>,
    pub shrink_budget: Option<u64>,
}

pub open spec fn no_fields() -> Fields {
    Fields {
        command: None,
        prepare: None,
        startup_ms: None,
        seed: None,
        cases: None,
        steps: None,
        timeout_ms: None,
        shrink_budget: None,
    }
}

pub open spec fn profile_fields_text() -> Seq<char> {
    "command, prepare, seed, cases, steps, timeout_ms, startup_ms, shrink_budget"@
}

/// The numeric profile fields: their bounds.
pub open spec fn numeric_bounds(field: Seq<char>) -> Option<(u64, u64)> {
    if field == "startup_ms"@ {
        Some((1, MAX_STARTUP_MS))
    } else if field == "seed"@ {
        Some((0, u64::MAX))
    } else if field == "cases"@ || field == "steps"@ {
        Some((1, u64::MAX))
    } else if field == "timeout_ms"@ {
        Some((1, MAX_TIMEOUT_MS))
    } else if field == "shrink_budget"@ {
        Some((0, MAX_SHRINK_ATTEMPTS as u64))
    } else {
        None
    }
}

/// The fields with numeric `field` set to `v`, and whether it was set before.
pub open spec fn set_number(acc: Fields, field: Seq<char>, v: u64) -> (Fields, bool) {
    if field == "startup_ms"@ {
        (Fields { startup_ms: Some(v), ..acc }, acc.startup_ms is Some)
    } else if field == "seed"@ {
        (Fields { seed: Some(v), ..acc }, acc.seed is Some)
    } else if field == "cases"@ {
        (Fields { cases: Some(v), ..acc }, acc.cases is Some)
    } else if field == "steps"@ {
        (Fields { steps: Some(v), ..acc }, acc.steps is Some)
    } else if field == "timeout_ms"@ {
        (Fields { timeout_ms: Some(v), ..acc }, acc.timeout_ms is Some)
    } else {
        (Fields { shrink_budget: Some(v), ..acc }, acc.shrink_budget is Some)
    }
}

/// The profile fields from `p` up to the closing `}`: the fields, and the `}` and the
/// position after it.
pub open spec fn profile_fields_spec(ts: Seq<TokenView>, p: int, acc: Fields) -> Result<
    (Fields, Span, int),
    Failure,
>
    decreases ts.len() - p,
{
    let t = token(ts, p);
    match t.kind {
        KindView::RightBrace => Ok((acc, t.span, p + 1)),
        KindView::Eof => Err(fail(t.span, "E_MANIFEST_STATEMENT"@, "expected `}` to close `verify behavior`"@)),
        KindView::Identifier(field) => {
            let value = if field == "command"@ || field == "prepare"@ {
                match command_list_spec(ts, p + 1, t.span) {
                    Ok((values, next)) => Ok(
                        if field == "command"@ {
                            (Fields { command: Some(values), ..acc }, acc.command is Some, next)
                        } else {
                            (Fields { prepare: Some(values), ..acc }, acc.prepare is Some, next)
                        },
                    ),
                    Err(f) => Err(f),
                }
            } else {
                match numeric_bounds(field) {
                    Some((min, max)) => match integer_spec(ts, p + 1, field, min, max) {
                        Ok((v, next)) => {
                            let (fields, repeated) = set_number(acc, field, v);
                            Ok((fields, repeated, next))
                        },
                        Err(f) => Err(f),
                    },
                    None => Err(
                        fail(
                            t.span,
                            "E_PROFILE_FIELD"@,
                            "unknown verification profile field '"@ + field + "'; fields are "@
                                + profile_fields_text(),
                        ),
                    ),
                }
            };
            match value {
                Err(f) => Err(f),
                Ok((fields, repeated, next)) => if repeated {
                    Err(
                        fail(
                            t.span,
                            "E_PROFILE_FIELD"@,
                            "verification profile field '"@ + field + "' is set more than once"@,
                        ),
                    )
                } else if p < next <= ts.len() && 0 <= p {
                    profile_fields_spec(ts, next, fields)
                } else {
                    Err(fail(t.span, "E_PROFILE_FIELD"@, Seq::empty()))
                },
            }
        },
        _ => Err(
            fail(
                t.span,
                "E_PROFILE_FIELD"@,
                "expected a verification profile field ("@ + profile_fields_text() + ") or `}`"@,
            ),
        ),
    }
}

/// The profile `{ ... }` at `p`, for the statement that starts at `start`.
pub open spec fn profile_spec(ts: Seq<TokenView>, p: int, start: Span) -> Result<
    (ProfileView, Span, int),
    Failure,
> {
    let open = token(ts, p);
    if open.kind != KindView::LeftBrace {
        Err(fail(open.span, "E_MANIFEST_STATEMENT"@, "expected `{` after `verify behavior`"@))
    } else {
        match profile_fields_spec(ts, p + 1, no_fields()) {
            Err(f) => Err(f),
            Ok((fields, close, next)) => {
                let span = spanning(start, close);
                match fields.command {
                    None => Err(
                        fail(
                            span,
                            "E_PROFILE_COMMAND"@,
                            "`verify behavior` needs `command [\"program\", \"argument\", ...]`: the application launch used by blabla finish"@,
                        ),
                    ),
                    Some(command) => Ok(
                        (
                            ProfileView {
                                command,
                                prepare: fields.prepare,
                                startup_ms: fields.startup_ms,
                                seed: match fields.seed {
                                    Some(v) => v,
                                    None => 0,
                                },
                                cases: match fields.cases {
                                    Some(v) => v as usize,
                                    None => DEFAULT_CASES,
                                },
                                steps: match fields.steps {
                                    Some(v) => v as usize,
                                    None => DEFAULT_STEPS,
                                },
                                timeout_ms: match fields.timeout_ms {
                                    Some(v) => v,
                                    None => DEFAULT_TIMEOUT_MS,
                                },
                                shrink_budget: match fields.shrink_budget {
                                    Some(v) => v as usize,
                                    None => MAX_SHRINK_ATTEMPTS,
                                },
                            },
                            span,
                            next,
                        ),
                    ),
                }
            },
        }
    }
}


/// One statement of the manifest.
pub enum StatementView {
    Entry(EntryView),
    Mission(MemoryView),
    System(MemoryView),
    Process(MemoryView),
    Knowledge(MemoryView),
    Profile(ProfileView, Span),
    Tone(Voice, Span),
    Ignore(IgnoreDeclView),
}

pub open spec fn memory_example(keyword: Seq<char>) -> Seq<char> {
    if keyword == "mission"@ {
        "mission.bla"@
    } else if keyword == "system"@ {
        "system.bla"@
    } else if keyword == "knowledge"@ {
        "knowledge/engineering.bla"@
    } else {
        "process.bla"@
    }
}

pub open spec fn is_memory_keyword(w: Seq<char>) -> bool {
    w == "mission"@ || w == "system"@ || w == "process"@ || w == "knowledge"@
}

pub open spec fn statement_refusal() -> Seq<char> {
    "expected `use behavior \"path\"`, `draft behavior \"path\"`, `mission \"path\"`, `system \"path\"`, `process \"path\"`, `knowledge \"path\"`, `voice <name>`, `ignore \"pattern\"`, `ignore from \"file\"` or `verify behavior { ... }`"@
}

/// A `use` or `draft` statement at `p`.
pub open spec fn entry_spec(ts: Seq<TokenView>, p: int, root: Seq<char>, draft: bool) -> Result<
    (StatementView, int),
    Failure,
> {
    let start = token(ts, p);
    match layer_spec(ts, p + 1) {
        Err(f) => Err(f),
        Ok((layer, q)) => {
            let pt = token(ts, q);
            match pt.kind {
                KindView::String(written) => {
                    let alias: Result<(Option<Seq<char>>, int), Failure> = if is_word(
                        token(ts, q + 1),
                        "as"@,
                    ) {
                        let at = token(ts, q + 2);
                        match at.kind {
                            KindView::Identifier(name) => Ok((Some(name), q + 3)),
                            _ => Err(fail(at.span, "E_MANIFEST_STATEMENT"@, "expected a group name after `as`"@)),
                        }
                    } else {
                        Ok((None, q + 1))
                    };
                    match alias {
                        Err(f) => Err(f),
                        Ok((alias, next)) => {
                            let span = spanning(start.span, pt.span);
                            let group: Result<Seq<char>, Failure> = match alias {
                                Some(name) => Ok(name),
                                None => if file_stem(written).len() == 0 {
                                    Err(
                                        fail(
                                            span,
                                            "E_MANIFEST_STATEMENT"@,
                                            "cannot derive a group name from '"@ + written
                                                + "'; add `as <name>`"@,
                                        ),
                                    )
                                } else {
                                    Ok(file_stem(written))
                                },
                            };
                            match group {
                                Err(f) => Err(f),
                                Ok(group) => Ok(
                                    (
                                        StatementView::Entry(
                                            EntryView {
                                                group,
                                                display: written,
                                                path: join_path(root, written),
                                                draft,
                                                layer,
                                                span,
                                            },
                                        ),
                                        next,
                                    ),
                                ),
                            }
                        },
                    }
                },
                _ => Err(fail(pt.span, "E_MANIFEST_STATEMENT"@, "expected a quoted contract path"@)),
            }
        },
    }
}

/// A `mission`, `system`, `process` or `knowledge` statement at `p`.
pub open spec fn memory_spec(ts: Seq<TokenView>, p: int, root: Seq<char>, keyword: Seq<char>) -> Result<
    (StatementView, int),
    Failure,
> {
    let start = token(ts, p);
    let pt = token(ts, p + 1);
    match pt.kind {
        KindView::String(written) => {
            let entry = MemoryView {
                display: written,
                path: join_path(root, written),
                span: spanning(start.span, pt.span),
            };
            Ok(
                (
                    if keyword == "mission"@ {
                        StatementView::Mission(entry)
                    } else if keyword == "system"@ {
                        StatementView::System(entry)
                    } else if keyword == "knowledge"@ {
                        StatementView::Knowledge(entry)
                    } else {
                        StatementView::Process(entry)
                    },
                    p + 2,
                ),
            )
        },
        _ => Err(
            fail(
                pt.span,
                "E_MANIFEST_STATEMENT"@,
                "expected a quoted path after `"@ + keyword + "`, as in `"@ + keyword + " \""@
                    + memory_example(keyword) + "\"`"@,
            ),
        ),
    }
}

/// A `voice` statement at `p`.
pub open spec fn voice_spec(ts: Seq<TokenView>, p: int) -> Result<(StatementView, int), Failure> {
    let start = token(ts, p);
    let chosen = token(ts, p + 1);
    match chosen.kind {
        KindView::Identifier(name) => match voice_named(name) {
            Some(v) => Ok((StatementView::Tone(v, spanning(start.span, chosen.span)), p + 2)),
            None => Err(
                fail(
                    chosen.span,
                    "E_MANIFEST_VOICE"@,
                    "unknown voice '"@ + name + "'; the voices are "@ + voices_text(),
                ),
            ),
        },
        _ => Err(
            fail(
                chosen.span,
                "E_MANIFEST_VOICE"@,
                "expected a voice after `voice`; the voices are "@ + voices_text(),
            ),
        ),
    }
}

/// A `verify behavior { ... }` statement at `p`.
pub open spec fn verify_spec(ts: Seq<TokenView>, p: int) -> Result<(StatementView, int), Failure> {
    let start = token(ts, p);
    let layer_span = token(ts, p + 1).span;
    match layer_spec(ts, p + 1) {
        Err(f) => Err(f),
        Ok((layer, q)) => if layer != Layer::Behavior {
            Err(
                fail(
                    layer_span,
                    "E_PROFILE_LAYER"@,
                    "only `verify behavior { ... }` exists; structure contracts are evaluated statically and need no profile"@,
                ),
            )
        } else {
            match profile_spec(ts, q, start.span) {
                Ok((profile, span, next)) => Ok((StatementView::Profile(profile, span), next)),
                Err(f) => Err(f),
            }
        },
    }
}

/// An `ignore "pattern"` or `ignore from "file"` statement at `p`.
pub open spec fn ignore_spec(ts: Seq<TokenView>, p: int, root: Seq<char>) -> Result<
    (StatementView, int),
    Failure,
> {
    let start = token(ts, p);
    let listed = is_word(token(ts, p + 1), "from"@);
    let q = if listed {
        p + 2
    } else {
        p + 1
    };
    let pt = token(ts, q);
    match pt.kind {
        KindView::String(written) => {
            let span = spanning(start.span, pt.span);
            Ok(
                (
                    StatementView::Ignore(
                        if listed {
                            IgnoreDeclView::List { written, path: join_path(root, written), span }
                        } else {
                            IgnoreDeclView::Pattern { written, span }
                        },
                    ),
                    q + 1,
                ),
            )
        },
        _ => Err(
            fail(
                pt.span,
                "E_MANIFEST_IGNORE"@,
                "expected a quoted pattern, as in `ignore \"dist/\"`, or a quoted list file after `from`, as in `ignore from \".gitignore\"`"@,
            ),
        ),
    }
}

/// The statement at `p` and where parsing goes on.
pub open spec fn statement_spec(ts: Seq<TokenView>, p: int, root: Seq<char>) -> Result<
    (StatementView, int),
    Failure,
> {
    let start = token(ts, p);
    match start.kind {
        KindView::Identifier(w) => if w == "use"@ || w == "draft"@ {
            entry_spec(ts, p, root, w == "draft"@)
        } else if is_memory_keyword(w) {
            memory_spec(ts, p, root, w)
        } else if w == "voice"@ {
            voice_spec(ts, p)
        } else if w == "verify"@ {
            verify_spec(ts, p)
        } else if w == "ignore"@ {
            ignore_spec(ts, p, root)
        } else {
            Err(fail(start.span, "E_MANIFEST_STATEMENT"@, statement_refusal()))
        },
        _ => Err(fail(start.span, "E_MANIFEST_STATEMENT"@, statement_refusal())),
    }
}

pub open spec fn reserved_group(g: Seq<char>) -> bool {
    g == "contract"@ || g == "mission"@ || g == "priority"@ || g == "knowledge"@ || g == "ruling"@
        || g == "system"@ || g == "responsibility"@ || g == "seam"@ || g == "role"@ || g
        == "policy"@ || g == "flow"@ || g == "step"@ || g == "runtime"@ || g == "task"@
}

/// What the statements read so far have declared.
pub struct Declared {
    pub entries: Seq<EntryView>,
    pub mission: Option<MemoryView>,
    pub system: Option<MemoryView>,
    pub process: Option<MemoryView>,
    pub knowledge: Seq<MemoryView>,
    pub profile: Option<(ProfileView, Span)>,
    pub voice: Option<Voice>,
    pub ignores: Seq<IgnoreDeclView>,
}

pub open spec fn nothing_declared() -> Declared {
    Declared {
        entries: Seq::empty(),
        mission: None,
        system: None,
        process: None,
        knowledge: Seq::empty(),
        profile: None,
        voice: None,
        ignores: Seq::empty(),
    }
}

pub open spec fn decl_is_list(d: IgnoreDeclView) -> bool {
    d is List
}

pub open spec fn decl_written(d: IgnoreDeclView) -> Seq<char> {
    match d {
        IgnoreDeclView::Pattern { written, .. } => written,
        IgnoreDeclView::List { written, .. } => written,
    }
}

pub open spec fn decl_span(d: IgnoreDeclView) -> Span {
    match d {
        IgnoreDeclView::Pattern { span, .. } => span,
        IgnoreDeclView::List { span, .. } => span,
    }
}

/// The declarations once statement `st` is added, or why the manifest refuses it.
pub open spec fn absorb(acc: Declared, st: StatementView) -> Result<Declared, Failure> {
    match st {
        StatementView::Ignore(d) => if exists|i: int|
            0 <= i < acc.ignores.len() && decl_is_list(#[trigger] acc.ignores[i]) == decl_is_list(d)
                && decl_written(acc.ignores[i]) == decl_written(d) {
            Err(
                fail(
                    decl_span(d),
                    "E_DUPLICATE_IGNORE"@,
                    "'"@ + decl_written(d) + "' is declared by `ignore` more than once"@,
                ),
            )
        } else {
            Ok(Declared { ignores: acc.ignores.push(d), ..acc })
        },
        StatementView::Mission(e) => if acc.mission is Some {
            Err(
                fail(
                    e.span,
                    "E_DUPLICATE_MISSION"@,
                    "the manifest registers more than one mission memory file; a project states one mission"@,
                ),
            )
        } else {
            Ok(Declared { mission: Some(e), ..acc })
        },
        StatementView::Knowledge(e) => if exists|i: int|
            0 <= i < acc.knowledge.len() && normal_form((#[trigger] acc.knowledge[i]).path)
                == normal_form(e.path) {
            Err(
                fail(
                    e.span,
                    "E_DUPLICATE_KNOWLEDGE"@,
                    "knowledge memory '"@ + e.display + "' is registered more than once"@,
                ),
            )
        } else {
            Ok(Declared { knowledge: acc.knowledge.push(e), ..acc })
        },
        StatementView::System(e) => if acc.system is Some {
            Err(
                fail(
                    e.span,
                    "E_DUPLICATE_SYSTEM"@,
                    "the manifest registers more than one system memory file; a project has at most one"@,
                ),
            )
        } else {
            Ok(Declared { system: Some(e), ..acc })
        },
        StatementView::Process(e) => if acc.process is Some {
            Err(
                fail(
                    e.span,
                    "E_DUPLICATE_PROCESS"@,
                    "the manifest registers more than one process memory file; a project has at most one"@,
                ),
            )
        } else {
            Ok(Declared { process: Some(e), ..acc })
        },
        StatementView::Tone(v, span) => if acc.voice is Some {
            Err(
                fail(
                    span,
                    "E_DUPLICATE_VOICE"@,
                    "the manifest declares more than one `voice`; a project has at most one"@,
                ),
            )
        } else {
            Ok(Declared { voice: Some(v), ..acc })
        },
        StatementView::Profile(profile, span) => if acc.profile is Some {
            Err(
                fail(
                    span,
                    "E_DUPLICATE_PROFILE"@,
                    "the manifest declares more than one `verify behavior` profile; a project has exactly one canonical verification"@,
                ),
            )
        } else {
            Ok(Declared { profile: Some((profile, span)), ..acc })
        },
        StatementView::Entry(e) => if exists|i: int|
            0 <= i < acc.entries.len() && normal_form((#[trigger] acc.entries[i]).path)
                == normal_form(e.path) {
            Err(
                fail(
                    e.span,
                    "E_DUPLICATE_USE"@,
                    "contract '"@ + e.display + "' is referenced more than once"@,
                ),
            )
        } else if reserved_group(e.group) {
            Err(
                fail(
                    e.span,
                    "E_RESERVED_GROUP"@,
                    "group '"@ + e.group + "' is reserved because '"@ + e.group
                        + "::' names a canonical identity kind; add `as <name>` to give this contract another group"@,
                ),
            )
        } else if exists|i: int| 0 <= i < acc.entries.len() && (#[trigger] acc.entries[i]).group == e.group {
            Err(
                fail(
                    e.span,
                    "E_DUPLICATE_GROUP"@,
                    "group '"@ + e.group
                        + "' is used by more than one contract; add `as <name>` to one of them"@,
                ),
            )
        } else {
            Ok(Declared { entries: acc.entries.push(e), ..acc })
        },
    }
}

/// The statements from `p` to the end of the manifest, added to `acc`.
pub open spec fn statements_spec(ts: Seq<TokenView>, p: int, root: Seq<char>, acc: Declared) -> Result<
    Declared,
    Failure,
>
    decreases ts.len() - p,
{
    if token(ts, p).kind == KindView::Eof {
        Ok(acc)
    } else {
        match statement_spec(ts, p, root) {
            Err(f) => Err(f),
            Ok((st, next)) => match absorb(acc, st) {
                Err(f) => Err(f),
                Ok(acc2) => if 0 <= p < next <= ts.len() {
                    statements_spec(ts, next, root, acc2)
                } else {
                    Ok(acc2)
                },
            },
        }
    }
}

/// The manifest at `path` with the text `source`, whose tokens are `ts`.
pub open spec fn manifest_spec(path: Seq<char>, source: Seq<char>, ts: Seq<TokenView>) -> Result<ManifestView, Failure> {
    match header_spec(ts) {
        Err(f) => Err(f),
        Ok((name, p)) => match statements_spec(ts, p, root_of(path), nothing_declared()) {
            Err(f) => Err(f),
            Ok(d) => Ok(
                ManifestView {
                    name,
                    path,
                    root: root_of(path),
                    source,
                    entries: d.entries,
                    mission: d.mission,
                    system: d.system,
                    process: d.process,
                    knowledge: d.knowledge,
                    profile: match d.profile {
                        Some((profile, _)) => Some(profile),
                        None => None,
                    },
                    profile_span: match d.profile {
                        Some((_, span)) => Some(span),
                        None => None,
                    },
                    voice: match d.voice {
                        Some(v) => v,
                        None => Voice::Neutral,
                    },
                    ignores: d.ignores,
                },
            ),
        },
    }
}


// ---------------------------------------------------------------------------------------
// The parser.
// ---------------------------------------------------------------------------------------

/// Whether the tokens end with `Eof`, as the lexer leaves them.
pub open spec fn ends_with_eof(ts: Seq<TokenView>) -> bool {
    ts.len() > 0 && ts.last().kind == KindView::Eof
}

/// The value of a numeral that fits in 64 bits.
pub fn parse_u64(text: &str) -> (r: Option<u64>)
    ensures
        r == parsed_u64(text@),
{
    let chars = crate::text::chars_of(text);
    if chars.len() == 0 {
        return None;
    }
    let mut value: u64 = 0;
    let mut i: usize = 0;
    while i < chars.len()
        invariant
            0 < chars.len(),
            chars@ == text@,
            i <= chars.len(),
            all_digits(chars@.take(i as int)),
            value as nat == digits_value(chars@.take(i as int)),
        decreases chars.len() - i,
    {
        let c = chars[i];
        assert(chars@.take(i + 1).drop_last() =~= chars@.take(i as int));
        if !('0' <= c && c <= '9') {
            assert(!all_digits(chars@));
            return None;
        }
        let d = (c as u32 - 48) as u64;
        match value.checked_mul(10) {
            None => {
                proof {
                    lemma_digits_grow(chars@, i as int);
                }
                return None;
            },
            Some(m) => match m.checked_add(d) {
                None => {
                    proof {
                        lemma_digits_grow(chars@, i as int);
                    }
                    return None;
                },
                Some(v) => {
                    value = v;
                },
            },
        }
        i += 1;
        assert(all_digits(chars@.take(i as int))) by {
            assert forall|j: int| 0 <= j < i implies '0' <= #[trigger] chars@.take(i as int)[j] <= '9' by {
                if j < i - 1 {
                    assert(chars@.take(i as int)[j] == chars@.take(i - 1)[j]);
                }
            }
        }
    }
    assert(chars@.take(chars@.len() as int) =~= chars@);
    Some(value)
}

proof fn lemma_digits_monotone(s: Seq<char>, i: int)
    requires
        0 <= i <= s.len(),
        all_digits(s),
    ensures
        digits_value(s.take(i)) <= digits_value(s),
    decreases s.len() - i,
{
    if i < s.len() {
        lemma_digits_monotone(s, i + 1);
        assert(s.take(i + 1).drop_last() =~= s.take(i));
        assert(s.take(i + 1).last() == s[i]);
        let x = digits_value(s.take(i));
        assert('0' <= s[i] <= '9');
        assert(digits_value(s.take(i + 1)) == x * 10 + ((s[i] as u32) - 48) as nat);
        assert(x * 10 >= x) by (nonlinear_arith);
    } else {
        assert(s.take(i) =~= s);
    }
}

/// Once the value of a prefix times ten plus the next digit overflows, the whole numeral does.
proof fn lemma_digits_grow(s: Seq<char>, i: int)
    requires
        0 <= i < s.len(),
        digits_value(s.take(i)) * 10 + ((s[i] as u32) - 48) > u64::MAX,
        '0' <= s[i] <= '9',
    ensures
        parsed_u64(s) is None,
{
    if all_digits(s) {
        assert(s.take(i + 1).drop_last() =~= s.take(i));
        lemma_digits_monotone(s, i + 1);
    }
}

/// Reads a manifest from its tokens.
pub struct ManifestParser<'a> {
    pub file: &'a str,
    pub tokens: &'a Vec<Token>,
    pub position: usize,
}

impl<'a> ManifestParser<'a> {
    pub open spec fn tv(&self) -> Seq<TokenView> {
        tokens_view(self.tokens@)
    }

    pub open spec fn ready(&self) -> bool {
        ends_with_eof(self.tv()) && self.position < self.tokens.len()
    }

    /// The token at the current position.
    fn current(&self) -> (t: &'a Token)
        requires
            self.tokens.len() > 0,
        ensures
            t@ == token(self.tv(), self.position as int),
    {
        if self.position < self.tokens.len() {
            &self.tokens[self.position]
        } else {
            &self.tokens[self.tokens.len() - 1]
        }
    }

    /// Whether the current token is the end of the manifest.
    fn at_end(&self) -> (b: bool)
        requires
            self.tokens.len() > 0,
        ensures
            b == (token(self.tv(), self.position as int).kind == KindView::Eof),
    {
        match self.current().kind {
            TokenKind::Eof => true,
            _ => false,
        }
    }

    /// A refusal at `span`.
    fn error(&self, span: Span, code: &str, message: String) -> (d: Diagnostic)
        ensures
            reports(d, self.file@, fail(span, code@, message@)),
    {
        Diagnostic::new(self.file, span, code, message)
    }
}

/// Whether `t` is the identifier `w`.
fn is_identifier(t: &Token, w: &str) -> (b: bool)
    ensures
        b == is_word(t@, w@),
{
    match &t.kind {
        TokenKind::Identifier(x) => str_eq(x.as_str(), w),
        _ => false,
    }
}

proof fn lemma_consumed(ts: Seq<TokenView>, p: int)
    requires
        ends_with_eof(ts),
        0 <= p < ts.len(),
        ts[p].kind != KindView::Eof,
    ensures
        p + 1 < ts.len(),
{
}


impl<'a> ManifestParser<'a> {
    pub open spec fn same_input(&self, other: &ManifestParser<'a>) -> bool {
        self.file == other.file && self.tokens == other.tokens
    }

    /// `project <Name>` at the start of the manifest.
    fn header(&mut self) -> (r: Result<String, Diagnostic>)
        requires
            old(self).ready(),
            old(self).position == 0,
        ensures
            final(self).same_input(&*old(self)),
            match header_spec(old(self).tv()) {
                Ok((name, next)) => r matches Ok(n) && n@ == name && final(self).position == next
                    && final(self).ready(),
                Err(f) => r matches Err(d) && reports(d, old(self).file@, f),
            },
    {
        let first = self.current();
        if !is_identifier(first, "project") {
            return Err(self.error(first.span, "E_PROJECT_HEADER", "a project manifest must start with `project <Name>`".to_owned()));
        }
        proof {
            lemma_consumed(self.tv(), 0);
        }
        self.position = self.position + 1;
        let name_token = self.current();
        match &name_token.kind {
            TokenKind::Identifier(name) => {
                proof {
                    lemma_consumed(self.tv(), 1);
                }
                let name = name.clone();
                self.position = self.position + 1;
                Ok(name)
            },
            _ => Err(self.error(name_token.span, "E_PROJECT_HEADER", "expected the project name after `project`".to_owned())),
        }
    }

    /// The layer named at the current position.
    fn layer(&mut self) -> (r: Result<Layer, Diagnostic>)
        requires
            old(self).ready(),
        ensures
            final(self).same_input(&*old(self)),
            match layer_spec(old(self).tv(), old(self).position as int) {
                Ok((layer, next)) => r matches Ok(l) && l == layer && final(self).position == next
                    && final(self).ready(),
                Err(f) => r matches Err(d) && reports(d, old(self).file@, f),
            },
    {
        let t = self.current();
        match &t.kind {
            TokenKind::Identifier(name) => {
                let parsed = if str_eq(name.as_str(), "behavior") {
                    Layer::Behavior
                } else if str_eq(name.as_str(), "structure") {
                    Layer::Structure
                } else {
                    let mut message = joined("layer '", name.as_str());
                    append(&mut message, "' is not supported; a project composes `behavior` and `structure` contracts, and mission, system, process and knowledge memory are registered by their own statements `mission \"path\"`, `system \"path\"`, `process \"path\"` and `knowledge \"path\"` because they are not layers and never decide completion");
                    return Err(self.error(t.span, "E_UNSUPPORTED_LAYER", message));
                };
                proof {
                    lemma_consumed(self.tv(), self.position as int);
                }
                self.position = self.position + 1;
                Ok(parsed)
            },
            _ => Err(self.error(t.span, "E_MANIFEST_STATEMENT", "expected a layer name such as `behavior` or `structure`".to_owned())),
        }
    }

    /// A whole number from `min` through `max` at the current position.
    fn integer(&mut self, field: &str, min: u64, max: u64) -> (r: Result<u64, Diagnostic>)
        requires
            old(self).ready(),
        ensures
            final(self).same_input(&*old(self)),
            match integer_spec(old(self).tv(), old(self).position as int, field@, min, max) {
                Ok((v, next)) => r matches Ok(x) && x == v && final(self).position == next
                    && final(self).ready(),
                Err(f) => r matches Err(d) && reports(d, old(self).file@, f),
            },
    {
        let t = self.current();
        let value = match &t.kind {
            TokenKind::Integer(text) => parse_u64(text.as_str()),
            _ => None,
        };
        match value {
            Some(v) => {
                if min <= v && v <= max {
                    proof {
                        lemma_consumed(self.tv(), self.position as int);
                    }
                    self.position = self.position + 1;
                    return Ok(v);
                }
            },
            None => {},
        }
        let message = if max == u64::MAX {
            let mut m = joined("`", field);
            append(&mut m, "` must be an integer of at least ");
            append(&mut m, decimal_text(min).as_str());
            m
        } else {
            let mut m = joined("`", field);
            append(&mut m, "` must be an integer from ");
            append(&mut m, decimal_text(min).as_str());
            append(&mut m, " through ");
            append(&mut m, decimal_text(max).as_str());
            m
        };
        Err(self.error(t.span, "E_PROFILE_FIELD", message))
    }
}

// ---------------------------------------------------------------------------------------
// Paths, computed.
// ---------------------------------------------------------------------------------------

fn is_dot(v: &Vec<char>) -> (b: bool)
    ensures
        b == (v@ == seq!['.']),
{
    if v.len() == 1 && v[0] == '.' {
        assert(v@ =~= seq!['.']);
        true
    } else {
        false
    }
}

fn is_dot_dot(v: &Vec<char>) -> (b: bool)
    ensures
        b == (v@ == seq!['.', '.']),
{
    if v.len() == 2 && v[0] == '.' && v[1] == '.' {
        assert(v@ =~= seq!['.', '.']);
        true
    } else {
        false
    }
}

fn last_kept_piece(pieces: &Vec<Vec<char>>) -> (r: Option<usize>)
    ensures
        match last_kept(pieces@.map_values(|p: Vec<char>| p@)) {
            Some(name) => r matches Some(k) && k < pieces.len() && pieces@[k as int]@ == name,
            None => r is None,
        },
{
    let ghost segs = pieces@.map_values(|p: Vec<char>| p@);
    let mut i = pieces.len();
    assert(segs.take(i as int) =~= segs);
    while i > 0
        invariant
            i <= pieces.len(),
            segs == pieces@.map_values(|p: Vec<char>| p@),
            last_kept(segs) == last_kept(segs.take(i as int)),
        decreases i,
    {
        assert(segs.take(i as int).drop_last() =~= segs.take(i - 1));
        let piece = &pieces[i - 1];
        assert(segs.take(i as int).last() == piece@);
        if piece.len() > 0 && !is_dot(piece) {
            return Some(i - 1);
        }
        i -= 1;
    }
    None
}

/// The file name of `path` without its extension; empty when it has no file name.
pub fn file_stem_text(path: &str) -> (s: String)
    ensures
        s@ == file_stem(path@),
{
    let chars = crate::text::chars_of(path);
    let pieces = crate::text::split_chars(&chars, '/');
    match last_kept_piece(&pieces) {
        None => String::new(),
        Some(k) => {
            let name = &pieces[k];
            assert(file_name(path@) == if name@ == seq!['.', '.'] { None } else { Some(name@) });
            if is_dot_dot(name) {
                String::new()
            } else {
                proof {
                    crate::text::lemma_last_index(name@, '.');
                }
                match crate::text::last_index_of(name, '.') {
                    Some(j) => if j == 0 {
                        crate::text::string_of(name.as_slice())
                    } else {
                        let s = crate::text::string_of_range(name.as_slice(), 0, j);
                        assert(name@.subrange(0, j as int) =~= name@.take(j as int));
                        s
                    },
                    None => crate::text::string_of(name.as_slice()),
                }
            }
        },
    }
}

/// The file name of `path`; empty when it has none.
pub fn file_name_text(path: &str) -> (s: String)
    ensures
        s@ == match file_name(path@) {
            Some(n) => n,
            None => Seq::empty(),
        },
{
    let chars = crate::text::chars_of(path);
    let pieces = crate::text::split_chars(&chars, '/');
    match last_kept_piece(&pieces) {
        None => String::new(),
        Some(k) => {
            let name = &pieces[k];
            if is_dot_dot(name) {
                String::new()
            } else {
                crate::text::string_of(name.as_slice())
            }
        },
    }
}

/// `written` resolved against `root`.
pub fn join_path_text(root: &str, written: &str) -> (s: String)
    ensures
        s@ == join_path(root@, written@),
{
    let w = crate::text::chars_of(written);
    let r = crate::text::chars_of(root);
    if w.len() > 0 && w[0] == '/' {
        return written.to_owned();
    }
    if r.len() == 0 {
        return written.to_owned();
    }
    if r[r.len() - 1] == '/' {
        joined(root, written)
    } else {
        let mut s = joined(root, "/");
        proof {
            reveal_strlit("/");
        }
        append(&mut s, written);
        s
    }
}

/// The directory that holds the manifest at `path`.
pub fn root_of_text(path: &str) -> (s: String)
    ensures
        s@ == root_of(path@),
{
    let chars = crate::text::chars_of(path);
    if chars.len() == 0 {
        proof {
            reveal_strlit(".");
        }
        return ".".to_owned();
    }
    proof {
        crate::project::ignore::lemma_last_slash(chars@);
    }
    match crate::project::ignore::last_slash_index(&chars) {
        None => String::new(),
        Some(j) => if j == 0 {
            proof {
                reveal_strlit("/");
            }
            "/".to_owned()
        } else {
            let s = crate::text::string_of_range(chars.as_slice(), 0, j);
            assert(chars@.subrange(0, j as int) =~= chars@.take(j as int));
            s
        },
    }
}

fn copy_chars(v: &Vec<char>) -> (out: Vec<char>)
    ensures
        out@ == v@,
{
    let out = crate::text::slice_chars(v, 0, v.len());
    assert(v@.subrange(0, v@.len() as int) =~= v@);
    out
}

/// The lexical normal form of `path`.
fn normal_form_of(path: &str) -> (r: (bool, Vec<Vec<char>>))
    ensures
        r.0 == normal_form(path@).0,
        r.1@.map_values(|p: Vec<char>| p@) == normal_form(path@).1,
{
    let chars = crate::text::chars_of(path);
    let absolute = chars.len() > 0 && chars[0] == '/';
    let pieces = crate::text::split_chars(&chars, '/');
    let ghost segs = pieces@.map_values(|p: Vec<char>| p@);
    let mut stack: Vec<Vec<char>> = Vec::new();
    let mut i: usize = 0;
    assert(segs.take(0) =~= Seq::<Seq<char>>::empty());
    assert(stack@.map_values(|p: Vec<char>| p@) =~= Seq::<Seq<char>>::empty());
    while i < pieces.len()
        invariant
            i <= pieces.len(),
            segs == pieces@.map_values(|p: Vec<char>| p@),
            segs == split(path@, '/'),
            stack@.map_values(|p: Vec<char>| p@) == normal_stack(segs.take(i as int)),
        decreases pieces.len() - i,
    {
        let s = &pieces[i];
        let ghost before = stack@.map_values(|p: Vec<char>| p@);
        assert(segs.take(i + 1).drop_last() =~= segs.take(i as int));
        assert(segs.take(i + 1).last() == s@);
        if s.len() == 0 || is_dot(s) {
        } else if is_dot_dot(s) {
            if stack.len() > 0 {
                stack.pop();
                assert(stack@.map_values(|p: Vec<char>| p@) =~= before.drop_last());
            } else {
                stack.push(copy_chars(s));
                assert(stack@.map_values(|p: Vec<char>| p@) =~= before.push(s@));
            }
        } else {
            stack.push(copy_chars(s));
            assert(stack@.map_values(|p: Vec<char>| p@) =~= before.push(s@));
        }
        i += 1;
    }
    assert(segs.take(segs.len() as int) =~= segs);
    (absolute, stack)
}

fn same_pieces(a: &Vec<Vec<char>>, b: &Vec<Vec<char>>) -> (e: bool)
    ensures
        e == (a@.map_values(|p: Vec<char>| p@) == b@.map_values(|p: Vec<char>| p@)),
{
    let ghost am = a@.map_values(|p: Vec<char>| p@);
    let ghost bm = b@.map_values(|p: Vec<char>| p@);
    if a.len() != b.len() {
        assert(am.len() != bm.len());
        return false;
    }
    let mut i: usize = 0;
    while i < a.len()
        invariant
            i <= a.len(),
            a.len() == b.len(),
            am == a@.map_values(|p: Vec<char>| p@),
            bm == b@.map_values(|p: Vec<char>| p@),
            forall|k: int| 0 <= k < i ==> am[k] == bm[k],
        decreases a.len() - i,
    {
        if !crate::text::chars_eq(&a[i], &b[i]) {
            assert(am[i as int] != bm[i as int]);
            return false;
        }
        i += 1;
    }
    assert(am =~= bm);
    true
}

/// Whether two paths have the same lexical normal form.
fn same_place(a: &str, b: &str) -> (e: bool)
    ensures
        e == (normal_form(a@) == normal_form(b@)),
{
    let (x_abs, x) = normal_form_of(a);
    let (y_abs, y) = normal_form_of(b);
    x_abs == y_abs && same_pieces(&x, &y)
}

// ---------------------------------------------------------------------------------------
// Statements.
// ---------------------------------------------------------------------------------------

/// One statement of the manifest, as the parser reads it.
enum Statement {
    Entry(Entry),
    Mission(MemoryEntry),
    System(MemoryEntry),
    Process(MemoryEntry),
    Knowledge(MemoryEntry),
    Profile(Profile, Span),
    Tone(Voice, Span),
    Ignore(IgnoreDeclaration),
}

impl View for Statement {
    type V = StatementView;

    closed spec fn view(&self) -> StatementView {
        match self {
            Statement::Entry(e) => StatementView::Entry(e@),
            Statement::Mission(e) => StatementView::Mission(e@),
            Statement::System(e) => StatementView::System(e@),
            Statement::Process(e) => StatementView::Process(e@),
            Statement::Knowledge(e) => StatementView::Knowledge(e@),
            Statement::Profile(p, s) => StatementView::Profile(p@, *s),
            Statement::Tone(v, s) => StatementView::Tone(*v, *s),
            Statement::Ignore(d) => StatementView::Ignore(d@),
        }
    }
}

/// The result of the command items from a position, with `prefix` read before them.
pub open spec fn after_prefix(prefix: Seq<Seq<char>>, r: Result<(Seq<Seq<char>>, int), Failure>) -> Result<
    (Seq<Seq<char>>, int),
    Failure,
> {
    match r {
        Ok((rest, end)) => Ok((prefix + rest, end)),
        Err(f) => Err(f),
    }
}

proof fn lemma_command_items_advance(ts: Seq<TokenView>, p: int)
    requires
        0 <= p,
    ensures
        command_items(ts, p) matches Ok((_, end)) ==> p < end,
    decreases ts.len() - p,
{
    let t = token(ts, p);
    if t.kind is String && token(ts, p + 1).kind == KindView::Comma && p + 2 <= ts.len() {
        lemma_command_items_advance(ts, p + 2);
    }
}

fn memory_example_text(keyword: &str) -> (e: &'static str)
    ensures
        e@ == memory_example(keyword@),
{
    if str_eq(keyword, "mission") {
        "mission.bla"
    } else if str_eq(keyword, "system") {
        "system.bla"
    } else if str_eq(keyword, "knowledge") {
        "knowledge/engineering.bla"
    } else {
        "process.bla"
    }
}

fn is_memory_keyword_text(w: &str) -> (b: bool)
    ensures
        b == is_memory_keyword(w@),
{
    str_eq(w, "mission") || str_eq(w, "system") || str_eq(w, "process") || str_eq(w, "knowledge")
}

impl<'a> ManifestParser<'a> {
    /// A command list `["program", "argument", ...]` at the current position.
    fn command_list(&mut self, field: Span) -> (r: Result<Vec<String>, Diagnostic>)
        requires
            old(self).ready(),
        ensures
            final(self).same_input(&*old(self)),
            match command_list_spec(old(self).tv(), old(self).position as int, field) {
                Ok((values, next)) => r matches Ok(v) && strings_view(v@) == values
                    && final(self).position == next && final(self).ready(),
                Err(f) => r matches Err(d) && reports(d, old(self).file@, f),
            },
    {
        let ghost ts = self.tv();
        let ghost p0 = self.position as int;
        let open = self.current();
        match open.kind {
            TokenKind::LeftBracket => {},
            _ => {
                return Err(self.error(open.span, "E_PROFILE_COMMAND", "expected `[\"program\", \"argument\", ...]` after `command`".to_owned()));
            },
        }
        proof {
            lemma_consumed(ts, p0);
        }
        self.position = self.position + 1;
        let mut values: Vec<String> = Vec::new();
        assert(strings_view(values@) =~= Seq::<Seq<char>>::empty());
        assert(after_prefix(strings_view(values@), command_items(ts, p0 + 1)) == command_items(ts, p0 + 1)) by {
            match command_items(ts, p0 + 1) {
                Ok((rest, end)) => {
                    assert(Seq::<Seq<char>>::empty() + rest =~= rest);
                },
                Err(f) => {},
            }
        }
        loop
            invariant_except_break
                after_prefix(strings_view(values@), command_items(ts, self.position as int))
                    == command_items(ts, p0 + 1),
            invariant
                self.ready(),
                self.file == old(self).file,
                self.tokens == old(self).tokens,
                ts == self.tv(),
                p0 + 1 <= self.position,
                token(ts, p0).kind == KindView::LeftBracket,
                p0 == old(self).position,
            ensures
                command_items(ts, p0 + 1) == Ok::<(Seq<Seq<char>>, int), Failure>(
                    (strings_view(values@), self.position as int),
                ),
            decreases self.tokens.len() - self.position,
        {
            let ghost p = self.position as int;
            let t = self.current();
            match &t.kind {
                TokenKind::RightBracket => {
                    proof {
                        lemma_consumed(ts, p);
                        assert(strings_view(values@) + Seq::<Seq<char>>::empty() =~= strings_view(values@));
                    }
                    self.position = self.position + 1;
                    break;
                },
                TokenKind::String(value) => {
                    if value.as_str().unicode_len() == 0 {
                        assert(command_items(ts, p) is Err);
                        return Err(self.error(t.span, "E_PROFILE_COMMAND", "command elements must not be empty strings".to_owned()));
                    }
                    proof {
                        lemma_consumed(ts, p);
                    }
                    self.position = self.position + 1;
                    let after = self.current();
                    match after.kind {
                        TokenKind::Comma => {
                            let ghost old_vs = strings_view(values@);
                            proof {
                                lemma_consumed(ts, p + 1);
                            }
                            values.push(value.clone());
                            proof {
                                assert(strings_view(values@) =~= old_vs.push(value@));
                                match command_items(ts, p + 2) {
                                    Ok((rest, end)) => {
                                        assert(old_vs + (seq![value@] + rest) =~= old_vs.push(value@) + rest);
                                    },
                                    Err(f) => {},
                                }
                            }
                            self.position = self.position + 1;
                        },
                        TokenKind::RightBracket => {
                            let ghost old_vs = strings_view(values@);
                            values.push(value.clone());
                            proof {
                                assert(strings_view(values@) =~= old_vs.push(value@));
                                assert(command_items(ts, p) == Ok::<(Seq<Seq<char>>, int), Failure>((seq![value@], p + 2)));
                                assert(command_items(ts, p + 1) == Ok::<(Seq<Seq<char>>, int), Failure>((Seq::empty(), p + 2)));
                                assert(old_vs + seq![value@] =~= old_vs.push(value@));
                                assert(strings_view(values@) + Seq::<Seq<char>>::empty() =~= strings_view(values@));
                            }
                        },
                        _ => {
                            return Err(self.error(after.span, "E_PROFILE_COMMAND", "expected `,` or `]` after a command element".to_owned()));
                        },
                    }
                },
                _ => {
                    assert(command_items(ts, p) is Err);
                    return Err(self.error(t.span, "E_PROFILE_COMMAND", "command elements must be quoted strings".to_owned()));
                },
            }
        }
        if values.len() == 0 {
            return Err(self.error(field, "E_PROFILE_COMMAND", "`command` needs at least the program to launch".to_owned()));
        }
        Ok(values)
    }
}

pub open spec fn strings_option(o: Option<Vec<String>>) -> Option<Seq<Seq<char>>> {
    match o {
        Some(v) => Some(strings_view(v@)),
        None => None,
    }
}

/// The profile fields that the parser holds.
pub open spec fn fields_of(
    command: Option<Vec<String>>,
    prepare: Option<Vec<String>>,
    startup_ms: Option<u64>,
    seed: Option<u64>,
    cases: Option<u64>,
    steps: Option<u64>,
    timeout_ms: Option<u64>,
    shrink_budget: Option<u64>,
) -> Fields {
    Fields {
        command: strings_option(command),
        prepare: strings_option(prepare),
        startup_ms,
        seed,
        cases,
        steps,
        timeout_ms,
        shrink_budget,
    }
}

fn profile_fields_exec() -> (f: &'static str)
    ensures
        f@ == profile_fields_text(),
{
    "command, prepare, seed, cases, steps, timeout_ms, startup_ms, shrink_budget"
}

/// The bounds of a numeric profile field.
fn numeric_bounds_exec(field: &str) -> (r: Option<(u64, u64)>)
    ensures
        r == numeric_bounds(field@),
{
    if str_eq(field, "startup_ms") {
        Some((1, MAX_STARTUP_MS))
    } else if str_eq(field, "seed") {
        Some((0, u64::MAX))
    } else if str_eq(field, "cases") || str_eq(field, "steps") {
        Some((1, u64::MAX))
    } else if str_eq(field, "timeout_ms") {
        Some((1, MAX_TIMEOUT_MS))
    } else if str_eq(field, "shrink_budget") {
        Some((0, MAX_SHRINK_ATTEMPTS as u64))
    } else {
        None
    }
}

impl<'a> ManifestParser<'a> {
    /// The profile `{ ... }` at the current position, for the statement that starts at `start`.
    fn profile(&mut self, start: Span) -> (r: Result<(Profile, Span), Diagnostic>)
        requires
            old(self).ready(),
        ensures
            final(self).same_input(&*old(self)),
            match profile_spec(old(self).tv(), old(self).position as int, start) {
                Ok((profile, span, next)) => r matches Ok((p, s)) && p@ == profile && s == span
                    && final(self).position == next && final(self).ready(),
                Err(f) => r matches Err(d) && reports(d, old(self).file@, f),
            },
    {
        let ghost ts = self.tv();
        let ghost p0 = self.position as int;
        let open = self.current();
        match open.kind {
            TokenKind::LeftBrace => {},
            _ => {
                return Err(self.error(open.span, "E_MANIFEST_STATEMENT", "expected `{` after `verify behavior`".to_owned()));
            },
        }
        proof {
            lemma_consumed(ts, p0);
        }
        self.position = self.position + 1;
        let mut command: Option<Vec<String>> = None;
        let mut prepare: Option<Vec<String>> = None;
        let mut startup_ms: Option<u64> = None;
        let mut seed: Option<u64> = None;
        let mut cases: Option<u64> = None;
        let mut steps: Option<u64> = None;
        let mut timeout_ms: Option<u64> = None;
        let mut shrink_budget: Option<u64> = None;
        let mut close = open.span;
        loop
            invariant_except_break
                profile_fields_spec(
                    ts,
                    self.position as int,
                    fields_of(command, prepare, startup_ms, seed, cases, steps, timeout_ms, shrink_budget),
                ) == profile_fields_spec(ts, p0 + 1, no_fields()),
            invariant
                self.ready(),
                self.file == old(self).file,
                self.tokens == old(self).tokens,
                ts == self.tv(),
                p0 + 1 <= self.position,
                token(ts, p0).kind == KindView::LeftBrace,
                p0 == old(self).position,
            ensures
                profile_fields_spec(ts, p0 + 1, no_fields()) == Ok::<(Fields, Span, int), Failure>(
                    (
                        fields_of(command, prepare, startup_ms, seed, cases, steps, timeout_ms, shrink_budget),
                        close,
                        self.position as int,
                    ),
                ),
            decreases self.tokens.len() - self.position,
        {
            let ghost p = self.position as int;
            let ghost acc = fields_of(command, prepare, startup_ms, seed, cases, steps, timeout_ms, shrink_budget);
            let t = self.current();
            match &t.kind {
                TokenKind::RightBrace => {
                    proof {
                        lemma_consumed(ts, p);
                    }
                    self.position = self.position + 1;
                    close = t.span;
                    break;
                },
                TokenKind::Eof => {
                    return Err(self.error(t.span, "E_MANIFEST_STATEMENT", "expected `}` to close `verify behavior`".to_owned()));
                },
                TokenKind::Identifier(field) => {
                    proof {
                        lemma_consumed(ts, p);
                    }
                    self.position = self.position + 1;
                    let repeated: bool;
                    if str_eq(field.as_str(), "command") || str_eq(field.as_str(), "prepare") {
                        let values = match self.command_list(t.span) {
                            Ok(v) => v,
                            Err(d) => {
                                return Err(d);
                            },
                        };
                        proof {
                            lemma_command_items_advance(ts, p + 2);
                        }
                        if str_eq(field.as_str(), "command") {
                            repeated = command.is_some();
                            command = Some(values);
                        } else {
                            repeated = prepare.is_some();
                            prepare = Some(values);
                        }
                    } else {
                        match numeric_bounds_exec(field.as_str()) {
                            None => {
                                let mut m = joined("unknown verification profile field '", field.as_str());
                                append(&mut m, "'; fields are ");
                                append(&mut m, profile_fields_exec());
                                return Err(self.error(t.span, "E_PROFILE_FIELD", m));
                            },
                            Some((min, max)) => {
                                let v = match self.integer(field.as_str(), min, max) {
                                    Ok(v) => v,
                                    Err(d) => {
                                        return Err(d);
                                    },
                                };
                                if str_eq(field.as_str(), "startup_ms") {
                                    repeated = startup_ms.is_some();
                                    startup_ms = Some(v);
                                } else if str_eq(field.as_str(), "seed") {
                                    repeated = seed.is_some();
                                    seed = Some(v);
                                } else if str_eq(field.as_str(), "cases") {
                                    repeated = cases.is_some();
                                    cases = Some(v);
                                } else if str_eq(field.as_str(), "steps") {
                                    repeated = steps.is_some();
                                    steps = Some(v);
                                } else if str_eq(field.as_str(), "timeout_ms") {
                                    repeated = timeout_ms.is_some();
                                    timeout_ms = Some(v);
                                } else {
                                    repeated = shrink_budget.is_some();
                                    shrink_budget = Some(v);
                                }
                            },
                        }
                    }
                    if repeated {
                        let mut m = joined("verification profile field '", field.as_str());
                        append(&mut m, "' is set more than once");
                        return Err(self.error(t.span, "E_PROFILE_FIELD", m));
                    }
                },
                _ => {
                    let mut m = joined("expected a verification profile field (", profile_fields_exec());
                    append(&mut m, ") or `}`");
                    return Err(self.error(t.span, "E_PROFILE_FIELD", m));
                },
            }
        }
        let span = Span { start: start.start, end: close.end, line: start.line, column: start.column };
        match command {
            None => Err(self.error(span, "E_PROFILE_COMMAND", "`verify behavior` needs `command [\"program\", \"argument\", ...]`: the application launch used by blabla finish".to_owned())),
            Some(command) => Ok(
                (
                    Profile {
                        command,
                        prepare,
                        startup_ms,
                        seed: match seed {
                            Some(v) => v,
                            None => 0,
                        },
                        cases: match cases {
                            Some(v) => v as usize,
                            None => DEFAULT_CASES,
                        },
                        steps: match steps {
                            Some(v) => v as usize,
                            None => DEFAULT_STEPS,
                        },
                        timeout_ms: match timeout_ms {
                            Some(v) => v,
                            None => DEFAULT_TIMEOUT_MS,
                        },
                        shrink_budget: match shrink_budget {
                            Some(v) => v as usize,
                            None => MAX_SHRINK_ATTEMPTS,
                        },
                    },
                    span,
                ),
            ),
        }
    }
}

impl<'a> ManifestParser<'a> {
    /// A `use` or `draft` statement at the current position.
    fn entry_statement(&mut self, root: &str, draft: bool) -> (r: Result<Statement, Diagnostic>)
        requires
            old(self).ready(),
            token(old(self).tv(), old(self).position as int).kind != KindView::Eof,
        ensures
            final(self).same_input(&*old(self)),
            match entry_spec(old(self).tv(), old(self).position as int, root@, draft) {
                Ok((st, next)) => r matches Ok(s) && s@ == st && final(self).position == next
                    && final(self).ready(),
                Err(f) => r matches Err(d) && reports(d, old(self).file@, f),
            },
    {
        let ghost ts = self.tv();
        let ghost p = self.position as int;
        let start = self.current();
        proof {
            lemma_consumed(ts, p);
        }
        self.position = self.position + 1;
        let layer = match self.layer() {
            Ok(l) => l,
            Err(d) => {
                return Err(d);
            },
        };
        let ghost q = self.position as int;
        let pt = self.current();
        match &pt.kind {
            TokenKind::String(written) => {
                proof {
                    lemma_consumed(ts, q);
                }
                self.position = self.position + 1;
                let mut alias: Option<String> = None;
                let nx = self.current();
                if is_identifier(nx, "as") {
                    proof {
                        lemma_consumed(ts, q + 1);
                    }
                    self.position = self.position + 1;
                    let at = self.current();
                    match &at.kind {
                        TokenKind::Identifier(name) => {
                            proof {
                                lemma_consumed(ts, q + 2);
                            }
                            alias = Some(name.clone());
                            self.position = self.position + 1;
                        },
                        _ => {
                            return Err(self.error(at.span, "E_MANIFEST_STATEMENT", "expected a group name after `as`".to_owned()));
                        },
                    }
                }
                let span = Span {
                    start: start.span.start,
                    end: pt.span.end,
                    line: start.span.line,
                    column: start.span.column,
                };
                let group = match alias {
                    Some(a) => a,
                    None => {
                        let stem = file_stem_text(written.as_str());
                        if stem.as_str().unicode_len() == 0 {
                            let mut m = joined("cannot derive a group name from '", written.as_str());
                            append(&mut m, "'; add `as <name>`");
                            return Err(self.error(span, "E_MANIFEST_STATEMENT", m));
                        }
                        stem
                    },
                };
                Ok(
                    Statement::Entry(
                        Entry {
                            group,
                            display: written.clone(),
                            path: join_path_text(root, written.as_str()),
                            draft,
                            layer,
                            span,
                        },
                    ),
                )
            },
            _ => Err(self.error(pt.span, "E_MANIFEST_STATEMENT", "expected a quoted contract path".to_owned())),
        }
    }

    /// A `mission`, `system`, `process` or `knowledge` statement at the current position.
    fn memory_statement(&mut self, root: &str, keyword: &str) -> (r: Result<Statement, Diagnostic>)
        requires
            old(self).ready(),
            token(old(self).tv(), old(self).position as int).kind != KindView::Eof,
        ensures
            final(self).same_input(&*old(self)),
            match memory_spec(old(self).tv(), old(self).position as int, root@, keyword@) {
                Ok((st, next)) => r matches Ok(s) && s@ == st && final(self).position == next
                    && final(self).ready(),
                Err(f) => r matches Err(d) && reports(d, old(self).file@, f),
            },
    {
        let ghost ts = self.tv();
        let ghost p = self.position as int;
        let start = self.current();
        proof {
            lemma_consumed(ts, p);
        }
        self.position = self.position + 1;
        let pt = self.current();
        match &pt.kind {
            TokenKind::String(written) => {
                proof {
                    lemma_consumed(ts, p + 1);
                }
                self.position = self.position + 1;
                let entry = MemoryEntry {
                    display: written.clone(),
                    path: join_path_text(root, written.as_str()),
                    span: Span {
                        start: start.span.start,
                        end: pt.span.end,
                        line: start.span.line,
                        column: start.span.column,
                    },
                };
                if str_eq(keyword, "mission") {
                    Ok(Statement::Mission(entry))
                } else if str_eq(keyword, "system") {
                    Ok(Statement::System(entry))
                } else if str_eq(keyword, "knowledge") {
                    Ok(Statement::Knowledge(entry))
                } else {
                    Ok(Statement::Process(entry))
                }
            },
            _ => {
                let mut m = joined("expected a quoted path after `", keyword);
                append(&mut m, "`, as in `");
                append(&mut m, keyword);
                append(&mut m, " \"");
                append(&mut m, memory_example_text(keyword));
                append(&mut m, "\"`");
                Err(self.error(pt.span, "E_MANIFEST_STATEMENT", m))
            },
        }
    }

    /// A `voice` statement at the current position.
    fn voice_statement(&mut self) -> (r: Result<Statement, Diagnostic>)
        requires
            old(self).ready(),
            token(old(self).tv(), old(self).position as int).kind != KindView::Eof,
        ensures
            final(self).same_input(&*old(self)),
            match voice_spec(old(self).tv(), old(self).position as int) {
                Ok((st, next)) => r matches Ok(s) && s@ == st && final(self).position == next
                    && final(self).ready(),
                Err(f) => r matches Err(d) && reports(d, old(self).file@, f),
            },
    {
        let ghost ts = self.tv();
        let ghost p = self.position as int;
        let start = self.current();
        proof {
            lemma_consumed(ts, p);
        }
        self.position = self.position + 1;
        let chosen = self.current();
        match &chosen.kind {
            TokenKind::Identifier(name) => match Voice::parse(name.as_str()) {
                Some(v) => {
                    proof {
                        lemma_consumed(ts, p + 1);
                    }
                    self.position = self.position + 1;
                    let span = Span {
                        start: start.span.start,
                        end: chosen.span.end,
                        line: start.span.line,
                        column: start.span.column,
                    };
                    Ok(Statement::Tone(v, span))
                },
                None => {
                    let mut m = joined("unknown voice '", name.as_str());
                    append(&mut m, "'; the voices are ");
                    append(&mut m, crate::voice::voice_names());
                    Err(self.error(chosen.span, "E_MANIFEST_VOICE", m))
                },
            },
            _ => {
                let m = joined("expected a voice after `voice`; the voices are ", crate::voice::voice_names());
                Err(self.error(chosen.span, "E_MANIFEST_VOICE", m))
            },
        }
    }

    /// A `verify behavior { ... }` statement at the current position.
    fn verify_statement(&mut self) -> (r: Result<Statement, Diagnostic>)
        requires
            old(self).ready(),
            token(old(self).tv(), old(self).position as int).kind != KindView::Eof,
        ensures
            final(self).same_input(&*old(self)),
            match verify_spec(old(self).tv(), old(self).position as int) {
                Ok((st, next)) => r matches Ok(s) && s@ == st && final(self).position == next
                    && final(self).ready(),
                Err(f) => r matches Err(d) && reports(d, old(self).file@, f),
            },
    {
        let ghost ts = self.tv();
        let ghost p = self.position as int;
        let start = self.current();
        proof {
            lemma_consumed(ts, p);
        }
        self.position = self.position + 1;
        let layer_span = self.current().span;
        let layer = match self.layer() {
            Ok(l) => l,
            Err(d) => {
                return Err(d);
            },
        };
        match layer {
            Layer::Behavior => {},
            Layer::Structure => {
                return Err(self.error(layer_span, "E_PROFILE_LAYER", "only `verify behavior { ... }` exists; structure contracts are evaluated statically and need no profile".to_owned()));
            },
        }
        match self.profile(start.span) {
            Ok((profile, span)) => Ok(Statement::Profile(profile, span)),
            Err(d) => Err(d),
        }
    }

    /// An `ignore "pattern"` or `ignore from "file"` statement at the current position.
    fn ignore_statement(&mut self, root: &str) -> (r: Result<Statement, Diagnostic>)
        requires
            old(self).ready(),
            token(old(self).tv(), old(self).position as int).kind != KindView::Eof,
        ensures
            final(self).same_input(&*old(self)),
            match ignore_spec(old(self).tv(), old(self).position as int, root@) {
                Ok((st, next)) => r matches Ok(s) && s@ == st && final(self).position == next
                    && final(self).ready(),
                Err(f) => r matches Err(d) && reports(d, old(self).file@, f),
            },
    {
        let ghost ts = self.tv();
        let ghost p = self.position as int;
        let start = self.current();
        proof {
            lemma_consumed(ts, p);
        }
        self.position = self.position + 1;
        let listed = is_identifier(self.current(), "from");
        if listed {
            proof {
                lemma_consumed(ts, p + 1);
            }
            self.position = self.position + 1;
        }
        let ghost q = self.position as int;
        let pt = self.current();
        match &pt.kind {
            TokenKind::String(written) => {
                proof {
                    lemma_consumed(ts, q);
                }
                self.position = self.position + 1;
                let span = Span {
                    start: start.span.start,
                    end: pt.span.end,
                    line: start.span.line,
                    column: start.span.column,
                };
                let declaration = if listed {
                    IgnoreDeclaration::List {
                        written: written.clone(),
                        path: join_path_text(root, written.as_str()),
                        span,
                    }
                } else {
                    IgnoreDeclaration::Pattern { written: written.clone(), span }
                };
                Ok(Statement::Ignore(declaration))
            },
            _ => Err(self.error(pt.span, "E_MANIFEST_IGNORE", "expected a quoted pattern, as in `ignore \"dist/\"`, or a quoted list file after `from`, as in `ignore from \".gitignore\"`".to_owned())),
        }
    }

    /// The statement at the current position.
    fn statement(&mut self, root: &str) -> (r: Result<Statement, Diagnostic>)
        requires
            old(self).ready(),
        ensures
            final(self).same_input(&*old(self)),
            match statement_spec(old(self).tv(), old(self).position as int, root@) {
                Ok((st, next)) => r matches Ok(s) && s@ == st && final(self).position == next
                    && final(self).ready(),
                Err(f) => r matches Err(d) && reports(d, old(self).file@, f),
            },
    {
        let start = self.current();
        match &start.kind {
            TokenKind::Identifier(w) => {
                let w = w.as_str();
                if str_eq(w, "use") {
                    proof {
                        reveal_strlit("use");
                        reveal_strlit("draft");
                    }
                    self.entry_statement(root, false)
                } else if str_eq(w, "draft") {
                    self.entry_statement(root, true)
                } else if is_memory_keyword_text(w) {
                    self.memory_statement(root, w)
                } else if str_eq(w, "voice") {
                    self.voice_statement()
                } else if str_eq(w, "verify") {
                    self.verify_statement()
                } else if str_eq(w, "ignore") {
                    self.ignore_statement(root)
                } else {
                    Err(self.error(start.span, "E_MANIFEST_STATEMENT", statement_refusal_text().to_owned()))
                }
            },
            _ => Err(self.error(start.span, "E_MANIFEST_STATEMENT", statement_refusal_text().to_owned())),
        }
    }
}

fn statement_refusal_text() -> (t: &'static str)
    ensures
        t@ == statement_refusal(),
{
    "expected `use behavior \"path\"`, `draft behavior \"path\"`, `mission \"path\"`, `system \"path\"`, `process \"path\"`, `knowledge \"path\"`, `voice <name>`, `ignore \"pattern\"`, `ignore from \"file\"` or `verify behavior { ... }`"
}

// ---------------------------------------------------------------------------------------
// The manifest.
// ---------------------------------------------------------------------------------------

pub open spec fn entry_views(s: Seq<Entry>) -> Seq<EntryView> {
    s.map_values(|e: Entry| e@)
}

pub open spec fn memory_views(s: Seq<MemoryEntry>) -> Seq<MemoryView> {
    s.map_values(|e: MemoryEntry| e@)
}

pub open spec fn decl_views(s: Seq<IgnoreDeclaration>) -> Seq<IgnoreDeclView> {
    s.map_values(|d: IgnoreDeclaration| d@)
}

/// What the parser has read so far, as declarations.
pub open spec fn declared_of(
    entries: Seq<Entry>,
    mission: Option<MemoryEntry>,
    system: Option<MemoryEntry>,
    process: Option<MemoryEntry>,
    knowledge: Seq<MemoryEntry>,
    profile: Option<(Profile, Span)>,
    voice: Option<Voice>,
    ignores: Seq<IgnoreDeclaration>,
) -> Declared {
    Declared {
        entries: entry_views(entries),
        mission: option_view(mission),
        system: option_view(system),
        process: option_view(process),
        knowledge: memory_views(knowledge),
        profile: match profile {
            Some((p, s)) => Some((p@, s)),
            None => None,
        },
        voice,
        ignores: decl_views(ignores),
    }
}

pub proof fn lemma_lex_ends(chars: Seq<char>, i: int)
    ensures
        lex_from(chars, i) matches Ok(ts) ==> ends_with_eof(ts),
    decreases chars.len() - i,
{
    let j = crate::syntax::skip_blank(chars, i);
    if !(j < 0 || j >= chars.len()) {
        match crate::syntax::token_at(chars, j) {
            None => {},
            Some((kind, next)) => {
                if j < next <= chars.len() && i <= j {
                    lemma_lex_ends(chars, next);
                    match lex_from(chars, next) {
                        Ok(rest) => {
                            let first = TokenView { kind, span: crate::syntax::span_of(chars, j, next) };
                            assert((seq![first] + rest).last() == rest.last());
                        },
                        Err(_) => {},
                    }
                }
            },
        }
    }
}

proof fn lemma_profile_fields_advance(ts: Seq<TokenView>, p: int, acc: Fields)
    ensures
        profile_fields_spec(ts, p, acc) matches Ok((_, _, next)) ==> p < next,
    decreases ts.len() - p,
{
    let t = token(ts, p);
    match t.kind {
        KindView::Identifier(field) => {
            let value = if field == "command"@ || field == "prepare"@ {
                match command_list_spec(ts, p + 1, t.span) {
                    Ok((values, next)) => Ok(
                        if field == "command"@ {
                            (Fields { command: Some(values), ..acc }, acc.command is Some, next)
                        } else {
                            (Fields { prepare: Some(values), ..acc }, acc.prepare is Some, next)
                        },
                    ),
                    Err(f) => Err(f),
                }
            } else {
                match numeric_bounds(field) {
                    Some((min, max)) => match integer_spec(ts, p + 1, field, min, max) {
                        Ok((v, next)) => {
                            let (fields, repeated) = set_number(acc, field, v);
                            Ok((fields, repeated, next))
                        },
                        Err(f) => Err(f),
                    },
                    None => Err(fail(t.span, Seq::empty(), Seq::empty())),
                }
            };
            match value {
                Ok((fields, repeated, next)) => {
                    if !repeated && p < next <= ts.len() && 0 <= p {
                        lemma_profile_fields_advance(ts, next, fields);
                    }
                },
                Err(_) => {},
            }
        },
        _ => {},
    }
}

proof fn lemma_statement_advances(ts: Seq<TokenView>, p: int, root: Seq<char>)
    requires
        0 <= p,
    ensures
        statement_spec(ts, p, root) matches Ok((_, next)) ==> p < next,
{
    lemma_profile_fields_advance(ts, p + 3, no_fields());
    lemma_profile_fields_advance(ts, p + 4, no_fields());
}

/// Whether `d` repeats an ignore declaration of `ignores`.
fn ignore_seen(ignores: &Vec<IgnoreDeclaration>, d: &IgnoreDeclaration) -> (b: bool)
    ensures
        b == exists|i: int|
            0 <= i < ignores@.len() && decl_is_list(
                #[trigger] decl_views(ignores@)[i],
            ) == decl_is_list(d@) && decl_written(decl_views(ignores@)[i])
                == decl_written(d@),
{
    let ghost all = decl_views(ignores@);
    let mut k: usize = 0;
    while k < ignores.len()
        invariant
            k <= ignores.len(),
            all == decl_views(ignores@),
            forall|i: int|
                0 <= i < k ==> !(decl_is_list(#[trigger] all[i]) == decl_is_list(d@)
                    && decl_written(all[i]) == decl_written(d@)),
        decreases ignores.len() - k,
    {
        let seen = &ignores[k];
        assert(all[k as int] == seen@);
        if seen.is_list() == d.is_list() && str_eq(seen.written(), d.written()) {
            return true;
        }
        k += 1;
    }
    false
}

/// Whether a knowledge file of `knowledge` stands at the place of `e`.
fn knowledge_seen(knowledge: &Vec<MemoryEntry>, e: &MemoryEntry) -> (b: bool)
    ensures
        b == exists|i: int|
            0 <= i < knowledge@.len() && normal_form(
                (#[trigger] memory_views(knowledge@)[i]).path,
            ) == normal_form(e@.path),
{
    let ghost all = memory_views(knowledge@);
    let mut k: usize = 0;
    while k < knowledge.len()
        invariant
            k <= knowledge.len(),
            all == memory_views(knowledge@),
            forall|i: int| 0 <= i < k ==> normal_form((#[trigger] all[i]).path) != normal_form(e@.path),
        decreases knowledge.len() - k,
    {
        let seen = &knowledge[k];
        assert(all[k as int] == seen@);
        if same_place(seen.path.as_str(), e.path.as_str()) {
            return true;
        }
        k += 1;
    }
    false
}

/// Whether a contract of `entries` stands at the place of `e`.
fn path_used(entries: &Vec<Entry>, e: &Entry) -> (b: bool)
    ensures
        b == exists|i: int|
            0 <= i < entries@.len() && normal_form(
                (#[trigger] entry_views(entries@)[i]).path,
            ) == normal_form(e@.path),
{
    let ghost all = entry_views(entries@);
    let mut k: usize = 0;
    while k < entries.len()
        invariant
            k <= entries.len(),
            all == entry_views(entries@),
            forall|i: int| 0 <= i < k ==> normal_form((#[trigger] all[i]).path) != normal_form(e@.path),
        decreases entries.len() - k,
    {
        let seen = &entries[k];
        assert(all[k as int] == seen@);
        if same_place(seen.path.as_str(), e.path.as_str()) {
            return true;
        }
        k += 1;
    }
    false
}

/// Whether a contract of `entries` has the group of `e`.
fn group_used(entries: &Vec<Entry>, e: &Entry) -> (b: bool)
    ensures
        b == exists|i: int|
            0 <= i < entries@.len() && (#[trigger] entry_views(entries@)[i]).group
                == e@.group,
{
    let ghost all = entry_views(entries@);
    let mut k: usize = 0;
    while k < entries.len()
        invariant
            k <= entries.len(),
            all == entry_views(entries@),
            forall|i: int| 0 <= i < k ==> (#[trigger] all[i]).group != e@.group,
        decreases entries.len() - k,
    {
        let seen = &entries[k];
        assert(all[k as int] == seen@);
        if str_eq(seen.group.as_str(), e.group.as_str()) {
            return true;
        }
        k += 1;
    }
    false
}

fn reserved_group_text(g: &str) -> (b: bool)
    ensures
        b == reserved_group(g@),
{
    str_eq(g, "contract") || str_eq(g, "mission") || str_eq(g, "priority") || str_eq(g, "knowledge")
        || str_eq(g, "ruling") || str_eq(g, "system") || str_eq(g, "responsibility") || str_eq(
        g,
        "seam",
    ) || str_eq(g, "role") || str_eq(g, "policy") || str_eq(g, "flow") || str_eq(g, "step")
        || str_eq(g, "runtime") || str_eq(g, "task")
}

/// Reads the manifest at `path` from its text.
pub fn parse_manifest(path: &str, source: &str) -> (r: Result<Manifest, Diagnostic>)
    requires
        source@.len() < usize::MAX,
    ensures
        match lex_from(source@, 0) {
            Err(at) => r matches Err(d) && crate::syntax::unterminated(path@, source@, at, d),
            Ok(ts) => match manifest_spec(path@, source@, ts) {
                Ok(m) => r matches Ok(x) && x@ == m,
                Err(f) => r matches Err(d) && reports(d, path@, f),
            },
        },
{
    let root = root_of_text(path);
    let tokens = match crate::syntax::lex(path, source) {
        Ok(t) => t,
        Err(d) => {
            return Err(d);
        },
    };
    proof {
        lemma_lex_ends(source@, 0);
    }
    let mut parser = ManifestParser { file: path, tokens: &tokens, position: 0 };
    let name = match parser.header() {
        Ok(n) => n,
        Err(d) => {
            return Err(d);
        },
    };
    let ghost ts = parser.tv();
    let ghost start = parser.position as int;
    let mut entries: Vec<Entry> = Vec::new();
    let mut mission: Option<MemoryEntry> = None;
    let mut system: Option<MemoryEntry> = None;
    let mut process: Option<MemoryEntry> = None;
    let mut knowledge: Vec<MemoryEntry> = Vec::new();
    let mut profile: Option<(Profile, Span)> = None;
    let mut voice: Option<Voice> = None;
    let mut ignores: Vec<IgnoreDeclaration> = Vec::new();
    assert(declared_of(entries@, mission, system, process, knowledge@, profile, voice, ignores@)
        =~= nothing_declared()) by {
        assert(entry_views(entries@) =~= Seq::<EntryView>::empty());
        assert(memory_views(knowledge@) =~= Seq::<MemoryView>::empty());
        assert(decl_views(ignores@) =~= Seq::<IgnoreDeclView>::empty());
    }
    while !parser.at_end()
        invariant
            parser.ready(),
            parser.file@ == path@,
            parser.tv() == ts,
            root@ == root_of(path@),
            header_spec(ts) == Ok::<(Seq<char>, int), Failure>((name@, start)),
            lex_from(source@, 0) == Ok::<Seq<TokenView>, int>(ts),
            statements_spec(
                ts,
                parser.position as int,
                root@,
                declared_of(entries@, mission, system, process, knowledge@, profile, voice, ignores@),
            ) == statements_spec(ts, start, root@, nothing_declared()),
        decreases parser.tokens.len() - parser.position,
    {
        let ghost p = parser.position as int;
        let ghost acc = declared_of(entries@, mission, system, process, knowledge@, profile, voice, ignores@);
        proof {
            lemma_statement_advances(ts, p, root@);
        }
        let st = match parser.statement(root.as_str()) {
            Ok(s) => s,
            Err(d) => {
                return Err(d);
            },
        };
        match st {
            Statement::Ignore(d) => {
                if ignore_seen(&ignores, &d) {
                    let mut m = joined("'", d.written());
                    append(&mut m, "' is declared by `ignore` more than once");
                    return Err(parser.error(d.span(), "E_DUPLICATE_IGNORE", m));
                }
                ignores.push(d);
                assert(decl_views(ignores@) =~= acc.ignores.push(d@));
            },
            Statement::Mission(e) => {
                if mission.is_some() {
                    return Err(parser.error(e.span, "E_DUPLICATE_MISSION", "the manifest registers more than one mission memory file; a project states one mission".to_owned()));
                }
                mission = Some(e);
            },
            Statement::Knowledge(e) => {
                if knowledge_seen(&knowledge, &e) {
                    let mut m = joined("knowledge memory '", e.display.as_str());
                    append(&mut m, "' is registered more than once");
                    return Err(parser.error(e.span, "E_DUPLICATE_KNOWLEDGE", m));
                }
                knowledge.push(e);
                assert(memory_views(knowledge@) =~= acc.knowledge.push(e@));
            },
            Statement::System(e) => {
                if system.is_some() {
                    return Err(parser.error(e.span, "E_DUPLICATE_SYSTEM", "the manifest registers more than one system memory file; a project has at most one".to_owned()));
                }
                system = Some(e);
            },
            Statement::Process(e) => {
                if process.is_some() {
                    return Err(parser.error(e.span, "E_DUPLICATE_PROCESS", "the manifest registers more than one process memory file; a project has at most one".to_owned()));
                }
                process = Some(e);
            },
            Statement::Tone(v, span) => {
                if voice.is_some() {
                    return Err(parser.error(span, "E_DUPLICATE_VOICE", "the manifest declares more than one `voice`; a project has at most one".to_owned()));
                }
                voice = Some(v);
            },
            Statement::Profile(parsed, span) => {
                if profile.is_some() {
                    return Err(parser.error(span, "E_DUPLICATE_PROFILE", "the manifest declares more than one `verify behavior` profile; a project has exactly one canonical verification".to_owned()));
                }
                profile = Some((parsed, span));
            },
            Statement::Entry(e) => {
                if path_used(&entries, &e) {
                    let mut m = joined("contract '", e.display.as_str());
                    append(&mut m, "' is referenced more than once");
                    return Err(parser.error(e.span, "E_DUPLICATE_USE", m));
                }
                if reserved_group_text(e.group.as_str()) {
                    let mut m = joined("group '", e.group.as_str());
                    append(&mut m, "' is reserved because '");
                    append(&mut m, e.group.as_str());
                    append(&mut m, "::' names a canonical identity kind; add `as <name>` to give this contract another group");
                    return Err(parser.error(e.span, "E_RESERVED_GROUP", m));
                }
                if group_used(&entries, &e) {
                    let mut m = joined("group '", e.group.as_str());
                    append(&mut m, "' is used by more than one contract; add `as <name>` to one of them");
                    return Err(parser.error(e.span, "E_DUPLICATE_GROUP", m));
                }
                entries.push(e);
                assert(entry_views(entries@) =~= acc.entries.push(e@));
            },
        }
    }
    let (profile, profile_span) = match profile {
        Some((p, s)) => (Some(p), Some(s)),
        None => (None, None),
    };
    Ok(
        Manifest {
            name,
            path: path.to_owned(),
            root,
            source: source.to_owned(),
            entries,
            mission,
            system,
            process,
            knowledge,
            profile,
            profile_span,
            voice: match voice {
                Some(v) => v,
                None => Voice::default_voice(),
            },
            ignores,
        },
    )
}

// ---------------------------------------------------------------------------------------
// Content digests.
// ---------------------------------------------------------------------------------------

pub const FNV_OFFSET: u64 = 0xcbf2_9ce4_8422_2325;

pub const FNV_PRIME: u64 = 0x0000_0100_0000_01b3;

/// One byte folded into an FNV-1a state.
pub open spec fn fnv_step(h: u64, b: u8) -> u64 {
    (((h ^ (b as u64)) as nat * FNV_PRIME as nat) % 0x1_0000_0000_0000_0000) as u64
}

/// The bytes folded, in order, into an FNV-1a state.
pub open spec fn fnv_fold(h: u64, bytes: Seq<u8>) -> u64
    decreases bytes.len(),
{
    if bytes.len() == 0 {
        h
    } else {
        fnv_step(fnv_fold(h, bytes.drop_last()), bytes.last())
    }
}

/// A text folded into an FNV-1a state: its UTF-8 bytes, then a zero byte that ends it.
pub open spec fn fnv_text(h: u64, text: Seq<char>) -> u64 {
    fnv_fold(fnv_fold(h, vstd::utf8::encode_utf8(text)), seq![0u8])
}

/// Hashing is incremental: folding `a` and then `b` into a state gives what folding `a`
/// followed by `b` gives at once.
pub proof fn law_fnv_folds_in_pieces(h: u64, a: Seq<u8>, b: Seq<u8>)
    ensures
        fnv_fold(fnv_fold(h, a), b) == fnv_fold(h, a + b),
    decreases b.len(),
{
    if b.len() == 0 {
        assert(a + b =~= a);
    } else {
        law_fnv_folds_in_pieces(h, a, b.drop_last());
        assert((a + b).drop_last() =~= a + b.drop_last());
        assert((a + b).last() == b.last());
    }
}

/// A hasher that has seen nothing finishes as the FNV-1a offset basis, `cbf29ce484222325`.
pub proof fn law_fnv_starts_at_the_offset_basis()
    ensures
        hex_fixed(FNV_OFFSET as nat, 16) == "cbf29ce484222325"@,
{
    reveal_strlit("cbf29ce484222325");
    reveal_with_fuel(hex_fixed, 17);
    reveal_with_fuel(crate::text::hex_digit, 1);
    assert(hex_fixed(FNV_OFFSET as nat, 16) =~= "cbf29ce484222325"@);
}

/// A 64-bit FNV-1a hasher.
pub struct Fnv(u64);

impl View for Fnv {
    type V = u64;

    closed spec fn view(&self) -> u64 {
        self.0
    }
}

impl Fnv {
    /// A hasher that has seen nothing.
    pub fn new() -> (f: Fnv)
        ensures
            f@ == FNV_OFFSET,
    {
        Fnv(FNV_OFFSET)
    }

    /// Folds `bytes` into the state.
    pub fn write(&mut self, bytes: &[u8])
        ensures
            final(self)@ == fnv_fold(old(self)@, bytes@),
    {
        let mut i: usize = 0;
        assert(bytes@.take(0) =~= Seq::<u8>::empty());
        while i < bytes.len()
            invariant
                i <= bytes.len(),
                self@ == fnv_fold(old(self)@, bytes@.take(i as int)),
            decreases bytes.len() - i,
        {
            assert(bytes@.take(i + 1).drop_last() =~= bytes@.take(i as int));
            let x = self.0 ^ (bytes[i] as u64);
            self.0 = x.wrapping_mul(FNV_PRIME);
            i += 1;
        }
        assert(bytes@.take(bytes@.len() as int) =~= bytes@);
    }

    /// Folds the UTF-8 bytes of `text` into the state, then a zero byte that ends it.
    pub fn write_str(&mut self, text: &str)
        ensures
            final(self)@ == fnv_text(old(self)@, text@),
    {
        let bytes = text.as_bytes_vec();
        self.write(bytes.as_slice());
        let zero: Vec<u8> = vec![0u8];
        assert(zero@ =~= seq![0u8]);
        self.write(zero.as_slice());
    }

    /// The state as sixteen lowercase hexadecimal digits.
    pub fn finish(&self) -> (s: String)
        ensures
            s@ == hex_fixed(self@ as nat, 16),
    {
        crate::text::hex_text(self.0, 16)
    }
}

/// The nearest manifest: the first of `candidates` (the manifest path in the starting
/// directory, then in each parent in turn, with whether a file is there) that exists.
pub fn discover(candidates: &Vec<(String, bool)>) -> (r: Option<String>)
    ensures
        r matches Some(p) ==> exists|i: int|
            0 <= i < candidates@.len() && (#[trigger] candidates@[i]).1 && candidates@[i].0@ == p@ && forall|j: int|
                0 <= j < i ==> !(#[trigger] candidates@[j]).1,
        r is None ==> forall|i: int| 0 <= i < candidates@.len() ==> !(#[trigger] candidates@[i]).1,
{
    let mut i: usize = 0;
    while i < candidates.len()
        invariant
            i <= candidates.len(),
            forall|j: int| 0 <= j < i ==> !(#[trigger] candidates@[j]).1,
        decreases candidates.len() - i,
    {
        if candidates[i].1 {
            let found = candidates[i].0.clone();
            assert(candidates@[i as int].0@ == found@);
            return Some(found);
        }
        i += 1;
    }
    None
}

/// What is at the place that a `--project` argument names.
pub enum Place {
    Directory { manifest: bool },
    File,
    Nothing,
}

/// The refusal of a place where no project is found.
pub open spec fn no_project_spec(d: Diagnostic, path: Seq<char>, message: Seq<char>) -> bool {
    &&& d.location.file@ == path
    &&& d.location.line == 1
    &&& d.location.column == 1
    &&& d.code@ == "E_NO_PROJECT"@
    &&& d.message@ == message
}

fn no_project(path: &str, message: String) -> (d: Diagnostic)
    ensures
        no_project_spec(d, path@, message@),
{
    Diagnostic::new(path, Span { start: 0, end: 0, line: 1, column: 1 }, "E_NO_PROJECT", message)
}

/// The manifest a command works on: the one that `--project` names (`explicit`: the place it
/// resolves to against the working directory, and what is there), else the one found by
/// discovery from the working directory.
pub fn locate(explicit: Option<(String, Place)>, cwd: &str, discovered: Option<String>) -> (r: Result<
    String,
    Diagnostic,
>)
    ensures
        match explicit {
            Some((absolute, Place::Directory { manifest: true })) => r matches Ok(p) && p@ == join_path(
                absolute@,
                "project.bla"@,
            ),
            Some((absolute, Place::Directory { manifest: false })) => r matches Err(d) && no_project_spec(
                d,
                absolute@,
                "no project.bla in "@ + absolute@,
            ),
            Some((absolute, Place::File)) => r matches Ok(p) && p@ == absolute@,
            Some((absolute, Place::Nothing)) => r matches Err(d) && no_project_spec(
                d,
                absolute@,
                "project manifest "@ + absolute@ + " does not exist"@,
            ),
            None => match discovered {
                Some(p) => r == Ok::<String, Diagnostic>(p),
                None => r matches Err(d) && no_project_spec(
                    d,
                    cwd@,
                    "no project.bla found in "@ + cwd@
                        + " or its parent directories; run `blabla init` here or pass a contract file"@,
                ),
            },
        },
{
    match explicit {
        Some((absolute, place)) => match place {
            Place::Directory { manifest } => {
                if manifest {
                    Ok(join_path_text(absolute.as_str(), "project.bla"))
                } else {
                    let m = joined("no project.bla in ", absolute.as_str());
                    Err(no_project(absolute.as_str(), m))
                }
            },
            Place::File => Ok(absolute),
            Place::Nothing => {
                let mut m = joined("project manifest ", absolute.as_str());
                append(&mut m, " does not exist");
                Err(no_project(absolute.as_str(), m))
            },
        },
        None => match discovered {
            Some(p) => Ok(p),
            None => {
                let mut m = joined("no project.bla found in ", cwd);
                append(&mut m, " or its parent directories; run `blabla init` here or pass a contract file");
                Err(no_project(cwd, m))
            },
        },
    }
}

/// How many identities a refusal offers before it counts the rest.
pub const OFFERED: usize = 6;

/// The commands a refusal offers for `ids`: the first few as `blabla explain <id>`, ` | `
/// between each two, then how many more there are.
pub open spec fn offer_spec(ids: Seq<Seq<char>>) -> Seq<char> {
    let shown = join(
        ids.take(if ids.len() < OFFERED { ids.len() as int } else { OFFERED as int }).map_values(
            |id: Seq<char>| "blabla explain "@ + id,
        ),
        " | "@,
    );
    if ids.len() > OFFERED {
        shown + " ("@ + decimal((ids.len() - OFFERED) as nat) + " more)"@
    } else {
        shown
    }
}

/// The commands a refusal offers for `ids`.
pub fn offer(ids: &Vec<String>) -> (s: String)
    ensures
        s@ == offer_spec(strings_view(ids@)),
{
    let ghost views = strings_view(ids@);
    let n: usize = if ids.len() < OFFERED { ids.len() } else { OFFERED };
    let mut shown: Vec<String> = Vec::new();
    let mut i: usize = 0;
    while i < n
        invariant
            i <= n <= ids.len(),
            n == (if ids.len() < OFFERED { ids.len() } else { OFFERED }),
            views == strings_view(ids@),
            shown@.len() == i,
            forall|j: int| 0 <= j < i ==> (#[trigger] shown@[j])@ == "blabla explain "@ + ids@[j]@,
        decreases n - i,
    {
        shown.push(joined("blabla explain ", ids[i].as_str()));
        i += 1;
    }
    assert(strings_view(shown@) =~= views.take(n as int).map_values(|id: Seq<char>| "blabla explain "@ + id));
    let mut out = join_strings(&shown, " | ");
    if ids.len() > OFFERED {
        append(&mut out, " (");
        append(&mut out, decimal_text((ids.len() - OFFERED) as u64).as_str());
        append(&mut out, " more)");
    }
    out
}

/// The refusal of a query that names nothing in the project.
pub open spec fn unknown_identity_message(query: Seq<char>, project: Seq<char>) -> Seq<char> {
    "no object matches '"@ + query + "' in project "@ + project
        + "; blabla status lists every contract::<group>, mission::<name>, knowledge::<pack>, system::<name> and role::<name> this project has"@
}

/// The refusal of a query that names more than one entry of project memory.
pub open spec fn memory_collision_message(query: Seq<char>, names: Seq<Seq<char>>) -> Seq<char> {
    "'"@ + query + "' is not a canonical identity and names "@ + decimal(names.len())
        + " objects in project memory; run one of: "@ + offer_spec(names)
}

/// A refusal placed at the head of the manifest.
pub open spec fn manifest_refusal(d: Diagnostic, manifest: Seq<char>, code: Seq<char>, message: Seq<char>) -> bool {
    &&& d.location.file@ == manifest
    &&& d.location.line == 1
    &&& d.location.column == 1
    &&& d.code@ == code
    &&& d.message@ == message
}

/// What a query resolves to when no rule, contract or action of the project matches it:
/// the one entry of project memory that `names` holds (the canonical identities that each
/// memory gives for the query), or the refusal that none or several match.
pub fn resolve_memory(manifest: &str, project: &str, query: &str, names: &Vec<String>) -> (r: Result<
    String,
    Diagnostic,
>)
    ensures
        names@.len() == 0 ==> (r matches Err(d) && manifest_refusal(
            d,
            manifest@,
            "E_UNKNOWN_RULE"@,
            unknown_identity_message(query@, project@),
        )),
        names@.len() > 1 ==> (r matches Err(d) && manifest_refusal(
            d,
            manifest@,
            "E_AMBIGUOUS_IDENTITY"@,
            memory_collision_message(query@, strings_view(names@)),
        )),
        names@.len() == 1 ==> (r matches Ok(id) && id@ == names@[0]@),
{
    let head = Span { start: 0, end: 0, line: 1, column: 1 };
    if names.len() == 0 {
        let mut m = joined("no object matches '", query);
        append(&mut m, "' in project ");
        append(&mut m, project);
        append(
            &mut m,
            "; blabla status lists every contract::<group>, mission::<name>, knowledge::<pack>, system::<name> and role::<name> this project has",
        );
        return Err(Diagnostic::new(manifest, head, "E_UNKNOWN_RULE", m));
    }
    if names.len() > 1 {
        let mut m = joined("'", query);
        append(&mut m, "' is not a canonical identity and names ");
        append(&mut m, decimal_text(names.len() as u64).as_str());
        append(&mut m, " objects in project memory; run one of: ");
        append(&mut m, offer(names).as_str());
        return Err(Diagnostic::new(manifest, head, "E_AMBIGUOUS_IDENTITY", m));
    }
    Ok(names[0].clone())
}

// ---------------------------------------------------------------------------------------
// The application command of a profile.
// ---------------------------------------------------------------------------------------

/// The lexical normal form of a path, written out: `/` first when it is absolute, then its
/// components with `/` between each two (`PathBuf` built from `Path::components`).
pub open spec fn normal_text(path: Seq<char>) -> Seq<char> {
    (if normal_form(path).0 {
        seq!['/']
    } else {
        Seq::empty()
    }) + join(normal_form(path).1, seq!['/'])
}

/// The lexical normal form of a path, written out.
pub fn normalize_text(path: &str) -> (s: String)
    ensures
        s@ == normal_text(path@),
{
    let (absolute, pieces) = normal_form_of(path);
    let body = crate::text::join_chars(&pieces, '/');
    let mut out: Vec<char> = Vec::new();
    if absolute {
        out.push('/');
    }
    let mut i: usize = 0;
    let ghost head = out@;
    while i < body.len()
        invariant
            i <= body.len(),
            out@ == head + body@.take(i as int),
        decreases body.len() - i,
    {
        out.push(body[i]);
        assert(body@.take(i + 1) =~= body@.take(i as int).push(body@[i as int]));
        assert(out@ =~= head + body@.take(i + 1));
        i += 1;
    }
    assert(body@.take(body@.len() as int) =~= body@);
    assert(out@ =~= normal_text(path@));
    crate::text::string_of(out.as_slice())
}

/// The path a command element names: as written when it is absolute, else resolved against
/// `base` and put in normal form.
pub open spec fn command_candidate_spec(element: Seq<char>, base: Seq<char>) -> Seq<char> {
    if element.len() > 0 && element[0] == '/' {
        element
    } else {
        normal_text(join_path(base, element))
    }
}

/// The path a command element names, before anything on disk is consulted.
pub fn command_candidate(element: &str, base: &str) -> (p: String)
    ensures
        p@ == command_candidate_spec(element@, base@),
{
    let cs = crate::text::chars_of(element);
    if cs.len() > 0 && cs[0] == '/' {
        element.to_owned()
    } else {
        normalize_text(join_path_text(base, element).as_str())
    }
}

/// What is on disk for one command element, as the caller finds it: whether `base` joined
/// with the element is a file, whether the element's candidate path exists, and the
/// executable form of the candidate (the candidate with the platform's executable suffix)
/// when the candidate does not exist and that form does.
pub struct Probe {
    pub file_in_base: bool,
    pub candidate_exists: bool,
    pub executable: Option<String>,
}

/// The application command, resolved: the program, its arguments, and the command as the
/// profile wrote it.
#[derive(Clone, Debug)]
pub struct ResolvedCommand {
    pub program: String,
    pub args: Vec<String>,
    pub written: Vec<String>,
}

/// Whether a command element names a path rather than a literal: it is not an option and it
/// has a separator or names a file in `base`.
pub open spec fn path_like(element: Seq<char>, file_in_base: bool) -> bool {
    !(element.len() > 0 && element[0] == '-') && (element.contains('/') || element.contains('\\')
        || file_in_base)
}

/// What one command element resolves to: itself when it is a literal; the existing path it
/// names; or, as an error, the path that does not exist.
pub open spec fn resolved_element(element: Seq<char>, base: Seq<char>, probe: Probe) -> Result<Seq<char>, Seq<char>> {
    if !path_like(element, probe.file_in_base) {
        Ok(element)
    } else if probe.candidate_exists {
        Ok(command_candidate_spec(element, base))
    } else {
        match probe.executable {
            Some(found) => Ok(found@),
            None => Err(command_candidate_spec(element, base)),
        }
    }
}

/// The elements of `written[..n]` resolved, or the first that names a missing path, with it.
pub open spec fn resolved_elements(written: Seq<Seq<char>>, base: Seq<char>, probes: Seq<Probe>, n: int) -> Result<
    Seq<Seq<char>>,
    (int, Seq<char>),
>
    decreases n,
{
    if n <= 0 {
        Ok(Seq::empty())
    } else {
        match resolved_elements(written, base, probes, n - 1) {
            Err(e) => Err(e),
            Ok(done) => match resolved_element(written[n - 1], base, probes[n - 1]) {
                Ok(r) => Ok(done.push(r)),
                Err(missing) => Err((n - 1, missing)),
            },
        }
    }
}

/// The refusal of a command element that names a path that does not exist.
pub open spec fn missing_path_message(element: Seq<char>, missing: Seq<char>, base: Seq<char>) -> Seq<char> {
    "command element '"@ + element + "' resolves to "@ + missing + ", which does not exist; relative paths resolve against "@
        + base
}

fn contains_char_text(s: &str, c: char) -> (b: bool)
    ensures
        b == s@.contains(c),
{
    let cs = crate::text::chars_of(s);
    crate::text::contains_char(&cs, c)
}

proof fn lemma_missing_persists(written: Seq<Seq<char>>, base: Seq<char>, probes: Seq<Probe>, i: int, n: int)
    requires
        0 <= i < n,
        resolved_elements(written, base, probes, i + 1) matches Err(e) && e.0 == i,
    ensures
        resolved_elements(written, base, probes, n) == resolved_elements(written, base, probes, i + 1),
    decreases n - i,
{
    if n > i + 1 {
        lemma_missing_persists(written, base, probes, i, n - 1);
    }
}

fn copy_strings(v: &Vec<String>, from: usize) -> (out: Vec<String>)
    requires
        from <= v@.len(),
    ensures
        strings_view(out@) == strings_view(v@).subrange(from as int, v@.len() as int),
{
    let mut out: Vec<String> = Vec::new();
    let mut k: usize = from;
    while k < v.len()
        invariant
            from <= k <= v.len(),
            out@.len() == k - from,
            forall|j: int| 0 <= j < out@.len() ==> (#[trigger] out@[j])@ == v@[from + j]@,
        decreases v.len() - k,
    {
        out.push(v[k].as_str().to_owned());
        k += 1;
    }
    assert(strings_view(out@) =~= strings_view(v@).subrange(from as int, v@.len() as int));
    out
}

/// Resolves the application command `written` against `base`, the directory of the manifest
/// `file` that declares it at `span`; `probes` says what is on disk for each element.
pub fn resolve_command(written: &Vec<String>, base: &str, file: &str, span: Span, probes: &Vec<Probe>) -> (r: Result<
    ResolvedCommand,
    Diagnostic,
>)
    requires
        probes@.len() == written@.len(),
    ensures
        match resolved_elements(strings_view(written@), base@, probes@, written@.len() as int) {
            Err((i, missing)) => r matches Err(d) && d.location.file@ == file@ && d.location.line == span.line
                && d.location.column == span.column && d.code@ == "E_APPLICATION_PATH"@ && d.message@
                == missing_path_message(written@[i]@, missing, base@),
            Ok(elements) => if elements.len() == 0 {
                r matches Err(d) && d.location.file@ == file@ && d.location.line == span.line && d.location.column
                    == span.column && d.code@ == "E_PROFILE_COMMAND"@ && d.message@
                    == "the application command is empty"@
            } else {
                r matches Ok(c) && c.program@ == elements[0] && strings_view(c.args@) == elements.drop_first()
                    && strings_view(c.written@) == strings_view(written@)
            },
        },
{
    let ghost ws = strings_view(written@);
    let mut resolved: Vec<String> = Vec::new();
    let mut i: usize = 0;
    assert(strings_view(resolved@) =~= Seq::<Seq<char>>::empty());
    while i < written.len()
        invariant
            i <= written.len(),
            resolved@.len() == i,
            probes@.len() == written@.len(),
            ws == strings_view(written@),
            resolved_elements(ws, base@, probes@, i as int) == Ok::<Seq<Seq<char>>, (int, Seq<char>)>(
                strings_view(resolved@),
            ),
        decreases written.len() - i,
    {
        let element = written[i].as_str();
        let probe = &probes[i];
        assert(ws[i as int] == element@);
        let cs = crate::text::chars_of(element);
        let dash = cs.len() > 0 && cs[0] == '-';
        let like = !dash && (contains_char_text(element, '/') || contains_char_text(element, '\\')
            || probe.file_in_base);
        assert(like == path_like(element@, probe.file_in_base));
        let ghost before = strings_view(resolved@);
        let next: String = if !like {
            element.to_owned()
        } else if probe.candidate_exists {
            command_candidate(element, base)
        } else {
            match &probe.executable {
                Some(found) => found.as_str().to_owned(),
                None => {
                    let missing = command_candidate(element, base);
                    let mut m = joined("command element '", element);
                    append(&mut m, "' resolves to ");
                    append(&mut m, missing.as_str());
                    append(&mut m, ", which does not exist; relative paths resolve against ");
                    append(&mut m, base);
                    proof {
                        assert(resolved_elements(ws, base@, probes@, i + 1) == Err::<Seq<Seq<char>>, (int, Seq<char>)>(
                            (i as int, missing@),
                        ));
                        lemma_missing_persists(ws, base@, probes@, i as int, written@.len() as int);
                    }
                    return Err(Diagnostic::new(file, span, "E_APPLICATION_PATH", m));
                },
            }
        };
        assert(resolved_element(element@, base@, probes@[i as int]) == Ok::<Seq<char>, Seq<char>>(next@));
        resolved.push(next);
        assert(strings_view(resolved@) =~= before.push(resolved@[i as int]@));
        i += 1;
    }
    if resolved.len() == 0 {
        return Err(Diagnostic::new(file, span, "E_PROFILE_COMMAND", "the application command is empty".to_owned()));
    }
    let program = resolved[0].as_str().to_owned();
    let args = copy_strings(&resolved, 1);
    assert(strings_view(resolved@).drop_first() =~= strings_view(resolved@).subrange(1, resolved@.len() as int));
    let copy = copy_strings(written, 0);
    assert(strings_view(written@).subrange(0, written@.len() as int) =~= strings_view(written@));
    Ok(ResolvedCommand { program, args, written: copy })
}

/// Where a launch refusal points when the manifest gives no place for its profile.
pub open spec fn profile_place(m: Manifest) -> Span {
    match m.profile_span {
        Some(span) => span,
        None => Span { start: 0, end: 0, line: 1, column: 1 },
    }
}

impl Manifest {
    /// The application command of the verification profile, resolved against the manifest's
    /// directory (`probes` says what is on disk for each element); `None` when the manifest
    /// declares no profile.
    pub fn launch(&self, probes: &Vec<Probe>) -> (r: Result<Option<ResolvedCommand>, Diagnostic>)
        requires
            self.profile matches Some(p) ==> probes@.len() == p.command@.len(),
        ensures
            match self.profile {
                None => r matches Ok(None),
                Some(p) => match resolved_elements(strings_view(p.command@), self.root@, probes@, p.command@.len() as int) {
                    Err((i, missing)) => r matches Err(d) && d.location.file@ == self.path@ && d.location.line
                        == profile_place(*self).line && d.location.column == profile_place(*self).column
                        && d.code@ == "E_APPLICATION_PATH"@ && d.message@ == missing_path_message(
                        p.command@[i]@,
                        missing,
                        self.root@,
                    ),
                    Ok(elements) => if elements.len() == 0 {
                        r matches Err(d) && d.location.file@ == self.path@ && d.code@ == "E_PROFILE_COMMAND"@
                    } else {
                        r matches Ok(Some(c)) && c.program@ == elements[0] && strings_view(c.args@)
                            == elements.drop_first() && strings_view(c.written@) == strings_view(p.command@)
                    },
                },
            },
    {
        let profile = match &self.profile {
            None => {
                return Ok(None);
            },
            Some(p) => p,
        };
        let span = match self.profile_span {
            Some(span) => span,
            None => Span { start: 0, end: 0, line: 1, column: 1 },
        };
        match resolve_command(&profile.command, self.root.as_str(), self.path.as_str(), span, probes) {
            Ok(c) => Ok(Some(c)),
            Err(d) => Err(d),
        }
    }
}

} // verus!
