pub mod finish;
pub mod guide;
pub mod heartbeat;
pub mod init;
pub mod project;
pub mod run;
pub mod task;

use vstd::prelude::*;
use crate::diagnostic::Diagnostic;
use crate::memory::knowledge::{self, knowledge_built, knowledge_problems};
use crate::memory::mission::{self, mission_built, mission_problems};
use crate::memory::process::{self, process_built, process_problems};
use crate::memory::says;
use crate::memory::syntax::{Block, BlockView, block_views, blocks_spec, parse, texts};
use crate::memory::system::{self, system_built, system_problems};
use crate::project::reports;
use crate::syntax::{lex_from, unterminated};
use crate::text::{append, decimal, decimal_text, str_eq};

verus! {

/// A refusal as a command reports it: its category, its message, the seed of the run it
/// stopped where there was one, the diagnostic behind it, and whether it leaves completion
/// blocked.
#[derive(Clone, Debug)]
pub struct ErrorReport {
    pub status: &'static str,
    pub category: &'static str,
    pub message: String,
    pub code: Option<String>,
    pub seed: Option<u64>,
    pub completion: Option<&'static str>,
    pub diagnostic: Option<Diagnostic>,
}

/// A refusal of the given category, with nothing more to it.
pub fn error(category: &'static str, message: String, seed: Option<u64>) -> (e: ErrorReport)
    ensures
        e.status@ == "error"@,
        e.category == category,
        e.message@ == message@,
        e.code is None,
        e.seed == seed,
        e.completion is None,
        e.diagnostic is None,
{
    ErrorReport { status: "error", category, message, code: None, seed, completion: None, diagnostic: None }
}

/// The refusal a contract or memory file's diagnostic becomes, and the exit status it gives.
pub fn contract_error(diagnostic: Diagnostic, seed: Option<u64>) -> (r: (ErrorReport, i32))
    ensures
        r.0.status@ == "error"@,
        r.0.category@ == "contract"@,
        r.0.message@ == diagnostic.message@,
        r.0.code is None,
        r.0.seed == seed,
        r.0.completion is None,
        r.0.diagnostic == Some(diagnostic),
        r.1 == 2,
{
    let mut report = error("contract", diagnostic.message.clone(), seed);
    report.diagnostic = Some(diagnostic);
    (report, 2)
}

/// The seed line of a refusal, when a run had one.
pub open spec fn seed_part(e: ErrorReport) -> Seq<char> {
    match e.seed {
        Some(seed) => "seed: "@ + decimal(seed as nat) + "\n"@,
        None => Seq::empty(),
    }
}

/// The diagnostic line of a refusal, when it has one.
pub open spec fn diagnostic_part(e: ErrorReport) -> Seq<char> {
    match e.diagnostic {
        Some(d) => crate::memory::said_spec(d) + "\n"@,
        None => Seq::empty(),
    }
}

/// The completion gate line of a refusal that leaves completion blocked.
pub open spec fn completion_part(e: ErrorReport) -> Seq<char> {
    if e.completion is Some {
        "\nCOMPLETION GATE: BLOCKED (verification did not run to a result)\n"@
    } else {
        Seq::empty()
    }
}

/// What a refusal prints.
pub open spec fn error_text(e: ErrorReport) -> Seq<char> {
    "ERROR ["@ + e.category@ + "]: "@ + e.message@ + "\n"@ + seed_part(e) + diagnostic_part(e) + completion_part(e)
}

/// Appends what a refusal prints.
pub fn write_error(out: &mut String, e: &ErrorReport)
    ensures
        final(out)@ == old(out)@ + error_text(*e),
{
    let ghost start = out@;
    append(out, "ERROR [");
    append(out, e.category);
    append(out, "]: ");
    append(out, e.message.as_str());
    append(out, "\n");
    let ghost mut acc = "ERROR ["@ + e.category@ + "]: "@ + e.message@ + "\n"@;
    assert(out@ =~= start + acc);
    let ghost before = out@;
    match e.seed {
        Some(seed) => {
            append(out, "seed: ");
            append(out, decimal_text(seed).as_str());
            append(out, "\n");
        },
        None => {},
    }
    assert(out@ =~= before + seed_part(*e));
    proof {
        crate::cli::project::lemma_grow(start, acc, seed_part(*e));
        acc = acc + seed_part(*e);
    }
    let ghost before = out@;
    match &e.diagnostic {
        Some(d) => {
            append(out, crate::memory::said(d).as_str());
            append(out, "\n");
        },
        None => {},
    }
    assert(out@ =~= before + diagnostic_part(*e));
    proof {
        crate::cli::project::lemma_grow(start, acc, diagnostic_part(*e));
        acc = acc + diagnostic_part(*e);
    }
    let ghost before = out@;
    if e.completion.is_some() {
        append(out, "\nCOMPLETION GATE: BLOCKED (verification did not run to a result)\n");
    }
    assert(out@ =~= before + completion_part(*e));
    proof {
        crate::cli::project::lemma_grow(start, acc, completion_part(*e));
    }
}

/// What checking a memory file found: which memory it is, how many declarations it has and
/// the problems it has against itself.
#[derive(Clone, Debug)]
pub struct MemoryCheck {
    pub memory: &'static str,
    pub file: String,
    pub declarations: usize,
    pub problems: Vec<String>,
}

impl MemoryCheck {
    /// `valid` when the file has no problem against itself, else `invalid`.
    pub fn status(&self) -> (s: &'static str)
        ensures
            s@ == (if self.problems@.len() == 0 {
                "valid"@
            } else {
                "invalid"@
            }),
    {
        if self.problems.len() == 0 {
            "valid"
        } else {
            "invalid"
        }
    }

    /// The exit status of the check: 0 when the file is valid, 2 when it is not.
    pub fn exit(&self) -> (code: i32)
        ensures
            code == (if self.problems@.len() == 0 {
                0i32
            } else {
                2i32
            }),
    {
        if self.problems.len() == 0 {
            0
        } else {
            2
        }
    }
}

/// What checking the declarations `bs` of a memory file as `kind` gives: the memory and the
/// problems it has against itself, or the refusal that it cannot be built. A kind other than
/// system, mission and knowledge is checked as process memory.
pub open spec fn checked_as(kind: Seq<char>, bs: Seq<BlockView>, r: Result<(Seq<char>, Seq<Seq<char>>), Diagnostic>) -> bool {
    if kind == "system"@ {
        match system_built(bs) {
            Ok(m) => r == Ok::<(Seq<char>, Seq<Seq<char>>), Diagnostic>(("system"@, system_problems(m))),
            Err(e) => r matches Err(d) && says(d, e),
        }
    } else if kind == "mission"@ {
        match mission_built(bs) {
            Ok(m) => r == Ok::<(Seq<char>, Seq<Seq<char>>), Diagnostic>(("mission"@, mission_problems(m))),
            Err(e) => r matches Err(d) && says(d, e),
        }
    } else if kind == "knowledge"@ {
        match knowledge_built(bs) {
            Ok(m) => r == Ok::<(Seq<char>, Seq<Seq<char>>), Diagnostic>(("knowledge"@, knowledge_problems(m))),
            Err(e) => r matches Err(d) && says(d, e),
        }
    } else {
        match process_built(bs) {
            Ok(m) => r == Ok::<(Seq<char>, Seq<Seq<char>>), Diagnostic>(("process"@, process_problems(m))),
            Err(e) => r matches Err(d) && says(d, e),
        }
    }
}

/// The memory and the problems of a check, as `checked_as` speaks of them.
pub open spec fn check_view(r: Result<MemoryCheck, Diagnostic>) -> Result<(Seq<char>, Seq<Seq<char>>), Diagnostic> {
    match r {
        Ok(c) => Ok((c.memory@, texts(c.problems@))),
        Err(d) => Err(d),
    }
}

fn built_problems(kind: &str, blocks: &Vec<Block>) -> (r: Result<(&'static str, Vec<String>), Diagnostic>)
    ensures
        checked_as(
            kind@,
            block_views(blocks@),
            match r {
                Ok((memory, problems)) => Ok((memory@, texts(problems@))),
                Err(d) => Err(d),
            },
        ),
{
    if str_eq(kind, "system") {
        match system::build(blocks.as_slice()) {
            Ok(built) => Ok(("system", system::validate(&built))),
            Err(d) => Err(d),
        }
    } else if str_eq(kind, "mission") {
        match mission::build(blocks.as_slice()) {
            Ok(built) => Ok(("mission", mission::validate(&built))),
            Err(d) => Err(d),
        }
    } else if str_eq(kind, "knowledge") {
        match knowledge::build(blocks.as_slice()) {
            Ok(built) => Ok(("knowledge", knowledge::validate(&built))),
            Err(d) => Err(d),
        }
    } else {
        match process::build(blocks.as_slice()) {
            Ok(built) => Ok(("process", process::validate(&built))),
            Err(d) => Err(d),
        }
    }
}

/// Checks the memory file `file`, whose text is `source`, as memory of `kind`: against
/// itself, for syntax, fields, names and internal references.
pub fn check_memory(file: &str, source: &str, kind: &str) -> (r: Result<MemoryCheck, Diagnostic>)
    requires
        source@.len() < usize::MAX,
    ensures
        match lex_from(source@, 0) {
            Err(at) => r matches Err(d) && unterminated(file@, source@, at, d),
            Ok(ts) => match blocks_spec(ts, 0, file@, Seq::empty()) {
                Err(f) => r matches Err(d) && reports(d, file@, f),
                Ok(bs) => checked_as(kind@, bs, check_view(r)) && (r matches Ok(c) ==> c.file@ == file@
                    && c.declarations == bs.len()),
            },
        },
{
    let blocks = match parse(file, source) {
        Ok(blocks) => blocks,
        Err(d) => {
            return Err(d);
        },
    };
    match built_problems(kind, &blocks) {
        Ok((memory, problems)) => {
            proof {
                assert(block_views(blocks@).len() == blocks@.len());
            }
            Ok(MemoryCheck { memory, file: file.to_owned(), declarations: blocks.len(), problems })
        },
        Err(d) => Err(d),
    }
}

/// What checking a memory file prints.
pub open spec fn memory_check_text(c: MemoryCheck) -> Seq<char> {
    (if c.problems@.len() == 0 {
        "VALID"@
    } else {
        "INVALID"@
    }) + "\n"@ + c.memory@ + " memory\n"@ + decimal(c.declarations as nat) + " declarations\n"@
        + crate::cli::project::indented(texts(c.problems@)) + (if c.memory@ == "process"@ {
        "\nProcess roles and policies are ADVISORY. BlaBla describes the intended authority and workflow and does not prevent an agent from bypassing them; a VALID file is a well-formed description, never an enforced one.\n"@
    } else {
        Seq::empty()
    }) + (if c.memory@ == "knowledge"@ {
        "\nA ruling is reusable expertise, never an instruction to widen a task. This check reads the pack alone: it cannot see whether a system or a policy routes to it, which `blabla status` reports against the registered project.\n"@
    } else {
        Seq::empty()
    })
        + "\nThis validates the file against itself: syntax, fields, names and internal references. It is never checked against the repository, and neither VALID nor INVALID takes part in completion.\n"@
}

/// Appends what checking a memory file prints.
pub fn write_memory_check(out: &mut String, c: &MemoryCheck)
    ensures
        final(out)@ == old(out)@ + memory_check_text(*c),
{
    let ghost start = out@;
    if c.problems.len() == 0 {
        append(out, "VALID");
    } else {
        append(out, "INVALID");
    }
    append(out, "\n");
    append(out, c.memory);
    append(out, " memory\n");
    append(out, decimal_text(c.declarations as u64).as_str());
    append(out, " declarations\n");
    let ghost a = out@;
    crate::cli::project::write_indented(out, &c.problems);
    proof {
        assert(crate::project::strings_view(c.problems@) =~= texts(c.problems@));
    }
    let ghost b = out@;
    if str_eq(c.memory, "process") {
        append(
            out,
            "\nProcess roles and policies are ADVISORY. BlaBla describes the intended authority and workflow and does not prevent an agent from bypassing them; a VALID file is a well-formed description, never an enforced one.\n",
        );
    }
    let ghost d = out@;
    if str_eq(c.memory, "knowledge") {
        append(
            out,
            "\nA ruling is reusable expertise, never an instruction to widen a task. This check reads the pack alone: it cannot see whether a system or a policy routes to it, which `blabla status` reports against the registered project.\n",
        );
    }
    append(
        out,
        "\nThis validates the file against itself: syntax, fields, names and internal references. It is never checked against the repository, and neither VALID nor INVALID takes part in completion.\n",
    );
    assert(out@ =~= start + memory_check_text(*c));
}

} // verus!
