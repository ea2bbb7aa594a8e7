use crate::ir::ActionKind;
use vstd::prelude::*;

verus! {

/// One fact a primitive guarantees, or guarantees not to hold.
#[derive(Clone, Copy, Debug)]
pub struct Fact {
    pub key: &'static str,
    pub holds: bool,
    pub statement: &'static str,
}

/// A runtime primitive the verifier provides, with what it does and does not do.
#[derive(Clone, Copy, Debug)]
pub struct Primitive {
    pub id: &'static str,
    pub owner: &'static str,
    pub summary: &'static str,
    pub semantics: &'static [Fact],
    pub distinction: &'static str,
}

pub const PREFIX: &'static str = "runtime::";

/// A fact as values: its key, whether it holds, and what it says.
pub struct FactV {
    pub key: Seq<char>,
    pub holds: bool,
    pub statement: Seq<char>,
}

pub open spec fn fact_v(f: Fact) -> FactV {
    FactV { key: f.key@, holds: f.holds, statement: f.statement@ }
}

/// The facts of a primitive as values.
pub open spec fn facts_v(fs: Seq<Fact>) -> Seq<FactV> {
    fs.map_values(|f: Fact| fact_v(f))
}

/// A primitive as values: its id, owner, summary, facts and what it is not.
pub struct PrimitiveV {
    pub id: Seq<char>,
    pub owner: Seq<char>,
    pub summary: Seq<char>,
    pub semantics: Seq<FactV>,
    pub distinction: Seq<char>,
}

impl View for Primitive {
    type V = PrimitiveV;

    open spec fn view(&self) -> PrimitiveV {
        PrimitiveV {
            id: self.id@,
            owner: self.owner@,
            summary: self.summary@,
            semantics: facts_v(self.semantics@),
            distinction: self.distinction@,
        }
    }
}

/// The id of the restart primitive.
pub open spec fn restart_id() -> Seq<char> {
    "runtime::restart"@
}

/// The verifier's trusted restart of the application under verification: a fresh process
/// that keeps the persistent data directory but not process memory, and no reset command.
pub open spec fn restart_spec() -> PrimitiveV {
    PrimitiveV {
        id: restart_id(),
        owner: "BlaBla verifier"@,
        summary: "trusted process restart of the application under verification"@,
        semantics: seq![
            FactV {
                key: "process_recreated"@,
                holds: true,
                statement: "terminates the owned application process tree and launches a fresh application process"@,
            },
            FactV {
                key: "process_memory_preserved"@,
                holds: false,
                statement: "does not preserve process memory"@,
            },
            FactV {
                key: "persistent_environment_preserved"@,
                holds: true,
                statement: "preserves the verifier-managed persistent data directory and its contents across the fresh process"@,
            },
            FactV {
                key: "reset_requested"@,
                holds: false,
                statement: "sends no application reset command; the fresh process starts from what the previous one persisted"@,
            },
        ],
        distinction: "This is not an application-level reset or restart action; the application receives no command for it."@,
    }
}

/// The verifier's trusted restart of the application under verification.
pub fn restart() -> (p: Primitive)
    ensures
        p@ == restart_spec(),
{
    let semantics: &'static [Fact] = &[
        Fact {
            key: "process_recreated",
            holds: true,
            statement: "terminates the owned application process tree and launches a fresh application process",
        },
        Fact { key: "process_memory_preserved", holds: false, statement: "does not preserve process memory" },
        Fact {
            key: "persistent_environment_preserved",
            holds: true,
            statement: "preserves the verifier-managed persistent data directory and its contents across the fresh process",
        },
        Fact {
            key: "reset_requested",
            holds: false,
            statement: "sends no application reset command; the fresh process starts from what the previous one persisted",
        },
    ];
    let p = Primitive {
        id: "runtime::restart",
        owner: "BlaBla verifier",
        summary: "trusted process restart of the application under verification",
        semantics,
        distinction: "This is not an application-level reset or restart action; the application receives no command for it.",
    };
    assert(facts_v(semantics@) =~= restart_spec().semantics);
    p
}

/// Every fact of a primitive has a key and a statement, it has at least one fact, and its
/// id, owner, summary and distinction are not empty; the id begins with `runtime::`.
pub open spec fn complete(p: PrimitiveV) -> bool {
    &&& p.id.len() > 0
    &&& p.id.take(9) == "runtime::"@
    &&& p.owner.len() > 0
    &&& p.summary.len() > 0
    &&& p.distinction.len() > 0
    &&& p.semantics.len() > 0
    &&& forall|i: int| 0 <= i < p.semantics.len() ==> (#[trigger] p.semantics[i]).key.len() > 0
        && p.semantics[i].statement.len() > 0
}

/// The restart primitive's description is complete: id, owner, summary, distinction and
/// each of its facts say something.
pub proof fn law_restart_is_described_completely()
    ensures
        complete(restart_spec()),
{
    reveal_strlit("runtime::restart");
    reveal_strlit("runtime::");
    reveal_strlit("BlaBla verifier");
    reveal_strlit("trusted process restart of the application under verification");
    reveal_strlit("This is not an application-level reset or restart action; the application receives no command for it.");
    reveal_strlit("process_recreated");
    reveal_strlit("terminates the owned application process tree and launches a fresh application process");
    reveal_strlit("process_memory_preserved");
    reveal_strlit("does not preserve process memory");
    reveal_strlit("persistent_environment_preserved");
    reveal_strlit("preserves the verifier-managed persistent data directory and its contents across the fresh process");
    reveal_strlit("reset_requested");
    reveal_strlit("sends no application reset command; the fresh process starts from what the previous one persisted");
    assert(restart_spec().id.take(9) =~= "runtime::"@);
}

/// Every runtime primitive, in order.
pub fn all() -> (ps: Vec<Primitive>)
    ensures
        ps@.len() == 1,
        ps@[0]@ == restart_spec(),
{
    let mut ps = Vec::new();
    ps.push(restart());
    ps
}

/// The primitive whose id is `id`.
pub fn find(id: &str) -> (r: Option<Primitive>)
    ensures
        id@ == restart_id() ==> (r matches Some(p) && p@ == restart_spec()),
        id@ != restart_id() ==> r is None,
{
    if crate::text::str_eq(id, "runtime::restart") {
        Some(restart())
    } else {
        None
    }
}

/// The primitive an action of kind `kind` depends on: the restart primitive for a restart
/// action, none for the application's own actions.
pub fn for_action(kind: ActionKind) -> (r: Option<Primitive>)
    ensures
        kind == ActionKind::Restart ==> (r matches Some(p) && p@ == restart_spec()),
        kind == ActionKind::Application ==> r is None,
{
    match kind {
        ActionKind::Restart => Some(restart()),
        ActionKind::Application => None,
    }
}

/// The ids of every primitive, in order.
pub fn ids() -> (v: Vec<&'static str>)
    ensures
        v@.len() == 1,
        v@[0]@ == restart_id(),
{
    let mut v = Vec::new();
    v.push(restart().id);
    v
}

} // verus!
