use super::syntax::{Block, BlockView, block_views, field_index, lemma_field_index, texts};
use super::{
    Memory, Refusal, at_field, copy_strings, duplicate_names, duplicates, expect_fields, expect_keywords, field_refusal,
    has_text, list, list_of, pairs, prefix_all, prefixed, problems_of, safe_references, says, split, split_spec,
    refuse_at, state_word, stray_keyword, text, text_of, unsafe_reference, wanted, wants, words,
};
use crate::project::{parse_u64, parsed_u64};
use crate::diagnostic::Diagnostic;
use crate::text::{append, debug_quoted, join, joined, quoted, str_eq};
use vstd::prelude::*;

verus! {

/// Where process memory lives by convention.
pub const FILE_NAME: &'static str = "process.bla";

/// A role that carries work.
#[derive(Clone, Debug)]
pub struct Role {
    pub name: String,
    pub purpose: String,
    pub owns: Vec<String>,
    pub verification: Option<String>,
    pub model: Vec<String>,
    pub consult: Vec<String>,
    pub block_below: Option<u8>,
}

impl Role {
    /// The confidence, in percent, below which a decision of this role waits for the
    /// orchestrator: what `block_below` declares, or 0 (nothing blocks) when it declares none.
    pub fn floor(&self) -> (f: u8)
        ensures
            f == match self.block_below {
                Some(v) => v,
                None => 0u8,
            },
    {
        match self.block_below {
            Some(v) => v,
            None => 0,
        }
    }
}

/// A policy that binds roles.
#[derive(Clone, Debug)]
pub struct Policy {
    pub name: String,
    pub statement: String,
    pub applies_to: Vec<String>,
    pub consult: Vec<String>,
}

/// A loop of steps.
#[derive(Clone, Debug)]
pub struct Flow {
    pub name: String,
    pub purpose: String,
}

/// One step of a flow, with the roles that carry it.
#[derive(Clone, Debug)]
pub struct Step {
    pub name: String,
    pub flow: String,
    pub role: Vec<String>,
    pub statement: String,
    pub command: Option<String>,
}

/// The process memory of a project.
#[derive(Clone, Debug)]
pub struct ProcessMemory {
    pub roles: Vec<Role>,
    pub policies: Vec<Policy>,
    pub flows: Vec<Flow>,
    pub steps: Vec<Step>,
}

impl Default for ProcessMemory {
    fn default() -> (m: Self)
        ensures
            m.roles@.len() == 0,
            m.policies@.len() == 0,
            m.flows@.len() == 0,
            m.steps@.len() == 0,
    {
        ProcessMemory { roles: Vec::new(), policies: Vec::new(), flows: Vec::new(), steps: Vec::new() }
    }
}

/// What `status` reports of process memory.
#[derive(Clone, Debug)]
pub struct ProcessStatus {
    pub file: String,
    pub state: &'static str,
    pub problems: Vec<String>,
    pub roles: Vec<String>,
    pub policies: usize,
    pub flows: Vec<String>,
    pub steps: usize,
}

/// What `explain` says of one role, policy, flow or step.
#[derive(Clone, Debug)]
pub struct ProcessExplainView {
    pub kind: &'static str,
    pub id: String,
    pub statement: String,
    pub owns: Vec<String>,
    pub verification: Option<String>,
    pub model: Vec<String>,
    pub policies: Vec<String>,
    pub applies_to: Vec<String>,
    pub consult: Vec<String>,
    pub steps: Vec<String>,
    pub flow: Option<String>,
    pub command: Option<String>,
}

pub struct RoleV {
    pub name: Seq<char>,
    pub purpose: Seq<char>,
    pub owns: Seq<Seq<char>>,
    pub verification: Option<Seq<char>>,
    pub model: Seq<Seq<char>>,
    pub consult: Seq<Seq<char>>,
    pub block_below: Option<u8>,
}

pub struct PolicyV {
    pub name: Seq<char>,
    pub statement: Seq<char>,
    pub applies_to: Seq<Seq<char>>,
    pub consult: Seq<Seq<char>>,
}

pub struct FlowV {
    pub name: Seq<char>,
    pub purpose: Seq<char>,
}

pub struct StepV {
    pub name: Seq<char>,
    pub flow: Seq<char>,
    pub role: Seq<Seq<char>>,
    pub statement: Seq<char>,
    pub command: Option<Seq<char>>,
}

pub struct ProcessMemoryV {
    pub roles: Seq<RoleV>,
    pub policies: Seq<PolicyV>,
    pub flows: Seq<FlowV>,
    pub steps: Seq<StepV>,
}

pub open spec fn opt_text(o: Option<String>) -> Option<Seq<char>> {
    match o {
        Some(s) => Some(s@),
        None => None,
    }
}

impl View for Role {
    type V = RoleV;

    open spec fn view(&self) -> RoleV {
        RoleV {
            name: self.name@,
            purpose: self.purpose@,
            owns: texts(self.owns@),
            verification: opt_text(self.verification),
            model: texts(self.model@),
            consult: texts(self.consult@),
            block_below: self.block_below,
        }
    }
}

impl View for Policy {
    type V = PolicyV;

    open spec fn view(&self) -> PolicyV {
        PolicyV {
            name: self.name@,
            statement: self.statement@,
            applies_to: texts(self.applies_to@),
            consult: texts(self.consult@),
        }
    }
}

impl View for Flow {
    type V = FlowV;

    open spec fn view(&self) -> FlowV {
        FlowV { name: self.name@, purpose: self.purpose@ }
    }
}

impl View for Step {
    type V = StepV;

    open spec fn view(&self) -> StepV {
        StepV {
            name: self.name@,
            flow: self.flow@,
            role: texts(self.role@),
            statement: self.statement@,
            command: opt_text(self.command),
        }
    }
}

impl View for ProcessMemory {
    type V = ProcessMemoryV;

    open spec fn view(&self) -> ProcessMemoryV {
        ProcessMemoryV {
            roles: self.roles@.map_values(|r: Role| r@),
            policies: self.policies@.map_values(|p: Policy| p@),
            flows: self.flows@.map_values(|f: Flow| f@),
            steps: self.steps@.map_values(|s: Step| s@),
        }
    }
}

/// The value of an optional one-value field, or why it cannot be read.
pub open spec fn optional_text(b: BlockView, name: Seq<char>) -> Result<Option<Seq<char>>, Refusal> {
    match field_index(b.fields, name) {
        None => Ok(None),
        Some(_) => match text_of(b, name) {
            Ok(t) => Ok(Some(t)),
            Err(r) => Err(r),
        },
    }
}

/// The value of an optional one-value field.
fn optional(block: &Block, name: &str) -> (r: Result<Option<String>, Diagnostic>)
    ensures
        match optional_text(block@, name@) {
            Ok(t) => r matches Ok(x) && opt_text(x) == t,
            Err(e) => r matches Err(d) && says(d, e),
        },
{
    proof {
        lemma_field_index(block@.fields, name@);
    }
    match block.field(name) {
        None => Ok(None),
        Some(_) => match text(block, name) {
            Ok(t) => Ok(Some(t)),
            Err(d) => Err(d),
        },
    }
}

/// Refuses a value of the field `name` of `block` that cannot be part of an identity.
fn safe_field(block: &Block, name: &str) -> (r: Result<(), Diagnostic>)
    ensures
        match unsafe_reference(block@, name@) {
            None => r is Ok,
            Some(x) => r matches Err(d) && says(d, x),
        },
{
    proof {
        lemma_field_index(block@.fields, name@);
        match field_index(block@.fields, name@) {
            Some(k) => {
                assert(block@.fields[k] == block.fields@[k]@);
            },
            None => {},
        }
    }
    safe_references(block.field(name))
}

/// The refusal of a `block_below` value that is not a whole-number percentage.
pub open spec fn floor_refusal(t: Seq<char>) -> Seq<char> {
    "`block_below` takes a whole-number percentage from 0 through 100, not "@ + debug_quoted(t)
}

/// The confidence floor a role declares with `block_below` (a percentage from 0 through
/// 100), none when it declares none, or why the value cannot be read.
pub open spec fn floor_of(b: BlockView) -> Result<Option<u8>, Refusal> {
    match field_index(b.fields, "block_below"@) {
        None => Ok(None),
        Some(i) => match text_of(b, "block_below"@) {
            Err(r) => Err(r),
            Ok(t) => match parsed_u64(t) {
                Some(v) => if v <= 100 {
                    Ok(Some(v as u8))
                } else {
                    Err(at_field(b.fields[i], "E_MEMORY_FIELD"@, floor_refusal(t)))
                },
                None => Err(at_field(b.fields[i], "E_MEMORY_FIELD"@, floor_refusal(t))),
            },
        },
    }
}

fn floor_field(block: &Block) -> (r: Result<Option<u8>, Diagnostic>)
    ensures
        match floor_of(block@) {
            Ok(f) => r == Ok::<Option<u8>, Diagnostic>(f),
            Err(e) => r matches Err(d) && says(d, e),
        },
{
    proof {
        lemma_field_index(block@.fields, "block_below"@);
    }
    let field = match block.field("block_below") {
        None => {
            return Ok(None);
        },
        Some(f) => f,
    };
    let t = match text(block, "block_below") {
        Ok(t) => t,
        Err(d) => {
            return Err(d);
        },
    };
    match parse_u64(t.as_str()) {
        Some(v) => {
            if v <= 100 {
                return Ok(Some(v as u8));
            }
        },
        None => {},
    }
    let mut m = "`block_below` takes a whole-number percentage from 0 through 100, not ".to_owned();
    append(&mut m, quoted(t.as_str()).as_str());
    Err(refuse_at(&field.location, "E_MEMORY_FIELD", m))
}

pub open spec fn role_step(b: BlockView, acc: ProcessMemoryV) -> Result<ProcessMemoryV, Refusal> {
    match field_refusal(b, seq!["purpose"@], seq!["owns"@, "verification"@, "model"@, "consult"@, "block_below"@]) {
        Some(r) => Err(r),
        None => match unsafe_reference(b, "consult"@) {
            Some(r) => Err(r),
            None => match text_of(b, "purpose"@) {
                Err(r) => Err(r),
                Ok(p) => match optional_text(b, "verification"@) {
                    Err(r) => Err(r),
                    Ok(v) => match floor_of(b) {
                        Err(r) => Err(r),
                        Ok(f) => Ok(
                            ProcessMemoryV {
                                roles: acc.roles.push(
                                    RoleV {
                                        name: b.name,
                                        purpose: p,
                                        owns: list_of(b, "owns"@),
                                        verification: v,
                                        model: list_of(b, "model"@),
                                        consult: list_of(b, "consult"@),
                                        block_below: f,
                                    },
                                ),
                                ..acc
                            },
                        ),
                    },
                },
            },
        },
    }
}

pub open spec fn flow_step(b: BlockView, acc: ProcessMemoryV) -> Result<ProcessMemoryV, Refusal> {
    match field_refusal(b, seq!["purpose"@], Seq::empty()) {
        Some(r) => Err(r),
        None => match text_of(b, "purpose"@) {
            Err(r) => Err(r),
            Ok(p) => Ok(ProcessMemoryV { flows: acc.flows.push(FlowV { name: b.name, purpose: p }), ..acc }),
        },
    }
}

pub open spec fn step_step(b: BlockView, acc: ProcessMemoryV) -> Result<ProcessMemoryV, Refusal> {
    match field_refusal(b, seq!["flow"@, "role"@, "statement"@], seq!["command"@]) {
        Some(r) => Err(r),
        None => match unsafe_reference(b, "flow"@) {
            Some(r) => Err(r),
            None => match unsafe_reference(b, "role"@) {
                Some(r) => Err(r),
                None => match text_of(b, "flow"@) {
                    Err(r) => Err(r),
                    Ok(f) => match text_of(b, "statement"@) {
                        Err(r) => Err(r),
                        Ok(s) => match optional_text(b, "command"@) {
                            Err(r) => Err(r),
                            Ok(c) => Ok(
                                ProcessMemoryV {
                                    steps: acc.steps.push(
                                        StepV {
                                            name: b.name,
                                            flow: f,
                                            role: list_of(b, "role"@),
                                            statement: s,
                                            command: c,
                                        },
                                    ),
                                    ..acc
                                },
                            ),
                        },
                    },
                },
            },
        },
    }
}

pub open spec fn policy_step(b: BlockView, acc: ProcessMemoryV) -> Result<ProcessMemoryV, Refusal> {
    match field_refusal(b, seq!["statement"@, "applies_to"@], seq!["consult"@]) {
        Some(r) => Err(r),
        None => match unsafe_reference(b, "applies_to"@) {
            Some(r) => Err(r),
            None => match unsafe_reference(b, "consult"@) {
                Some(r) => Err(r),
                None => match text_of(b, "statement"@) {
                    Err(r) => Err(r),
                    Ok(s) => Ok(
                        ProcessMemoryV {
                            policies: acc.policies.push(
                                PolicyV {
                                    name: b.name,
                                    statement: s,
                                    applies_to: list_of(b, "applies_to"@),
                                    consult: list_of(b, "consult"@),
                                },
                            ),
                            ..acc
                        },
                    ),
                },
            },
        },
    }
}

/// What one declaration adds to the process memory read so far.
pub open spec fn process_step(b: BlockView, acc: ProcessMemoryV) -> Result<ProcessMemoryV, Refusal> {
    if b.keyword == "role"@ {
        role_step(b, acc)
    } else if b.keyword == "flow"@ {
        flow_step(b, acc)
    } else if b.keyword == "step"@ {
        step_step(b, acc)
    } else {
        policy_step(b, acc)
    }
}

pub open spec fn process_fold(blocks: Seq<BlockView>, i: int, acc: ProcessMemoryV) -> Result<
    ProcessMemoryV,
    Refusal,
>
    decreases blocks.len() - i,
{
    if i < 0 || i >= blocks.len() {
        Ok(acc)
    } else {
        match process_step(blocks[i], acc) {
            Err(r) => Err(r),
            Ok(next) => process_fold(blocks, i + 1, next),
        }
    }
}

pub open spec fn no_process() -> ProcessMemoryV {
    ProcessMemoryV { roles: Seq::empty(), policies: Seq::empty(), flows: Seq::empty(), steps: Seq::empty() }
}

/// The process memory that a file's declarations state.
pub open spec fn process_built(blocks: Seq<BlockView>) -> Result<ProcessMemoryV, Refusal> {
    match stray_keyword(blocks, seq!["role"@, "policy"@, "flow"@, "step"@], 0) {
        Some(r) => Err(r),
        None => process_fold(blocks, 0, no_process()),
    }
}

fn build_role(block: &Block, memory: &mut ProcessMemory) -> (r: Result<(), Diagnostic>)
    ensures
        match role_step(block@, old(memory)@) {
            Ok(m) => r is Ok && final(memory)@ == m,
            Err(e) => r matches Err(d) && says(d, e),
        },
{
    let required: Vec<&str> = vec!["purpose"];
    let optional_fields: Vec<&str> = vec!["owns", "verification", "model", "consult", "block_below"];
    assert(words(required@) =~= seq!["purpose"@]);
    assert(words(optional_fields@) =~= seq!["owns"@, "verification"@, "model"@, "consult"@, "block_below"@]);
    match expect_fields(block, &required, &optional_fields) {
        Ok(()) => {},
        Err(d) => {
            return Err(d);
        },
    }
    match safe_field(block, "consult") {
        Ok(()) => {},
        Err(d) => {
            return Err(d);
        },
    }
    let p = match text(block, "purpose") {
        Ok(p) => p,
        Err(d) => {
            return Err(d);
        },
    };
    let owns = list(block, "owns");
    let v = match optional(block, "verification") {
        Ok(v) => v,
        Err(d) => {
            return Err(d);
        },
    };
    let block_below = match floor_field(block) {
        Ok(f) => f,
        Err(d) => {
            return Err(d);
        },
    };
    let role = Role {
        name: block.name.clone(),
        purpose: p,
        owns,
        verification: v,
        model: list(block, "model"),
        consult: list(block, "consult"),
        block_below,
    };
    let ghost before = memory@;
    memory.roles.push(role);
    assert(memory@.roles =~= before.roles.push(role@));
    Ok(())
}

fn build_flow(block: &Block, memory: &mut ProcessMemory) -> (r: Result<(), Diagnostic>)
    ensures
        match flow_step(block@, old(memory)@) {
            Ok(m) => r is Ok && final(memory)@ == m,
            Err(e) => r matches Err(d) && says(d, e),
        },
{
    let required: Vec<&str> = vec!["purpose"];
    let nothing: Vec<&str> = Vec::new();
    assert(words(required@) =~= seq!["purpose"@]);
    assert(words(nothing@) =~= Seq::<Seq<char>>::empty());
    match expect_fields(block, &required, &nothing) {
        Ok(()) => {},
        Err(d) => {
            return Err(d);
        },
    }
    let p = match text(block, "purpose") {
        Ok(p) => p,
        Err(d) => {
            return Err(d);
        },
    };
    let flow = Flow { name: block.name.clone(), purpose: p };
    let ghost before = memory@;
    memory.flows.push(flow);
    assert(memory@.flows =~= before.flows.push(flow@));
    Ok(())
}

fn build_step(block: &Block, memory: &mut ProcessMemory) -> (r: Result<(), Diagnostic>)
    ensures
        match step_step(block@, old(memory)@) {
            Ok(m) => r is Ok && final(memory)@ == m,
            Err(e) => r matches Err(d) && says(d, e),
        },
{
    let required: Vec<&str> = vec!["flow", "role", "statement"];
    let optional_fields: Vec<&str> = vec!["command"];
    assert(words(required@) =~= seq!["flow"@, "role"@, "statement"@]);
    assert(words(optional_fields@) =~= seq!["command"@]);
    match expect_fields(block, &required, &optional_fields) {
        Ok(()) => {},
        Err(d) => {
            return Err(d);
        },
    }
    match safe_field(block, "flow") {
        Ok(()) => {},
        Err(d) => {
            return Err(d);
        },
    }
    match safe_field(block, "role") {
        Ok(()) => {},
        Err(d) => {
            return Err(d);
        },
    }
    let f = match text(block, "flow") {
        Ok(f) => f,
        Err(d) => {
            return Err(d);
        },
    };
    let role = list(block, "role");
    let s = match text(block, "statement") {
        Ok(s) => s,
        Err(d) => {
            return Err(d);
        },
    };
    let c = match optional(block, "command") {
        Ok(c) => c,
        Err(d) => {
            return Err(d);
        },
    };
    let step = Step { name: block.name.clone(), flow: f, role, statement: s, command: c };
    let ghost before = memory@;
    memory.steps.push(step);
    assert(memory@.steps =~= before.steps.push(step@));
    Ok(())
}

fn build_policy(block: &Block, memory: &mut ProcessMemory) -> (r: Result<(), Diagnostic>)
    ensures
        match policy_step(block@, old(memory)@) {
            Ok(m) => r is Ok && final(memory)@ == m,
            Err(e) => r matches Err(d) && says(d, e),
        },
{
    let required: Vec<&str> = vec!["statement", "applies_to"];
    let optional_fields: Vec<&str> = vec!["consult"];
    assert(words(required@) =~= seq!["statement"@, "applies_to"@]);
    assert(words(optional_fields@) =~= seq!["consult"@]);
    match expect_fields(block, &required, &optional_fields) {
        Ok(()) => {},
        Err(d) => {
            return Err(d);
        },
    }
    match safe_field(block, "applies_to") {
        Ok(()) => {},
        Err(d) => {
            return Err(d);
        },
    }
    match safe_field(block, "consult") {
        Ok(()) => {},
        Err(d) => {
            return Err(d);
        },
    }
    let s = match text(block, "statement") {
        Ok(s) => s,
        Err(d) => {
            return Err(d);
        },
    };
    let policy = Policy {
        name: block.name.clone(),
        statement: s,
        applies_to: list(block, "applies_to"),
        consult: list(block, "consult"),
    };
    let ghost before = memory@;
    memory.policies.push(policy);
    assert(memory@.policies =~= before.policies.push(policy@));
    Ok(())
}

/// The process memory that declarations state: `role`, `policy`, `flow` and `step`.
pub fn build(blocks: &[Block]) -> (r: Result<ProcessMemory, Diagnostic>)
    ensures
        match process_built(block_views(blocks@)) {
            Ok(m) => r matches Ok(x) && x@ == m,
            Err(e) => r matches Err(d) && says(d, e),
        },
{
    let ghost bs = block_views(blocks@);
    let allowed: Vec<&str> = vec!["role", "policy", "flow", "step"];
    assert(words(allowed@) =~= seq!["role"@, "policy"@, "flow"@, "step"@]);
    match expect_keywords(blocks, &allowed) {
        Ok(()) => {},
        Err(d) => {
            return Err(d);
        },
    }
    let mut memory = ProcessMemory::default();
    assert(memory@ =~= no_process()) by {
        assert(memory@.roles =~= Seq::<RoleV>::empty());
        assert(memory@.policies =~= Seq::<PolicyV>::empty());
        assert(memory@.flows =~= Seq::<FlowV>::empty());
        assert(memory@.steps =~= Seq::<StepV>::empty());
    }
    let mut i: usize = 0;
    while i < blocks.len()
        invariant
            i <= blocks.len(),
            bs == block_views(blocks@),
            stray_keyword(bs, seq!["role"@, "policy"@, "flow"@, "step"@], 0) is None,
            process_fold(bs, i as int, memory@) == process_fold(bs, 0, no_process()),
        decreases blocks.len() - i,
    {
        let block = &blocks[i];
        assert(bs[i as int] == block@);
        let done = if str_eq(block.keyword.as_str(), "role") {
            build_role(block, &mut memory)
        } else if str_eq(block.keyword.as_str(), "flow") {
            build_flow(block, &mut memory)
        } else if str_eq(block.keyword.as_str(), "step") {
            build_step(block, &mut memory)
        } else {
            build_policy(block, &mut memory)
        };
        match done {
            Ok(()) => {},
            Err(d) => {
                return Err(d);
            },
        }
        i += 1;
    }
    Ok(memory)
}

/// Each declared name with the kind that declares it.
pub open spec fn process_names(m: ProcessMemoryV) -> Seq<(Seq<char>, Seq<char>)> {
    m.roles.map_values(|r: RoleV| (r.name, "a role"@)) + m.policies.map_values(
        |p: PolicyV| (p.name, "a policy"@),
    ) + m.flows.map_values(|f: FlowV| (f.name, "a flow"@)) + m.steps.map_values(|s: StepV| (s.name, "a step"@))
}

pub open spec fn is_role(m: ProcessMemoryV, name: Seq<char>) -> bool {
    exists|i: int| 0 <= i < m.roles.len() && (#[trigger] m.roles[i]).name == name
}

pub open spec fn is_policy(m: ProcessMemoryV, name: Seq<char>) -> bool {
    exists|i: int| 0 <= i < m.policies.len() && (#[trigger] m.policies[i]).name == name
}

pub open spec fn is_flow(m: ProcessMemoryV, name: Seq<char>) -> bool {
    exists|i: int| 0 <= i < m.flows.len() && (#[trigger] m.flows[i]).name == name
}

pub open spec fn is_step(m: ProcessMemoryV, name: Seq<char>) -> bool {
    exists|i: int| 0 <= i < m.steps.len() && (#[trigger] m.steps[i]).name == name
}

/// The problems of the first `k` roles a policy applies to that are not declared.
pub open spec fn applies_problems(m: ProcessMemoryV, p: PolicyV, k: int) -> Seq<Seq<char>>
    decreases k,
{
    if k <= 0 || k > p.applies_to.len() {
        Seq::empty()
    } else if !is_role(m, p.applies_to[k - 1]) {
        applies_problems(m, p, k - 1).push(
            "policy "@ + debug_quoted(p.name) + " applies to "@ + debug_quoted(p.applies_to[k - 1])
                + ", which is not a declared role"@,
        )
    } else {
        applies_problems(m, p, k - 1)
    }
}

/// The problems of one policy: it binds no role, or a role it binds is not declared.
pub open spec fn policy_problem(m: ProcessMemoryV, p: PolicyV) -> Seq<Seq<char>> {
    (if p.applies_to.len() == 0 {
        seq!["policy "@ + debug_quoted(p.name) + " applies to no role; a policy names the roles it binds"@]
    } else {
        Seq::empty()
    }) + applies_problems(m, p, p.applies_to.len() as int)
}

/// The problems of the first `k` carriers of a step that are not declared roles.
pub open spec fn carrier_problems(m: ProcessMemoryV, s: StepV, k: int) -> Seq<Seq<char>>
    decreases k,
{
    if k <= 0 || k > s.role.len() {
        Seq::empty()
    } else if !is_role(m, s.role[k - 1]) {
        carrier_problems(m, s, k - 1).push(
            "step "@ + debug_quoted(s.name) + " is carried by "@ + debug_quoted(s.role[k - 1])
                + ", which is not a declared role"@,
        )
    } else {
        carrier_problems(m, s, k - 1)
    }
}

/// The problems of one step: its flow is not declared, it names no role, or a role that
/// carries it is not declared.
pub open spec fn step_problem(m: ProcessMemoryV, s: StepV) -> Seq<Seq<char>> {
    (if !is_flow(m, s.flow) {
        seq![
            "step "@ + debug_quoted(s.name) + " belongs to flow "@ + debug_quoted(s.flow)
                + ", which is not a declared flow"@,
        ]
    } else {
        Seq::empty()
    }) + (if s.role.len() == 0 {
        seq!["step "@ + debug_quoted(s.name) + " names no role; a step says which role carries it"@]
    } else {
        Seq::empty()
    }) + carrier_problems(m, s, s.role.len() as int)
}

pub open spec fn has_step_in(m: ProcessMemoryV, flow: Seq<char>) -> bool {
    exists|i: int| 0 <= i < m.steps.len() && (#[trigger] m.steps[i]).flow == flow
}

pub open spec fn policies_problems(m: ProcessMemoryV, n: int) -> Seq<Seq<char>>
    decreases n,
{
    if n <= 0 || n > m.policies.len() {
        Seq::empty()
    } else {
        policies_problems(m, n - 1) + policy_problem(m, m.policies[n - 1])
    }
}

pub open spec fn steps_problems(m: ProcessMemoryV, n: int) -> Seq<Seq<char>>
    decreases n,
{
    if n <= 0 || n > m.steps.len() {
        Seq::empty()
    } else {
        steps_problems(m, n - 1) + step_problem(m, m.steps[n - 1])
    }
}

pub open spec fn flows_problems(m: ProcessMemoryV, n: int) -> Seq<Seq<char>>
    decreases n,
{
    if n <= 0 || n > m.flows.len() {
        Seq::empty()
    } else if !has_step_in(m, m.flows[n - 1].name) {
        flows_problems(m, n - 1).push(
            "flow "@ + debug_quoted(m.flows[n - 1].name)
                + " declares no step; a flow whose steps are absent describes no loop"@,
        )
    } else {
        flows_problems(m, n - 1)
    }
}

/// What is wrong with a process memory.
pub open spec fn process_problems(m: ProcessMemoryV) -> Seq<Seq<char>> {
    duplicates(process_names(m)) + policies_problems(m, m.policies.len() as int) + steps_problems(
        m,
        m.steps.len() as int,
    ) + flows_problems(m, m.flows.len() as int)
}

fn role_declared(m: &ProcessMemory, name: &str) -> (b: bool)
    ensures
        b == is_role(m@, name@),
{
    match find_role(m, name) {
        Some(_) => true,
        None => false,
    }
}

fn flow_declared(m: &ProcessMemory, name: &str) -> (b: bool)
    ensures
        b == is_flow(m@, name@),
{
    match find_flow(m, name) {
        Some(_) => true,
        None => false,
    }
}

fn flow_has_step(m: &ProcessMemory, flow: &str) -> (b: bool)
    ensures
        b == has_step_in(m@, flow@),
{
    let mut i: usize = 0;
    while i < m.steps.len()
        invariant
            i <= m.steps.len(),
            forall|j: int| 0 <= j < i ==> (#[trigger] m@.steps[j]).flow != flow@,
        decreases m.steps.len() - i,
    {
        assert(m@.steps[i as int] == m.steps@[i as int]@);
        if str_eq(m.steps[i].flow.as_str(), flow) {
            return true;
        }
        i += 1;
    }
    false
}

fn policy_check(m: &ProcessMemory, p: &Policy) -> (ps: Vec<String>)
    ensures
        texts(ps@) == policy_problem(m@, p@),
{
    let mut ps: Vec<String> = Vec::new();
    if p.applies_to.len() == 0 {
        let mut msg = joined("policy ", quoted(p.name.as_str()).as_str());
        append(&mut msg, " applies to no role; a policy names the roles it binds");
        ps.push(msg);
    }
    let ghost head = texts(ps@);
    assert(head =~= (if p@.applies_to.len() == 0 {
        seq!["policy "@ + debug_quoted(p@.name) + " applies to no role; a policy names the roles it binds"@]
    } else {
        Seq::<Seq<char>>::empty()
    }));
    let mut k: usize = 0;
    while k < p.applies_to.len()
        invariant
            k <= p.applies_to.len(),
            texts(ps@) == head + applies_problems(m@, p@, k as int),
        decreases p.applies_to.len() - k,
    {
        let role = p.applies_to[k].as_str();
        assert(p@.applies_to[k as int] == role@);
        if !role_declared(m, role) {
            let mut msg = joined("policy ", quoted(p.name.as_str()).as_str());
            append(&mut msg, " applies to ");
            append(&mut msg, quoted(role).as_str());
            append(&mut msg, ", which is not a declared role");
            let ghost before = ps@;
            ps.push(msg);
            assert(texts(ps@) =~= texts(before).push(msg@));
        }
        k += 1;
    }
    ps
}

fn step_check(m: &ProcessMemory, s: &Step) -> (ps: Vec<String>)
    ensures
        texts(ps@) == step_problem(m@, s@),
{
    let mut ps: Vec<String> = Vec::new();
    if !flow_declared(m, s.flow.as_str()) {
        let mut msg = joined("step ", quoted(s.name.as_str()).as_str());
        append(&mut msg, " belongs to flow ");
        append(&mut msg, quoted(s.flow.as_str()).as_str());
        append(&mut msg, ", which is not a declared flow");
        ps.push(msg);
    }
    let ghost a = texts(ps@);
    if s.role.len() == 0 {
        let mut msg = joined("step ", quoted(s.name.as_str()).as_str());
        append(&mut msg, " names no role; a step says which role carries it");
        ps.push(msg);
        assert(texts(ps@) =~= a.push(msg@));
    }
    let ghost head = texts(ps@);
    assert(head =~= (if !is_flow(m@, s@.flow) {
        seq![
            "step "@ + debug_quoted(s@.name) + " belongs to flow "@ + debug_quoted(s@.flow)
                + ", which is not a declared flow"@,
        ]
    } else {
        Seq::<Seq<char>>::empty()
    }) + (if s@.role.len() == 0 {
        seq!["step "@ + debug_quoted(s@.name) + " names no role; a step says which role carries it"@]
    } else {
        Seq::<Seq<char>>::empty()
    }));
    let mut k: usize = 0;
    while k < s.role.len()
        invariant
            k <= s.role.len(),
            texts(ps@) == head + carrier_problems(m@, s@, k as int),
        decreases s.role.len() - k,
    {
        let carrier = s.role[k].as_str();
        assert(s@.role[k as int] == carrier@);
        if !role_declared(m, carrier) {
            let mut msg = joined("step ", quoted(s.name.as_str()).as_str());
            append(&mut msg, " is carried by ");
            append(&mut msg, quoted(carrier).as_str());
            append(&mut msg, ", which is not a declared role");
            let ghost before = ps@;
            ps.push(msg);
            assert(texts(ps@) =~= texts(before).push(msg@));
        }
        k += 1;
    }
    ps
}

/// What is wrong with a process memory: a name declared twice, a policy that binds no
/// declared role, a step outside a declared flow or carried by no declared role, a flow
/// without steps.
pub fn validate(memory: &ProcessMemory) -> (ps: Vec<String>)
    ensures
        texts(ps@) == process_problems(memory@),
{
    let ghost m = memory@;
    let ghost names = process_names(m);
    let mut declared: Vec<(&str, &str)> = Vec::new();
    let mut i: usize = 0;
    while i < memory.roles.len()
        invariant
            i <= memory.roles.len(),
            m == memory@,
            names == process_names(m),
            pairs(declared@) == names.take(i as int),
        decreases memory.roles.len() - i,
    {
        let ghost before = declared@;
        declared.push((memory.roles[i].name.as_str(), "a role"));
        assert(pairs(declared@) =~= pairs(before).push((m.roles[i as int].name, "a role"@)));
        assert(pairs(declared@) =~= names.take(i + 1));
        i += 1;
    }
    let ghost n1 = memory.roles.len() as int;
    let mut i: usize = 0;
    while i < memory.policies.len()
        invariant
            i <= memory.policies.len(),
            m == memory@,
            names == process_names(m),
            n1 == memory.roles.len(),
            pairs(declared@) == names.take(n1 + i),
        decreases memory.policies.len() - i,
    {
        let ghost before = declared@;
        declared.push((memory.policies[i].name.as_str(), "a policy"));
        assert(pairs(declared@) =~= pairs(before).push((m.policies[i as int].name, "a policy"@)));
        assert(pairs(declared@) =~= names.take(n1 + i + 1));
        i += 1;
    }
    let ghost n2 = n1 + memory.policies.len();
    let mut i: usize = 0;
    while i < memory.flows.len()
        invariant
            i <= memory.flows.len(),
            m == memory@,
            names == process_names(m),
            n2 == memory.roles.len() + memory.policies.len(),
            pairs(declared@) == names.take(n2 + i),
        decreases memory.flows.len() - i,
    {
        let ghost before = declared@;
        declared.push((memory.flows[i].name.as_str(), "a flow"));
        assert(pairs(declared@) =~= pairs(before).push((m.flows[i as int].name, "a flow"@)));
        assert(pairs(declared@) =~= names.take(n2 + i + 1));
        i += 1;
    }
    let ghost n3 = n2 + memory.flows.len();
    let mut i: usize = 0;
    while i < memory.steps.len()
        invariant
            i <= memory.steps.len(),
            m == memory@,
            names == process_names(m),
            n3 == memory.roles.len() + memory.policies.len() + memory.flows.len(),
            pairs(declared@) == names.take(n3 + i),
        decreases memory.steps.len() - i,
    {
        let ghost before = declared@;
        declared.push((memory.steps[i].name.as_str(), "a step"));
        assert(pairs(declared@) =~= pairs(before).push((m.steps[i as int].name, "a step"@)));
        assert(pairs(declared@) =~= names.take(n3 + i + 1));
        i += 1;
    }
    assert(names.take(n3 + i) =~= names);
    let mut ps = duplicate_names(&declared);
    let ghost first = texts(ps@);
    let mut i: usize = 0;
    while i < memory.policies.len()
        invariant
            i <= memory.policies.len(),
            m == memory@,
            texts(ps@) == first + policies_problems(m, i as int),
        decreases memory.policies.len() - i,
    {
        let p = &memory.policies[i];
        assert(m.policies[i as int] == p@);
        let mut more = policy_check(memory, p);
        let ghost before = texts(ps@);
        let ghost extra = texts(more@);
        ps.append(&mut more);
        assert(texts(ps@) =~= before + extra);
        i += 1;
    }
    let ghost second = texts(ps@);
    let mut i: usize = 0;
    while i < memory.steps.len()
        invariant
            i <= memory.steps.len(),
            m == memory@,
            texts(ps@) == second + steps_problems(m, i as int),
        decreases memory.steps.len() - i,
    {
        let s = &memory.steps[i];
        assert(m.steps[i as int] == s@);
        let mut more = step_check(memory, s);
        let ghost before = texts(ps@);
        let ghost extra = texts(more@);
        ps.append(&mut more);
        assert(texts(ps@) =~= before + extra);
        i += 1;
    }
    let ghost third = texts(ps@);
    let mut i: usize = 0;
    while i < memory.flows.len()
        invariant
            i <= memory.flows.len(),
            m == memory@,
            texts(ps@) == third + flows_problems(m, i as int),
        decreases memory.flows.len() - i,
    {
        let f = &memory.flows[i];
        assert(m.flows[i as int] == f@);
        if !flow_has_step(memory, f.name.as_str()) {
            let mut msg = joined("flow ", quoted(f.name.as_str()).as_str());
            append(&mut msg, " declares no step; a flow whose steps are absent describes no loop");
            let ghost before = ps@;
            ps.push(msg);
            assert(texts(ps@) =~= texts(before).push(msg@));
        }
        i += 1;
    }
    assert(third + flows_problems(m, m.flows.len() as int) =~= duplicates(process_names(m)) + policies_problems(
        m,
        m.policies.len() as int,
    ) + steps_problems(m, m.steps.len() as int) + flows_problems(m, m.flows.len() as int));
    ps
}

/// What `status` reports of a process memory.
pub open spec fn process_status_of(memory: Memory<ProcessMemory>, file: Seq<char>, s: ProcessStatus) -> bool {
    &&& s.file@ == file
    &&& s.state@ == state_word(memory)
    &&& texts(s.problems@) == problems_of(memory)
    &&& match memory {
        Memory::Present(m) => texts(s.roles@) == m@.roles.map_values(|r: RoleV| "role::"@ + r.name) && s.policies
            == m.policies@.len() && texts(s.flows@) == m@.flows.map_values(|f: FlowV| "flow::"@ + f.name)
            && s.steps == m.steps@.len(),
        _ => s.roles@.len() == 0 && s.policies == 0 && s.flows@.len() == 0 && s.steps == 0,
    }
}

fn role_ids(m: &ProcessMemory) -> (v: Vec<String>)
    ensures
        texts(v@) == m@.roles.map_values(|r: RoleV| "role::"@ + r.name),
{
    let mut v: Vec<String> = Vec::new();
    let mut i: usize = 0;
    while i < m.roles.len()
        invariant
            i <= m.roles.len(),
            texts(v@) == m@.roles.map_values(|r: RoleV| "role::"@ + r.name).take(i as int),
        decreases m.roles.len() - i,
    {
        let id = joined("role::", m.roles[i].name.as_str());
        assert(m@.roles[i as int] == m.roles@[i as int]@);
        let ghost before = v@;
        v.push(id);
        assert(texts(v@) =~= texts(before).push(id@));
        assert(texts(v@) =~= m@.roles.map_values(|r: RoleV| "role::"@ + r.name).take(i + 1));
        i += 1;
    }
    assert(m@.roles.map_values(|r: RoleV| "role::"@ + r.name).take(i as int) =~= m@.roles.map_values(
        |r: RoleV| "role::"@ + r.name,
    ));
    v
}

fn flow_ids(m: &ProcessMemory) -> (v: Vec<String>)
    ensures
        texts(v@) == m@.flows.map_values(|f: FlowV| "flow::"@ + f.name),
{
    let mut v: Vec<String> = Vec::new();
    let mut i: usize = 0;
    while i < m.flows.len()
        invariant
            i <= m.flows.len(),
            texts(v@) == m@.flows.map_values(|f: FlowV| "flow::"@ + f.name).take(i as int),
        decreases m.flows.len() - i,
    {
        let id = joined("flow::", m.flows[i].name.as_str());
        assert(m@.flows[i as int] == m.flows@[i as int]@);
        let ghost before = v@;
        v.push(id);
        assert(texts(v@) =~= texts(before).push(id@));
        assert(texts(v@) =~= m@.flows.map_values(|f: FlowV| "flow::"@ + f.name).take(i + 1));
        i += 1;
    }
    assert(m@.flows.map_values(|f: FlowV| "flow::"@ + f.name).take(i as int) =~= m@.flows.map_values(
        |f: FlowV| "flow::"@ + f.name,
    ));
    v
}

/// The state of process memory, or nothing when no statement registers it.
pub fn status(memory: &Memory<ProcessMemory>, file: &str) -> (r: Option<ProcessStatus>)
    ensures
        memory is Unregistered ==> r is None,
        !(memory is Unregistered) ==> (r matches Some(s) && process_status_of(*memory, file@, s)),
{
    if let Memory::Unregistered = memory {
        return None;
    }
    let (roles, policies, flows, steps) = match memory.present() {
        Some(m) => (role_ids(m), m.policies.len(), flow_ids(m), m.steps.len()),
        None => (Vec::new(), 0, Vec::new(), 0),
    };
    Some(
        ProcessStatus {
            file: file.to_owned(),
            state: memory.state(),
            problems: memory.problems(),
            roles,
            policies,
            flows,
            steps,
        },
    )
}

pub open spec fn process_kinds() -> Seq<Seq<char>> {
    seq!["role"@, "policy"@, "flow"@, "step"@]
}

fn kinds() -> (v: Vec<&'static str>)
    ensures
        words(v@) == process_kinds(),
{
    let v: Vec<&'static str> = vec!["role", "policy", "flow", "step"];
    assert(words(v@) =~= process_kinds());
    v
}

fn find_role(m: &ProcessMemory, name: &str) -> (r: Option<usize>)
    ensures
        r is None ==> !is_role(m@, name@),
        r is Some ==> is_role(m@, name@),
        r matches Some(i) ==> i < m@.roles.len() && m@.roles[i as int].name == name@ && forall|j: int|
            0 <= j < i ==> (#[trigger] m@.roles[j]).name != name@,
{
    let mut i: usize = 0;
    while i < m.roles.len()
        invariant
            i <= m.roles.len(),
            forall|j: int| 0 <= j < i ==> (#[trigger] m@.roles[j]).name != name@,
        decreases m.roles.len() - i,
    {
        assert(m@.roles[i as int] == m.roles@[i as int]@);
        if str_eq(m.roles[i].name.as_str(), name) {
            return Some(i);
        }
        i += 1;
    }
    None
}

fn find_policy(m: &ProcessMemory, name: &str) -> (r: Option<usize>)
    ensures
        r is None ==> !is_policy(m@, name@),
        r is Some ==> is_policy(m@, name@),
        r matches Some(i) ==> i < m@.policies.len() && m@.policies[i as int].name == name@ && forall|j: int|
            0 <= j < i ==> (#[trigger] m@.policies[j]).name != name@,
{
    let mut i: usize = 0;
    while i < m.policies.len()
        invariant
            i <= m.policies.len(),
            forall|j: int| 0 <= j < i ==> (#[trigger] m@.policies[j]).name != name@,
        decreases m.policies.len() - i,
    {
        assert(m@.policies[i as int] == m.policies@[i as int]@);
        if str_eq(m.policies[i].name.as_str(), name) {
            return Some(i);
        }
        i += 1;
    }
    None
}

fn find_flow(m: &ProcessMemory, name: &str) -> (r: Option<usize>)
    ensures
        r is None ==> !is_flow(m@, name@),
        r is Some ==> is_flow(m@, name@),
        r matches Some(i) ==> i < m@.flows.len() && m@.flows[i as int].name == name@ && forall|j: int|
            0 <= j < i ==> (#[trigger] m@.flows[j]).name != name@,
{
    let mut i: usize = 0;
    while i < m.flows.len()
        invariant
            i <= m.flows.len(),
            forall|j: int| 0 <= j < i ==> (#[trigger] m@.flows[j]).name != name@,
        decreases m.flows.len() - i,
    {
        assert(m@.flows[i as int] == m.flows@[i as int]@);
        if str_eq(m.flows[i].name.as_str(), name) {
            return Some(i);
        }
        i += 1;
    }
    None
}

fn find_step(m: &ProcessMemory, name: &str) -> (r: Option<usize>)
    ensures
        r is None ==> !is_step(m@, name@),
        r is Some ==> is_step(m@, name@),
        r matches Some(i) ==> i < m@.steps.len() && m@.steps[i as int].name == name@ && forall|j: int|
            0 <= j < i ==> (#[trigger] m@.steps[j]).name != name@,
{
    let mut i: usize = 0;
    while i < m.steps.len()
        invariant
            i <= m.steps.len(),
            forall|j: int| 0 <= j < i ==> (#[trigger] m@.steps[j]).name != name@,
        decreases m.steps.len() - i,
    {
        assert(m@.steps[i as int] == m.steps@[i as int]@);
        if str_eq(m.steps[i].name.as_str(), name) {
            return Some(i);
        }
        i += 1;
    }
    None
}

/// The canonical identities in a process memory that a query names.
pub open spec fn process_canonical(m: ProcessMemoryV, query: Seq<char>) -> Seq<Seq<char>> {
    let (w, name) = split_spec(query, process_kinds(), 0);
    let a: Seq<Seq<char>> = if wants(w, "role"@) && is_role(m, name) {
        seq!["role::"@ + name]
    } else {
        Seq::empty()
    };
    let b = if wants(w, "policy"@) && is_policy(m, name) {
        a.push("policy::"@ + name)
    } else {
        a
    };
    let c = if wants(w, "flow"@) && is_flow(m, name) {
        b.push("flow::"@ + name)
    } else {
        b
    };
    if wants(w, "step"@) && is_step(m, name) {
        c.push("step::"@ + name)
    } else {
        c
    }
}

/// The canonical identities in process memory that a query names.
pub fn canonical(memory: &Memory<ProcessMemory>, query: &str) -> (found: Vec<String>)
    ensures
        match *memory {
            Memory::Present(m) => texts(found@) == process_canonical(m@, query@),
            _ => found@.len() == 0,
        },
{
    let m = match memory.present() {
        Some(m) => m,
        None => {
            return Vec::new();
        },
    };
    let (w, name) = split(query, &kinds());
    let ghost sw = split_spec(query@, process_kinds(), 0).0;
    assert(split_spec(query@, process_kinds(), 0).1 == name@);
    let mut found: Vec<String> = Vec::new();
    if wanted(w, "role") && find_role(m, name.as_str()).is_some() {
        found.push(joined("role::", name.as_str()));
    }
    let ghost a = texts(found@);
    assert(a =~= (if wants(sw, "role"@) && is_role(m@, name@) {
        seq!["role::"@ + name@]
    } else {
        Seq::<Seq<char>>::empty()
    }));
    if wanted(w, "policy") && find_policy(m, name.as_str()).is_some() {
        found.push(joined("policy::", name.as_str()));
        assert(texts(found@) =~= a.push("policy::"@ + name@));
    }
    let ghost b = texts(found@);
    if wanted(w, "flow") && find_flow(m, name.as_str()).is_some() {
        found.push(joined("flow::", name.as_str()));
        assert(texts(found@) =~= b.push("flow::"@ + name@));
    }
    let ghost c = texts(found@);
    if wanted(w, "step") && find_step(m, name.as_str()).is_some() {
        found.push(joined("step::", name.as_str()));
        assert(texts(found@) =~= c.push("step::"@ + name@));
    }
    found
}

/// The lines for the policies (among `ps`) that bind the role `name`.
pub open spec fn policy_lines(ps: Seq<PolicyV>, name: Seq<char>) -> Seq<Seq<char>>
    decreases ps.len(),
{
    if ps.len() == 0 {
        Seq::empty()
    } else if ps.last().applies_to.contains(name) {
        policy_lines(ps.drop_last(), name).push("policy::"@ + ps.last().name + "  "@ + ps.last().statement)
    } else {
        policy_lines(ps.drop_last(), name)
    }
}

/// The lines for the steps (among `ss`) that the role `name` carries.
pub open spec fn carried_lines(ss: Seq<StepV>, name: Seq<char>) -> Seq<Seq<char>>
    decreases ss.len(),
{
    if ss.len() == 0 {
        Seq::empty()
    } else if ss.last().role.contains(name) {
        carried_lines(ss.drop_last(), name).push("step::"@ + ss.last().name + "  flow::"@ + ss.last().flow)
    } else {
        carried_lines(ss.drop_last(), name)
    }
}

/// How a step is carried out: its command, or judgment.
pub open spec fn command_text(c: Option<Seq<char>>) -> Seq<char> {
    match c {
        Some(t) => t,
        None => "carried by judgment; no command"@,
    }
}

/// The lines for the steps (among `ss`) of the flow `name`.
pub open spec fn flow_lines(ss: Seq<StepV>, name: Seq<char>) -> Seq<Seq<char>>
    decreases ss.len(),
{
    if ss.len() == 0 {
        Seq::empty()
    } else if ss.last().flow == name {
        flow_lines(ss.drop_last(), name).push(
            "step::"@ + ss.last().name + "  "@ + join(prefix_all("role::"@, ss.last().role), " "@) + "  "@
                + command_text(ss.last().command),
        )
    } else {
        flow_lines(ss.drop_last(), name)
    }
}

/// Whether `v` holds nothing but what its own kind fills.
pub open spec fn process_blank_except(v: ProcessExplainView, kind: Seq<char>) -> bool {
    &&& kind != "role"@ ==> v.owns@.len() == 0 && v.verification is None && v.model@.len() == 0
        && v.policies@.len() == 0
    &&& kind != "role"@ && kind != "policy"@ ==> v.consult@.len() == 0
    &&& kind != "role"@ && kind != "flow"@ ==> v.steps@.len() == 0
    &&& kind != "policy"@ && kind != "step"@ ==> v.applies_to@.len() == 0
    &&& kind != "step"@ ==> v.flow is None && v.command is None
}

/// Whether a query names an entry of a process memory.
pub open spec fn process_explains(m: ProcessMemoryV, query: Seq<char>) -> bool {
    let (w, name) = split_spec(query, process_kinds(), 0);
    ||| wants(w, "role"@) && is_role(m, name)
    ||| wants(w, "policy"@) && is_policy(m, name)
    ||| wants(w, "flow"@) && is_flow(m, name)
    ||| wants(w, "step"@) && is_step(m, name)
}

pub open spec fn first_role(m: ProcessMemoryV, name: Seq<char>) -> int {
    choose|i: int|
        0 <= i < m.roles.len() && (#[trigger] m.roles[i]).name == name && forall|j: int|
            0 <= j < i ==> (#[trigger] m.roles[j]).name != name
}

pub open spec fn first_policy(m: ProcessMemoryV, name: Seq<char>) -> int {
    choose|i: int|
        0 <= i < m.policies.len() && (#[trigger] m.policies[i]).name == name && forall|j: int|
            0 <= j < i ==> (#[trigger] m.policies[j]).name != name
}

pub open spec fn first_flow(m: ProcessMemoryV, name: Seq<char>) -> int {
    choose|i: int|
        0 <= i < m.flows.len() && (#[trigger] m.flows[i]).name == name && forall|j: int|
            0 <= j < i ==> (#[trigger] m.flows[j]).name != name
}

pub open spec fn first_step(m: ProcessMemoryV, name: Seq<char>) -> int {
    choose|i: int|
        0 <= i < m.steps.len() && (#[trigger] m.steps[i]).name == name && forall|j: int|
            0 <= j < i ==> (#[trigger] m.steps[j]).name != name
}

/// What `explain` says of the entry a query names in a process memory.
pub open spec fn process_explained(m: ProcessMemoryV, query: Seq<char>, v: ProcessExplainView) -> bool {
    let (w, name) = split_spec(query, process_kinds(), 0);
    if wants(w, "role"@) && is_role(m, name) {
        let r = m.roles[first_role(m, name)];
        &&& v.kind@ == "role"@
        &&& v.id@ == "role::"@ + r.name
        &&& v.statement@ == r.purpose
        &&& texts(v.owns@) == r.owns
        &&& opt_text(v.verification) == r.verification
        &&& texts(v.model@) == r.model
        &&& texts(v.policies@) == policy_lines(m.policies, r.name)
        &&& texts(v.consult@) == prefix_all("knowledge::"@, r.consult)
        &&& texts(v.steps@) == carried_lines(m.steps, r.name)
        &&& process_blank_except(v, "role"@)
    } else if wants(w, "policy"@) && is_policy(m, name) {
        let p = m.policies[first_policy(m, name)];
        &&& v.kind@ == "policy"@
        &&& v.id@ == "policy::"@ + p.name
        &&& v.statement@ == p.statement
        &&& texts(v.applies_to@) == prefix_all("role::"@, p.applies_to)
        &&& texts(v.consult@) == prefix_all("knowledge::"@, p.consult)
        &&& process_blank_except(v, "policy"@)
    } else if wants(w, "flow"@) && is_flow(m, name) {
        let f = m.flows[first_flow(m, name)];
        &&& v.kind@ == "flow"@
        &&& v.id@ == "flow::"@ + f.name
        &&& v.statement@ == f.purpose
        &&& texts(v.steps@) == flow_lines(m.steps, f.name)
        &&& process_blank_except(v, "flow"@)
    } else {
        let s = m.steps[first_step(m, name)];
        &&& v.kind@ == "step"@
        &&& v.id@ == "step::"@ + s.name
        &&& v.statement@ == s.statement
        &&& v.flow matches Some(f) && f@ == "flow::"@ + s.flow
        &&& texts(v.applies_to@) == prefix_all("role::"@, s.role)
        &&& opt_text(v.command) == s.command
        &&& process_blank_except(v, "step"@)
    }
}

fn policies_of(m: &ProcessMemory, name: &str) -> (v: Vec<String>)
    ensures
        texts(v@) == policy_lines(m@.policies, name@),
{
    let mut v: Vec<String> = Vec::new();
    assert(texts(v@) =~= Seq::<Seq<char>>::empty());
    let mut i: usize = 0;
    while i < m.policies.len()
        invariant
            i <= m.policies.len(),
            texts(v@) == policy_lines(m@.policies.take(i as int), name@),
        decreases m.policies.len() - i,
    {
        let p = &m.policies[i];
        assert(m@.policies.take(i + 1).drop_last() =~= m@.policies.take(i as int));
        assert(m@.policies.take(i + 1).last() == p@);
        if has_text(&p.applies_to, name) {
            let mut line = joined("policy::", p.name.as_str());
            append(&mut line, "  ");
            append(&mut line, p.statement.as_str());
            let ghost before = v@;
            v.push(line);
            assert(texts(v@) =~= texts(before).push(line@));
        }
        i += 1;
    }
    assert(m@.policies.take(i as int) =~= m@.policies);
    v
}

fn carried_of(m: &ProcessMemory, name: &str) -> (v: Vec<String>)
    ensures
        texts(v@) == carried_lines(m@.steps, name@),
{
    let mut v: Vec<String> = Vec::new();
    assert(texts(v@) =~= Seq::<Seq<char>>::empty());
    let mut i: usize = 0;
    while i < m.steps.len()
        invariant
            i <= m.steps.len(),
            texts(v@) == carried_lines(m@.steps.take(i as int), name@),
        decreases m.steps.len() - i,
    {
        let s = &m.steps[i];
        assert(m@.steps.take(i + 1).drop_last() =~= m@.steps.take(i as int));
        assert(m@.steps.take(i + 1).last() == s@);
        if has_text(&s.role, name) {
            let mut line = joined("step::", s.name.as_str());
            append(&mut line, "  flow::");
            append(&mut line, s.flow.as_str());
            let ghost before = v@;
            v.push(line);
            assert(texts(v@) =~= texts(before).push(line@));
        }
        i += 1;
    }
    assert(m@.steps.take(i as int) =~= m@.steps);
    v
}

fn flow_steps_of(m: &ProcessMemory, name: &str) -> (v: Vec<String>)
    ensures
        texts(v@) == flow_lines(m@.steps, name@),
{
    let mut v: Vec<String> = Vec::new();
    assert(texts(v@) =~= Seq::<Seq<char>>::empty());
    let mut i: usize = 0;
    while i < m.steps.len()
        invariant
            i <= m.steps.len(),
            texts(v@) == flow_lines(m@.steps.take(i as int), name@),
        decreases m.steps.len() - i,
    {
        let s = &m.steps[i];
        assert(m@.steps.take(i + 1).drop_last() =~= m@.steps.take(i as int));
        assert(m@.steps.take(i + 1).last() == s@);
        if str_eq(s.flow.as_str(), name) {
            let mut line = joined("step::", s.name.as_str());
            append(&mut line, "  ");
            let carriers = prefixed("role::", &s.role);
            append(&mut line, crate::text::join_strings(&carriers, " ").as_str());
            append(&mut line, "  ");
            match &s.command {
                Some(c) => append(&mut line, c.as_str()),
                None => append(&mut line, "carried by judgment; no command"),
            }
            let ghost before = v@;
            v.push(line);
            assert(texts(v@) =~= texts(before).push(line@));
        }
        i += 1;
    }
    assert(m@.steps.take(i as int) =~= m@.steps);
    v
}

fn copy_option(o: &Option<String>) -> (c: Option<String>)
    ensures
        opt_text(c) == opt_text(*o),
{
    match o {
        Some(s) => Some(s.clone()),
        None => None,
    }
}

/// What process memory says of the entry a query names: a role with its policies, packs and
/// steps; a policy with the roles it binds; a flow with its steps; a step with its flow.
pub fn explain(memory: &Memory<ProcessMemory>, query: &str) -> (r: Option<ProcessExplainView>)
    ensures
        match *memory {
            Memory::Present(m) => if process_explains(m@, query@) {
                r matches Some(v) && process_explained(m@, query@, v)
            } else {
                r is None
            },
            _ => r is None,
        },
{
    let m = match memory.present() {
        Some(m) => m,
        None => {
            return None;
        },
    };
    let (w, name) = split(query, &kinds());
    assert(split_spec(query@, process_kinds(), 0).1 == name@);
    if wanted(w, "role") {
        match find_role(m, name.as_str()) {
            Some(i) => {
                let r = &m.roles[i];
                assert(m@.roles[i as int] == r@);
                return Some(
                    ProcessExplainView {
                        kind: "role",
                        id: joined("role::", r.name.as_str()),
                        statement: r.purpose.clone(),
                        owns: copy_strings(&r.owns),
                        verification: copy_option(&r.verification),
                        model: copy_strings(&r.model),
                        policies: policies_of(m, r.name.as_str()),
                        applies_to: Vec::new(),
                        consult: prefixed("knowledge::", &r.consult),
                        steps: carried_of(m, r.name.as_str()),
                        flow: None,
                        command: None,
                    },
                );
            },
            None => {},
        }
    }
    if wanted(w, "policy") {
        match find_policy(m, name.as_str()) {
            Some(i) => {
                let p = &m.policies[i];
                assert(m@.policies[i as int] == p@);
                return Some(
                    ProcessExplainView {
                        kind: "policy",
                        id: joined("policy::", p.name.as_str()),
                        statement: p.statement.clone(),
                        owns: Vec::new(),
                        verification: None,
                        model: Vec::new(),
                        policies: Vec::new(),
                        applies_to: prefixed("role::", &p.applies_to),
                        consult: prefixed("knowledge::", &p.consult),
                        steps: Vec::new(),
                        flow: None,
                        command: None,
                    },
                );
            },
            None => {},
        }
    }
    if wanted(w, "flow") {
        match find_flow(m, name.as_str()) {
            Some(i) => {
                let f = &m.flows[i];
                assert(m@.flows[i as int] == f@);
                return Some(
                    ProcessExplainView {
                        kind: "flow",
                        id: joined("flow::", f.name.as_str()),
                        statement: f.purpose.clone(),
                        owns: Vec::new(),
                        verification: None,
                        model: Vec::new(),
                        policies: Vec::new(),
                        applies_to: Vec::new(),
                        consult: Vec::new(),
                        steps: flow_steps_of(m, f.name.as_str()),
                        flow: None,
                        command: None,
                    },
                );
            },
            None => {},
        }
    }
    if wanted(w, "step") {
        match find_step(m, name.as_str()) {
            Some(i) => {
                let s = &m.steps[i];
                assert(m@.steps[i as int] == s@);
                return Some(
                    ProcessExplainView {
                        kind: "step",
                        id: joined("step::", s.name.as_str()),
                        statement: s.statement.clone(),
                        owns: Vec::new(),
                        verification: None,
                        model: Vec::new(),
                        policies: Vec::new(),
                        applies_to: prefixed("role::", &s.role),
                        consult: Vec::new(),
                        steps: Vec::new(),
                        flow: Some(joined("flow::", s.flow.as_str())),
                        command: copy_option(&s.command),
                    },
                );
            },
            None => {},
        }
    }
    None
}

/// A process memory that `validate` finds sound resolves every reference: each step belongs
/// to a declared flow and is carried by at least one role, and each flow has a step.
pub proof fn law_sound_process_resolves(m: ProcessMemoryV)
    requires
        process_problems(m).len() == 0,
    ensures
        forall|i: int, j: int|
            0 <= i < j < process_names(m).len() ==> (#[trigger] process_names(m)[i]).0 != (#[trigger] process_names(
                m,
            )[j]).0,
        forall|i: int| 0 <= i < m.steps.len() ==> is_flow(m, (#[trigger] m.steps[i]).flow) && m.steps[i].role.len() > 0,
        forall|i: int| 0 <= i < m.flows.len() ==> has_step_in(m, (#[trigger] m.flows[i]).name),
{
    super::law_no_duplicate_problem_means_distinct_names(process_names(m));
    assert forall|i: int| 0 <= i < m.steps.len() implies is_flow(m, (#[trigger] m.steps[i]).flow) && m.steps[i].role.len()
        > 0 by {
        lemma_steps_problems_empty(m, m.steps.len() as int, i);
    }
    assert forall|i: int| 0 <= i < m.flows.len() implies has_step_in(m, (#[trigger] m.flows[i]).name) by {
        lemma_flows_problems_empty(m, m.flows.len() as int, i);
    }
}

proof fn lemma_steps_problems_empty(m: ProcessMemoryV, n: int, i: int)
    requires
        0 <= i < n <= m.steps.len(),
        steps_problems(m, n).len() == 0,
    ensures
        is_flow(m, m.steps[i].flow) && m.steps[i].role.len() > 0,
    decreases n,
{
    if i < n - 1 {
        lemma_steps_problems_empty(m, n - 1, i);
    }
}

proof fn lemma_flows_problems_empty(m: ProcessMemoryV, n: int, i: int)
    requires
        0 <= i < n <= m.flows.len(),
        flows_problems(m, n).len() == 0,
    ensures
        has_step_in(m, m.flows[i].name),
    decreases n,
{
    if i < n - 1 {
        lemma_flows_problems_empty(m, n - 1, i);
    }
}

} // verus!
