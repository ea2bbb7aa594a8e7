use blabla::memory::goal::{self, Goal, GoalMemory, Verdict};
use blabla::memory::knowledge;
use blabla::memory::mission;
use blabla::memory::process;
use blabla::memory::routing;
use blabla::memory::syntax::{Block, is_identity_safe, kind, parse};
use blabla::memory::system;
use blabla::memory::{Memory, Source, read, read_all, said, source_of, unregistered, unregistered_directory};

fn blocks(source: &str) -> Vec<Block> {
    parse("memory.bla", source).expect("the memory file parses")
}

const MISSION: &str = "mission \"ship\" {\n  statement \"ship the tool\"\n  non_goals [\"gui\", \"cloud\"]\n}\npriority \"speed\" {\n  statement \"fast feedback\"\n}\n";

#[test]
fn memory_files_parse_into_declarations_with_fields() {
    let found = blocks(MISSION);
    assert_eq!(found.len(), 2);
    assert_eq!(found[0].keyword, "mission");
    assert_eq!(found[0].name, "ship");
    assert_eq!(found[0].location.line, 1);
    let non_goals = found[0].field("non_goals").expect("non_goals is there");
    assert!(non_goals.list);
    assert_eq!(non_goals.values, vec!["gui".to_owned(), "cloud".to_owned()]);
    assert_eq!(found[0].field("statement").unwrap().text(), "ship the tool");
    assert!(found[0].field("absent").is_none());
    assert_eq!(found[1].location.line, 5);
}

#[test]
fn a_memory_file_is_refused_for_bad_names_fields_and_unclosed_declarations() {
    let bad_name = parse("m.bla", "mission \"no good\" { statement \"x\" }").unwrap_err();
    assert_eq!(bad_name.code, "E_MEMORY_NAME");
    let twice = parse("m.bla", "mission \"m\" {\n statement \"a\"\n statement \"b\"\n}").unwrap_err();
    assert_eq!(twice.code, "E_MEMORY_FIELD");
    assert_eq!(twice.message, "`statement` is given twice in `mission \"m\"`; the first is at line 2");
    assert_eq!(twice.location.line, 3);
    let open = parse("m.bla", "mission \"m\" { statement \"a\"").unwrap_err();
    assert_eq!(open.code, "E_MEMORY_SYNTAX");
    assert_eq!(open.message, "`mission \"m\"` is never closed with `}`");
    let keyword = parse("m.bla", "\"m\"").unwrap_err();
    assert_eq!(keyword.code, "E_MEMORY_SYNTAX");
    let brace = parse("m.bla", "mission \"m\" statement").unwrap_err();
    assert_eq!(brace.message, "expected `{` after `mission \"m\"`");
    let list = parse("m.bla", "mission \"m\" { non_goals [x] }").unwrap_err();
    assert_eq!(list.message, "`non_goals` takes quoted values");
}

#[test]
fn identity_safe_names_start_with_a_letter_or_digit() {
    assert!(is_identity_safe("core-api_2"));
    assert!(is_identity_safe("9lives"));
    assert!(!is_identity_safe(""));
    assert!(!is_identity_safe("-lead"));
    assert!(!is_identity_safe("has space"));
    assert!(!is_identity_safe("a::b"));
}

#[test]
fn the_first_keyword_tells_the_kind_of_memory() {
    assert_eq!(kind("f.bla", "system \"a\" {}"), Some("system"));
    assert_eq!(kind("f.bla", "step \"a\" {}"), Some("process"));
    assert_eq!(kind("f.bla", "priority \"a\" {}"), Some("mission"));
    assert_eq!(kind("f.bla", "ruling \"a\" {}"), Some("knowledge"));
    assert_eq!(kind("f.bla", "project X"), None);
    assert_eq!(kind("f.bla", "\"unterminated"), None);
}

#[test]
fn mission_memory_builds_validates_and_explains() {
    let memory = mission::build(&blocks(MISSION)).expect("mission memory builds");
    let declared = memory.mission.as_ref().expect("a mission is declared");
    assert_eq!(declared.name, "ship");
    assert_eq!(declared.non_goals.len(), 2);
    assert_eq!(memory.priorities.len(), 1);
    assert!(mission::validate(&memory).is_empty());
    let present = Memory::Present(memory);
    assert_eq!(mission::canonical(&present, "ship"), vec!["mission::ship".to_owned()]);
    assert_eq!(mission::canonical(&present, "priority::speed"), vec!["priority::speed".to_owned()]);
    assert!(mission::canonical(&present, "priority::ship").is_empty());
    let view = mission::explain(&present, "mission::ship").expect("the mission is explained");
    assert_eq!(view.kind, "mission");
    assert_eq!(view.priorities, vec!["priority::speed  fast feedback".to_owned()]);
    assert_eq!(view.non_goals, vec!["gui".to_owned(), "cloud".to_owned()]);
    let priority = mission::explain(&present, "speed").expect("the priority is explained");
    assert_eq!(priority.id, "priority::speed");
    assert!(mission::explain(&present, "nothing").is_none());
    let status = mission::status(&present, "mission.bla").expect("registered memory has a status");
    assert_eq!(status.state, "present");
    assert_eq!(status.mission, Some("mission::ship".to_owned()));
    assert_eq!(status.priorities, 1);
    assert_eq!(status.non_goals, 2);
    assert!(mission::status(&Memory::Unregistered, "mission.bla").is_none());
}

#[test]
fn mission_memory_refuses_a_second_mission_and_reports_shared_names() {
    let second = mission::build(&blocks("mission \"a\" { statement \"x\" }\nmission \"b\" { statement \"y\" }"))
        .unwrap_err();
    assert_eq!(second.code, "E_MEMORY_DECLARATION");
    assert_eq!(
        second.message,
        "`mission \"b\"` is a second mission declaration; a project states one mission, and \"a\" is already declared"
    );
    let stray = mission::build(&blocks("system \"a\" { purpose \"x\" }")).unwrap_err();
    assert_eq!(stray.message, "`system` is not a declaration of this memory; it declares `mission`, `priority`");
    let extra = mission::build(&blocks("priority \"p\" { statement \"x\" owner \"o\" }")).unwrap_err();
    assert_eq!(extra.message, "`owner` is not a field of `priority`; it takes `statement`");
    let missing = mission::build(&blocks("priority \"p\" { }")).unwrap_err();
    assert_eq!(missing.message, "`priority \"p\"` needs `statement`");
    let listed = mission::build(&blocks("priority \"p\" { statement [\"x\"] }")).unwrap_err();
    assert_eq!(listed.message, "`statement` takes one quoted value, not a list");
    let shared = mission::build(&blocks("mission \"a\" { statement \"x\" }\npriority \"a\" { statement \"y\" }"))
        .unwrap();
    assert_eq!(
        mission::validate(&shared),
        vec![
            "the name \"a\" is declared twice, as the mission and as a priority; every name must resolve to one entry"
                .to_owned()
        ]
    );
    let none = mission::build(&blocks("priority \"p\" { statement \"y\" }")).unwrap();
    assert_eq!(mission::validate(&none).len(), 1);
}

const KNOWLEDGE: &str = "knowledge \"rust\" { purpose \"how we write rust\" }\nruling \"errors\" { pack \"rust\" statement \"use results\" }\nknowledge \"ops\" { purpose \"operations\" }\n";

#[test]
fn knowledge_memory_resolves_packs_and_rulings() {
    let memory = knowledge::build(&blocks(KNOWLEDGE)).expect("knowledge builds");
    assert!(memory.declares("rust"));
    assert!(!memory.declares("go"));
    assert_eq!(memory.pack_names(), vec!["rust", "ops"]);
    assert_eq!(memory.rulings[0].id(), "ruling::rust::errors");
    assert_eq!(
        knowledge::validate(&memory),
        vec!["pack \"ops\" declares no ruling; a pack that routing points at must carry expertise".to_owned()]
    );
    let present = Memory::Present(memory);
    assert_eq!(knowledge::canonical(&present, "knowledge::rust"), vec!["knowledge::rust".to_owned()]);
    assert_eq!(knowledge::canonical(&present, "ruling::rust"), vec!["ruling::rust::errors".to_owned()]);
    assert_eq!(knowledge::canonical(&present, "ruling::rust::errors"), vec!["ruling::rust::errors".to_owned()]);
    assert_eq!(knowledge::canonical(&present, "errors"), vec!["ruling::rust::errors".to_owned()]);
    let pack = knowledge::explain(&present, "rust").expect("the pack is explained");
    assert_eq!(pack.kind, "knowledge");
    assert_eq!(pack.rulings, vec!["ruling::rust::errors".to_owned()]);
    let ruling = knowledge::explain(&present, "ruling::rust::errors").expect("the ruling is explained");
    assert_eq!(ruling.pack, Some("knowledge::rust".to_owned()));
    assert!(knowledge::explain(&present, "ruling::rust").is_none());
    let status = knowledge::status(&present, &vec!["knowledge/a.bla".to_owned()]).unwrap();
    assert_eq!(status.packs, vec!["knowledge::rust".to_owned(), "knowledge::ops".to_owned()]);
    assert_eq!(status.rulings, 1);
}

#[test]
fn knowledge_validation_reports_stray_and_repeated_rulings() {
    let memory = knowledge::build(&blocks(
        "knowledge \"a\" { purpose \"x\" }\nknowledge \"a\" { purpose \"y\" }\nruling \"r\" { pack \"a\" statement \"s\" }\nruling \"r\" { pack \"a\" statement \"t\" }\nruling \"q\" { pack \"b\" statement \"u\" }\n",
    ))
    .unwrap();
    assert_eq!(
        knowledge::validate(&memory),
        vec![
            "the pack \"a\" is declared twice; knowledge::a must resolve to one pack".to_owned(),
            "pack \"a\" declares the ruling \"r\" twice; ruling names are unique inside a pack and may repeat between packs".to_owned(),
            "ruling \"q\" belongs to pack \"b\", which is not a declared pack".to_owned(),
        ]
    );
    let unsafe_pack = knowledge::build(&blocks("ruling \"r\" { pack \"not safe\" statement \"s\" }")).unwrap_err();
    assert_eq!(unsafe_pack.code, "E_MEMORY_NAME");
}

const SYSTEM: &str = "system \"api\" { purpose \"serves\" paths [\"src/api\"] knowledge [\"rust\"] }\nsystem \"db\" { purpose \"stores\" }\nresponsibility \"auth\" { owner \"api\" statement \"checks tokens\" }\nseam \"rows\" { between [\"api\", \"db\"] value \"records\" statement \"rows move\" }\n";

#[test]
fn system_memory_explains_systems_with_what_they_own_and_their_seams() {
    let memory = system::build(&blocks(SYSTEM)).expect("system memory builds");
    assert!(system::validate(&memory).is_empty());
    let present = Memory::Present(memory);
    let api = system::explain(&present, "system::api").expect("the system is explained");
    assert_eq!(api.paths, vec!["src/api".to_owned()]);
    assert_eq!(api.owns, vec!["responsibility::auth  checks tokens".to_owned()]);
    assert_eq!(api.seams, vec!["seam::rows  with system::db, value records".to_owned()]);
    assert_eq!(api.knowledge, vec!["knowledge::rust".to_owned()]);
    let auth = system::explain(&present, "auth").unwrap();
    assert_eq!(auth.kind, "responsibility");
    assert_eq!(auth.owner, Some("system::api".to_owned()));
    let rows = system::explain(&present, "seam::rows").unwrap();
    assert_eq!(rows.between, vec!["system::api".to_owned(), "system::db".to_owned()]);
    assert_eq!(rows.value, Some("records".to_owned()));
    assert_eq!(system::canonical(&present, "db"), vec!["system::db".to_owned()]);
    let status = system::status(&present, "system.bla").unwrap();
    assert_eq!(status.systems, vec!["system::api".to_owned(), "system::db".to_owned()]);
    assert_eq!((status.responsibilities, status.seams), (1, 1));
}

#[test]
fn system_validation_reports_unknown_owners_and_lopsided_seams() {
    let memory = system::build(&blocks(
        "system \"a\" { purpose \"x\" }\nresponsibility \"r\" { owner \"b\" statement \"s\" }\nseam \"s\" { between [\"a\"] value \"v\" statement \"t\" }\n",
    ))
    .unwrap();
    assert_eq!(
        system::validate(&memory),
        vec![
            "responsibility \"r\" is owned by \"b\", which is not a declared system".to_owned(),
            "seam \"s\" lists 1 sides; a seam is between exactly two systems".to_owned(),
        ]
    );
}

const PROCESS: &str = "role \"worker\" { purpose \"changes code\" consult [\"rust\"] }\npolicy \"review\" { statement \"review everything\" applies_to [\"worker\"] }\nflow \"change\" { purpose \"one change\" }\nstep \"edit\" { flow \"change\" role [\"worker\"] statement \"edit code\" command \"cargo test\" }\n";

#[test]
fn process_memory_explains_roles_flows_and_steps() {
    let memory = process::build(&blocks(PROCESS)).expect("process memory builds");
    assert!(process::validate(&memory).is_empty());
    let present = Memory::Present(memory);
    let worker = process::explain(&present, "role::worker").unwrap();
    assert_eq!(worker.policies, vec!["policy::review  review everything".to_owned()]);
    assert_eq!(worker.steps, vec!["step::edit  flow::change".to_owned()]);
    assert_eq!(worker.consult, vec!["knowledge::rust".to_owned()]);
    let flow = process::explain(&present, "flow::change").unwrap();
    assert_eq!(flow.steps, vec!["step::edit  role::worker  cargo test".to_owned()]);
    let step = process::explain(&present, "edit").unwrap();
    assert_eq!(step.flow, Some("flow::change".to_owned()));
    assert_eq!(step.command, Some("cargo test".to_owned()));
    assert_eq!(process::canonical(&present, "review"), vec!["policy::review".to_owned()]);
    let status = process::status(&present, "process.bla").unwrap();
    assert_eq!(status.roles, vec!["role::worker".to_owned()]);
    assert_eq!(status.flows, vec!["flow::change".to_owned()]);
}

#[test]
fn process_validation_reports_unbound_policies_and_orphan_steps() {
    let memory = process::build(&blocks(
        "flow \"f\" { purpose \"x\" }\npolicy \"p\" { statement \"s\" applies_to [] }\nstep \"s\" { flow \"g\" role [] statement \"t\" }\n",
    ))
    .unwrap();
    assert_eq!(
        process::validate(&memory),
        vec![
            "policy \"p\" applies to no role; a policy names the roles it binds".to_owned(),
            "step \"s\" belongs to flow \"g\", which is not a declared flow".to_owned(),
            "step \"s\" names no role; a step says which role carries it".to_owned(),
            "flow \"f\" declares no step; a flow whose steps are absent describes no loop".to_owned(),
        ]
    );
}

#[test]
fn routing_reports_packs_that_do_not_resolve() {
    let systems = system::build(&blocks(SYSTEM)).unwrap();
    let processes = process::build(&blocks(PROCESS)).unwrap();
    let packs = knowledge::build(&blocks(KNOWLEDGE)).unwrap();
    assert!(routing::system_problems(&systems, &Memory::Present(packs.clone())).is_empty());
    let other = knowledge::build(&blocks("knowledge \"go\" { purpose \"x\" }")).unwrap();
    assert_eq!(
        routing::process_problems(&processes, &Memory::Present(other)),
        vec!["role \"worker\" consults knowledge pack \"rust\", but no registered pack declares it; declared packs are go".to_owned()]
    );
    assert_eq!(
        routing::system_problems(&systems, &Memory::Unregistered),
        vec!["system \"api\" names knowledge pack \"rust\", but no knowledge memory is registered; register the pack with `knowledge \"path\"` in project.bla".to_owned()]
    );
    assert_eq!(
        routing::system_problems(&systems, &Memory::Missing("gone".to_owned())),
        vec!["system \"api\" names knowledge pack \"rust\", but knowledge memory is missing, so no pack resolves".to_owned()]
    );
}

#[test]
fn memory_states_and_problems_follow_how_it_was_read() {
    let unregistered_memory: Memory<GoalMemory> = unregistered(false, "goals.bla", "goals");
    assert_eq!(unregistered_memory.state(), "unregistered");
    let ignored: Memory<GoalMemory> = unregistered(true, "goals.bla", "goals");
    assert_eq!(ignored.state(), "unregistered");
    assert_eq!(
        ignored.problems(),
        vec!["goals.bla is present but no `goals \"goals.bla\"` statement registers it, so nothing was read".to_owned()]
    );
    let none: Memory<GoalMemory> = unregistered_directory(&Vec::new(), "knowledge");
    assert_eq!(none.state(), "unregistered");
    let found: Memory<GoalMemory> =
        unregistered_directory(&vec!["knowledge/a.bla".to_owned(), "knowledge/b.bla".to_owned()], "knowledge");
    assert_eq!(
        found.problems(),
        vec!["knowledge/a.bla, knowledge/b.bla is present but no `knowledge \"path\"` statement registers it, so nothing was read".to_owned()]
    );
    let present: Memory<GoalMemory> = Memory::Present(GoalMemory::default());
    assert!(present.present().is_some());
    let invalid = present.with_problems(vec!["wrong".to_owned()]);
    assert_eq!(invalid.state(), "invalid");
    let more = invalid.with_problems(vec!["worse".to_owned()]);
    assert_eq!(more.problems(), vec!["wrong".to_owned(), "worse".to_owned()]);
    let same = more.with_problems(Vec::new());
    assert_eq!(same.problems().len(), 2);
}

#[test]
fn registered_files_are_read_or_reported() {
    let missing = source_of("mission.bla", false, false, Ok(String::new()));
    let memory = read(missing, mission::build, mission::validate);
    assert_eq!(memory.state(), "missing");
    assert_eq!(memory.problems(), vec!["mission.bla is registered by project.bla but no file exists there".to_owned()]);
    let json = read(source_of("m.json", true, true, Ok(String::new())), mission::build, mission::validate);
    assert_eq!(json.problems(), vec!["m.json is JSON; project memory is authored in BlaBla's own .bla syntax".to_owned()]);
    let broken = read(source_of("m.bla", true, false, Ok("mission".to_owned())), mission::build, mission::validate);
    assert_eq!(broken.state(), "unreadable");
    assert_eq!(broken.problems()[0], "m.bla:1:8 [E_MEMORY_SYNTAX] expected a quoted name after `mission`");
    let sound = read(source_of("m.bla", true, false, Ok(MISSION.to_owned())), mission::build, mission::validate);
    assert_eq!(sound.state(), "present");
    let invalid = read(
        source_of("m.bla", true, false, Ok("priority \"p\" { statement \"x\" }".to_owned())),
        mission::build,
        mission::validate,
    );
    assert_eq!(invalid.state(), "invalid");
    let both = read_all(
        vec![
            source_of("k/a.bla", true, false, Ok("knowledge \"a\" { purpose \"x\" }".to_owned())),
            source_of("k/b.bla", true, false, Ok("ruling \"r\" { pack \"a\" statement \"y\" }".to_owned())),
        ],
        knowledge::build,
        knowledge::validate,
    );
    assert_eq!(both.state(), "present");
    let gone = read_all(
        vec![
            source_of("k/a.bla", false, false, Ok(String::new())),
            source_of("k/b.bla", true, true, Ok(String::new())),
        ],
        knowledge::build,
        knowledge::validate,
    );
    assert_eq!(gone.state(), "missing");
    assert!(matches!(source_of("x.bla", true, false, Err("denied".to_owned())), Source::Unreadable(m) if m == "x.bla could not be read: denied"));
}

#[test]
fn said_writes_a_refusal_on_one_line() {
    let d = parse("f.bla", "mission").unwrap_err();
    assert_eq!(said(&d), "f.bla:1:8 [E_MEMORY_SYNTAX] expected a quoted name after `mission`");
}

fn goal(name: &str, state: &str, expect: &[&str]) -> Goal {
    Goal {
        name: name.to_owned(),
        serves: vec!["speed".to_owned()],
        statement: format!("{name} works"),
        expect: expect.iter().map(|e| (*e).to_owned()).collect(),
        state: state.to_owned(),
    }
}

#[test]
fn goal_outcomes_count_each_verdict_and_add_up() {
    let g = goal("fast", "active", &["core::add", "contract::core", "core::slow"]);
    let outcome = goal::outcome(&g, |identity: &str| if identity == "core::slow" { Verdict::NotHeld } else { Verdict::Held });
    assert_eq!(outcome.goal, "goal::fast");
    assert_eq!((outcome.expected, outcome.held, outcome.not_held), (3, 2, 1));
    assert_eq!(outcome.held + outcome.not_held + outcome.unverified + outcome.unresolved, outcome.expected);
    assert!(!outcome.holds());
    assert!(!outcome.ready_to_close());
    let held = goal::outcome(&g, |_: &str| Verdict::Held);
    assert!(held.holds() && held.ready_to_close() && !held.unmet());
    let done = goal::outcome(&goal("d", "done", &["a::b"]), |_: &str| Verdict::Unverified);
    assert!(done.unmet());
    assert_eq!(Verdict::NotHeld.word(), "not-held");
}

#[test]
fn goal_memory_validates_states_and_identities() {
    let memory = goal::build(&blocks(
        "goal \"a\" { statement \"x\" expect [\"core::add\", \"contract::core\"] state \"active\" serves [\"speed\"] }\ngoal \"b\" { statement \"y\" expect [\"core\", \"core:: padded\"] state \"paused\" }\ngoal \"a\" { statement \"z\" expect [] state \"done\" }\n",
    ))
    .unwrap();
    assert_eq!(memory.goals.len(), 3);
    assert_eq!(
        goal::validate(&memory),
        vec![
            "goal \"b\" has state \"paused\"; a goal's state is one of active, done, dropped".to_owned(),
            "goal \"b\" expects \"core\", which is not a canonical identity; an expectation is contract::<group> or <group>::<label>".to_owned(),
            "goal \"b\" expects \"core:: padded\", which is not a canonical identity; an expectation is contract::<group> or <group>::<label>".to_owned(),
            "the goal \"a\" is declared twice; goal::a must resolve to one goal".to_owned(),
            "goal \"a\" expects nothing; a goal names at least one rule or contract it waits on, or it would hold with nothing checked".to_owned(),
        ]
    );
    let mission_memory = mission::build(&blocks(MISSION)).unwrap();
    let fine = GoalMemory { goals: vec![goal("g", "active", &["a::b"])] };
    assert!(goal::serving_problems(&fine, &Memory::Present(mission_memory)).is_empty());
    assert_eq!(
        goal::serving_problems(&fine, &Memory::Unregistered),
        vec!["goal \"g\" serves \"speed\", but no mission memory is registered, so serves must stay empty until `mission \"path\"` registers one".to_owned()]
    );
}

#[test]
fn goal_status_canonical_and_explain_use_outcomes() {
    let memory = GoalMemory { goals: vec![goal("g", "active", &["a::b"]), goal("h", "done", &["a::c"])] };
    let present = Memory::Present(memory);
    let outcomes = goal::outcomes(&present, |_: &str| Verdict::Held);
    assert_eq!(outcomes.len(), 2);
    let status = goal::status(&present, "goals.bla", &outcomes).unwrap();
    assert_eq!(status.active.len(), 1);
    assert_eq!((status.done, status.dropped), (1, 0));
    assert_eq!(goal::canonical(&present, "goal::h"), vec!["goal::h".to_owned()]);
    assert_eq!(goal::canonical(&present, "g"), vec!["goal::g".to_owned()]);
    assert!(goal::canonical(&present, "x").is_empty());
    let view = goal::explain(&present, "goal::g", &outcomes, vec![("task::t".to_owned(), "open".to_owned())]).unwrap();
    assert_eq!(view.serves, vec!["priority::speed".to_owned()]);
    assert_eq!(view.outcome.goal, "goal::g");
    assert_eq!(view.serving_tasks.len(), 1);
    assert!(goal::explain(&present, "g", &outcomes, Vec::new()).is_none());
    assert_eq!(goal::outcomes(&Memory::<GoalMemory>::Unregistered, |_: &str| Verdict::Held).len(), 0);
}

#[test]
fn memory_explanations_come_from_the_first_memory_that_explains() {
    use_memory_explain();
}

fn use_memory_explain() {
    let present = Memory::Present(mission::build(&blocks(MISSION)).unwrap());
    let knowledge: Memory<knowledge::KnowledgeMemory> = Memory::Unregistered;
    let system: Memory<system::SystemMemory> = Memory::Unregistered;
    let process: Memory<process::ProcessMemory> = Memory::Unregistered;
    let names = blabla::cli::project::memory_names(&present, &knowledge, &system, &process, "ship");
    assert_eq!(names, vec!["mission::ship".to_owned()]);
    let mut out = "> ".to_owned();
    assert!(blabla::cli::project::write_memory_explain(&mut out, &present, &knowledge, &system, &process, "mission::ship"));
    let view = mission::explain(&present, "mission::ship").unwrap();
    let mut expected = "> ".to_owned();
    blabla::cli::project::write_mission_explain(&mut expected, &view);
    assert_eq!(out, expected);
    let mut none = String::new();
    assert!(!blabla::cli::project::write_memory_explain(&mut none, &present, &knowledge, &system, &process, "nothing"));
    assert!(none.is_empty());
    let status = mission::status(&present, "mission.bla");
    assert_eq!(blabla::cli::project::memory_exit(&status, &None, &None, &None), 0);
}
