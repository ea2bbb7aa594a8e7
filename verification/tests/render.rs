use blabla::cli::init::{Outcome, Step, chosen_name, declares_profile, write_init};
use blabla::cli::{check_memory, contract_error, error, write_error, write_memory_check};
use blabla::diagnostic::{Diagnostic, Location};
use blabla::cli::project::{
    files_text, first_word_of, write_indented, write_knowledge_explain, write_knowledge_line, write_knowledge_memory,
    write_mission_explain, write_mission_line, write_mission_memory, write_process_explain, write_process_line,
    write_process_memory, write_rows_of_four, write_system_explain, write_system_line, write_system_memory,
    write_bounded_tasks, write_primitive,
};
use blabla::memory::knowledge::{self, KnowledgeStatus};
use blabla::memory::mission::{self, MissionStatus};
use blabla::memory::process::{self, ProcessStatus};
use blabla::memory::syntax::parse;
use blabla::memory::system::{self, SystemStatus};
use blabla::memory::Memory;
use blabla::project::status::{primitive_view, rules_using};
use blabla::project::task::{TaskStatus, TaskSummary};
use blabla::project::{Rule, offer, resolve_memory};

fn strings(items: &[&str]) -> Vec<String> {
    items.iter().map(|item| (*item).to_owned()).collect()
}

#[test]
fn items_are_indented_one_to_a_line_or_four_to_a_row() {
    let mut out = String::from(">");
    write_indented(&mut out, &strings(&["a", "b"]));
    assert_eq!(out, ">  a\n  b\n");
    let mut rows = String::new();
    write_rows_of_four(&mut rows, &strings(&["a", "b", "c", "d", "e", "f"]));
    assert_eq!(rows, "  a  b  c  d\n  e  f\n");
    let mut exact = String::new();
    write_rows_of_four(&mut exact, &strings(&["a", "b", "c", "d"]));
    assert_eq!(exact, "  a  b  c  d\n");
    let mut none = String::new();
    write_rows_of_four(&mut none, &Vec::new());
    assert_eq!(none, "");
}

#[test]
fn the_first_word_skips_leading_space_and_stops_at_the_next() {
    assert_eq!(first_word_of("  step::edit  role::worker"), Some("step::edit".to_owned()));
    assert_eq!(first_word_of("alone"), Some("alone".to_owned()));
    assert_eq!(first_word_of(" \t "), None);
    assert_eq!(first_word_of(""), None);
}

#[test]
fn mission_lines_and_sections_render_as_a_status_prints_them() {
    let present = MissionStatus {
        file: "mission.bla".to_owned(),
        state: "present",
        problems: Vec::new(),
        mission: Some("mission::ship".to_owned()),
        priorities: 2,
        non_goals: 1,
    };
    let mut line = String::new();
    write_mission_line(&mut line, Some(&present));
    assert_eq!(
        line,
        "MISSION    mission::ship  2 priorities  1 non-goals   (memory only; never part of completion)\n"
    );
    let mut section = String::new();
    write_mission_memory(&mut section, Some(&present));
    assert_eq!(
        section,
        "\nMission memory (mission.bla):\n  mission::ship\n  blabla explain mission::ship   the goal, the priorities that decide a tradeoff and the non-goals\n"
    );
    let invalid = MissionStatus {
        state: "invalid",
        problems: vec!["priority \"p\" is declared twice".to_owned()],
        mission: None,
        ..present.clone()
    };
    let mut line = String::new();
    write_mission_line(&mut line, Some(&invalid));
    assert_eq!(line, "MISSION    mission.bla is invalid; no owner intent is available (completion is unaffected)\n");
    let mut section = String::new();
    write_mission_memory(&mut section, Some(&invalid));
    assert_eq!(
        section,
        "\nMission memory (mission.bla):\n  priority \"p\" is declared twice\n  Fix the file or remove the registration; nothing about completion depends on it.\n"
    );
    let mut nothing = String::from("kept");
    write_mission_line(&mut nothing, None);
    write_mission_memory(&mut nothing, None);
    assert_eq!(nothing, "kept");
}

#[test]
fn system_process_and_knowledge_lines_count_what_memory_holds() {
    let system = SystemStatus {
        file: "system.bla".to_owned(),
        state: "present",
        problems: Vec::new(),
        systems: strings(&["system::a", "system::b", "system::c", "system::d", "system::e"]),
        responsibilities: 3,
        seams: 1,
    };
    let mut out = String::new();
    write_system_line(&mut out, Some(&system));
    write_system_memory(&mut out, Some(&system));
    assert_eq!(
        out,
        "SYSTEM     5 systems  3 responsibilities  1 seams   (memory only; never part of completion)\n\nSystem memory (system.bla):\n  system::a  system::b  system::c  system::d\n  system::e\n  blabla explain system::a   its purpose, paths, the responsibilities it owns and its seams\n"
    );
    let process = ProcessStatus {
        file: "process.bla".to_owned(),
        state: "present",
        problems: Vec::new(),
        roles: strings(&["role::worker", "role::lead"]),
        policies: 1,
        flows: strings(&["flow::change"]),
        steps: 2,
    };
    let mut out = String::new();
    write_process_line(&mut out, Some(&process));
    write_process_memory(&mut out, Some(&process));
    assert_eq!(
        out,
        "PROCESS    ADVISORY  2 roles  1 policies  1 flows  2 steps   (memory only; never part of completion; not enforced)\n\nProcess memory (process.bla):\n  role::worker  role::lead\n  flow::change\n  blabla explain role::worker   its purpose, what it owns, its verification tier and the policies that bind it\n  blabla explain flow::change   the order the roles are meant to be used in, one line per step\n"
    );
    let missing = KnowledgeStatus {
        files: Vec::new(),
        state: "missing",
        problems: vec!["knowledge is registered but not there".to_owned()],
        packs: Vec::new(),
        rulings: 0,
    };
    assert_eq!(files_text(&missing.files), "knowledge");
    let mut out = String::new();
    write_knowledge_line(&mut out, Some(&missing));
    write_knowledge_memory(&mut out, Some(&missing));
    assert_eq!(
        out,
        "KNOWLEDGE  knowledge is missing; no reusable expertise is available (completion is unaffected)\n\nKnowledge memory (knowledge):\n  knowledge is registered but not there\n  Fix the file or remove the registration; nothing about completion depends on it.\n"
    );
    assert_eq!(files_text(&strings(&["knowledge/a.bla", "knowledge/b.bla"])), "knowledge/a.bla, knowledge/b.bla");
}

#[test]
fn explanations_list_only_the_sections_an_entry_has() {
    let memory = mission::build(&parse(
        "mission.bla",
        "mission \"ship\" {\n  statement \"ship the tool\"\n  non_goals [\"gui\"]\n}\npriority \"speed\" {\n  statement \"fast feedback\"\n}\n",
    )
    .unwrap())
    .unwrap();
    let view = mission::explain(&Memory::Present(memory), "ship").unwrap();
    let mut out = String::new();
    write_mission_explain(&mut out, &view);
    assert_eq!(
        out,
        "mission::ship\nKind: mission\n\nStatement:\n  ship the tool\n\nPriorities:\n  priority::speed  fast feedback\n\nNon-goals:\n  gui\n"
    );
    let memory = knowledge::build(&parse(
        "k.bla",
        "knowledge \"rust\" { purpose \"how we write rust\" }\nruling \"errors\" { pack \"rust\" statement \"use results\" }\n",
    )
    .unwrap())
    .unwrap();
    let present = Memory::Present(memory);
    let mut out = String::new();
    write_knowledge_explain(&mut out, &knowledge::explain(&present, "ruling::rust::errors").unwrap());
    assert_eq!(out, "ruling::rust::errors\nKind: ruling\n\nStatement:\n  use results\n\nPack:\n  knowledge::rust\n");
    let mut out = String::new();
    write_knowledge_explain(&mut out, &knowledge::explain(&present, "rust").unwrap());
    assert!(out.ends_with(
        "\nRulings:\n  ruling::rust::errors\n\nEach ruling is explained on demand; this view lists identities so a pack costs one line per ruling instead of one paragraph.\n"
    ));
    let memory = system::build(&parse(
        "s.bla",
        "system \"api\" { purpose \"serves\" paths [\"src/api\"] }\nsystem \"db\" { purpose \"stores\" }\nseam \"rows\" { between [\"api\", \"db\"] value \"rows\" statement \"api reads rows\" }\n",
    )
    .unwrap())
    .unwrap();
    let present = Memory::Present(memory);
    let mut out = String::new();
    write_system_explain(&mut out, &system::explain(&present, "seam::rows").unwrap());
    assert_eq!(
        out,
        "seam::rows\nKind: seam\n\nStatement:\n  api reads rows\n\nBetween:\n  system::api  and  system::db\n\nValue that crosses:\n  rows\n"
    );
    let memory = process::build(&parse(
        "p.bla",
        "role \"worker\" { purpose \"changes code\" }\nflow \"change\" { purpose \"one change\" }\nstep \"edit\" { flow \"change\" role [\"worker\"] statement \"edit code\" command \"cargo test\" }\n",
    )
    .unwrap())
    .unwrap();
    let present = Memory::Present(memory);
    let mut out = String::new();
    write_process_explain(&mut out, &process::explain(&present, "flow::change").unwrap());
    assert_eq!(
        out,
        "flow::change\nKind: flow\n\nStatement:\n  one change\n\nSteps, in order:\n  step::edit  role::worker  cargo test\n  blabla explain step::edit   what the step is, what carries it and the command that runs it\n"
    );
    let mut out = String::new();
    write_process_explain(&mut out, &process::explain(&present, "edit").unwrap());
    assert_eq!(
        out,
        "step::edit\nKind: step\n\nStatement:\n  edit code\n\nPart of:\n  flow::change\n\nCarried by:\n  role::worker\n\nCommand:\n  cargo test\n"
    );
}

#[test]
fn an_offer_names_six_commands_and_counts_the_rest() {
    assert_eq!(offer(&strings(&["a", "b"])), "blabla explain a | blabla explain b");
    let eight = strings(&["a", "b", "c", "d", "e", "f", "g", "h"]);
    assert_eq!(
        offer(&eight),
        "blabla explain a | blabla explain b | blabla explain c | blabla explain d | blabla explain e | blabla explain f (2 more)"
    );
    assert_eq!(offer(&Vec::new()), "");
}

#[test]
fn a_memory_query_resolves_to_one_entry_or_is_refused() {
    let one = resolve_memory("/p/project.bla", "demo", "ship", &strings(&["mission::ship"])).unwrap();
    assert_eq!(one, "mission::ship");
    let none = resolve_memory("/p/project.bla", "demo", "nothing", &Vec::new()).unwrap_err();
    assert_eq!(none.code, "E_UNKNOWN_RULE");
    assert_eq!(none.location.file, "/p/project.bla");
    assert_eq!(
        none.message,
        "no object matches 'nothing' in project demo; blabla status lists every contract::<group>, mission::<name>, knowledge::<pack>, system::<name> and role::<name> this project has"
    );
    let two = resolve_memory("/p/project.bla", "demo", "api", &strings(&["system::api", "role::api"])).unwrap_err();
    assert_eq!(two.code, "E_AMBIGUOUS_IDENTITY");
    assert_eq!(
        two.message,
        "'api' is not a canonical identity and names 2 objects in project memory; run one of: blabla explain system::api | blabla explain role::api"
    );
}

#[test]
fn a_memory_file_is_checked_against_itself() {
    let valid = check_memory("mission.bla", "mission \"ship\" { statement \"ship it\" }\n", "mission").unwrap();
    assert_eq!(valid.status(), "valid");
    assert_eq!(valid.exit(), 0);
    assert_eq!(valid.declarations, 1);
    let mut out = String::new();
    write_memory_check(&mut out, &valid);
    assert_eq!(
        out,
        "VALID\nmission memory\n1 declarations\n\nThis validates the file against itself: syntax, fields, names and internal references. It is never checked against the repository, and neither VALID nor INVALID takes part in completion.\n"
    );
    let invalid = check_memory("k.bla", "knowledge \"ops\" { purpose \"operations\" }\n", "knowledge").unwrap();
    assert_eq!(invalid.status(), "invalid");
    assert_eq!(invalid.exit(), 2);
    let mut out = String::new();
    write_memory_check(&mut out, &invalid);
    assert!(out.starts_with(
        "INVALID\nknowledge memory\n1 declarations\n  pack \"ops\" declares no ruling; a pack that routing points at must carry expertise\n\nA ruling is reusable expertise"
    ));
    let process = check_memory("p.bla", "role \"r\" { purpose \"x\" }\n", "process").unwrap();
    let mut out = String::new();
    write_memory_check(&mut out, &process);
    assert!(out.contains("\nProcess roles and policies are ADVISORY."));
    let refused = check_memory("m.bla", "mission \"no good\" { statement \"x\" }", "mission").unwrap_err();
    assert_eq!(refused.code, "E_MEMORY_NAME");
}

#[test]
fn a_refusal_prints_its_category_seed_and_diagnostic() {
    let diagnostic = Diagnostic {
        location: Location { file: "a.bla".to_owned(), line: 3, column: 7 },
        code: "E_SYNTAX".to_owned(),
        message: "expected a name".to_owned(),
    };
    let (report, exit) = contract_error(diagnostic, Some(9));
    assert_eq!(exit, 2);
    let mut out = String::new();
    write_error(&mut out, &report);
    assert_eq!(out, "ERROR [contract]: expected a name\nseed: 9\na.bla:3:7 [E_SYNTAX] expected a name\n");
    let mut out = String::new();
    write_error(&mut out, &error("init", "cannot create /x".to_owned(), None));
    assert_eq!(out, "ERROR [init]: cannot create /x\n");
}

#[test]
fn init_reports_each_step_and_how_to_promote_the_starter_contract() {
    let outcome = Outcome {
        directory: "/work/demo".to_owned(),
        name: "demo".to_owned(),
        dry_run: true,
        profile: false,
        steps: vec![
            Step { path: "project.bla".to_owned(), action: "would create".to_owned() },
            Step { path: "contracts/behavior/core.bla".to_owned(), action: "exists".to_owned() },
        ],
        nested_in: Some("/work/project.bla".to_owned()),
        agents_block: None,
        entry_teaches: Vec::new(),
    };
    let mut out = String::new();
    write_init(&mut out, &outcome);
    assert_eq!(
        out,
        "BlaBla init (dry run): /work/demo (project demo)\n  would create  project.bla\n  exists        contracts/behavior/core.bla\nnote: an ancestor project exists at /work/project.bla; this directory is a nested project and the nearest manifest wins\n\nThe starter contract is a draft: promote it by changing `draft behavior` to `use behavior` in project.bla once it states intended behavior.\nAdd the canonical verification to project.bla so `blabla finish` can run it:\n  verify behavior {\n      command [\"python\", \"./main.py\"]\n      steps 4096\n  }\nNext: blabla status\n"
    );
    assert_eq!(chosen_name(Some("good_one".to_owned()), "/x").unwrap(), "good_one");
    assert_eq!(
        chosen_name(Some("9bad".to_owned()), "/x").unwrap_err(),
        "project name '9bad' must be an identifier: letters, digits and underscores, not starting with a digit"
    );
    assert_eq!(chosen_name(None, "/work/my-app").unwrap(), "my_app");
    assert!(declares_profile(Some("project p\n\nverify behavior {\n}\n"), &Vec::new()));
    assert!(!declares_profile(Some("project p\n"), &vec!["python".to_owned()]));
    assert!(declares_profile(None, &vec!["python".to_owned()]));
    assert!(!declares_profile(None, &Vec::new()));
}

#[test]
fn a_runtime_primitive_is_explained_with_the_rules_that_rely_on_it() {
    let rule = |id: &str, runtime: Option<&'static str>| Rule {
        id: id.to_owned(),
        group: "core".to_owned(),
        label: id.to_owned(),
        file: "core.bla".to_owned(),
        line: 1,
        column: 1,
        source: String::new(),
        action: None,
        runtime,
    };
    let rules = vec![rule("core::a", Some("runtime::restart")), rule("core::b", None), rule("core::c", Some("runtime::restart"))];
    assert_eq!(rules_using(&rules, "runtime::restart"), vec!["core::a".to_owned(), "core::c".to_owned()]);
    let view = primitive_view(Some(&rules), "runtime::restart").unwrap();
    assert_eq!(view.used_by, vec!["core::a".to_owned(), "core::c".to_owned()]);
    let mut out = String::new();
    write_primitive(&mut out, &view);
    assert!(out.starts_with("runtime::restart\n\nOwned by:\n  BlaBla verifier\n\nSemantics:\n  terminates the owned application process tree"));
    assert!(out.ends_with(
        "\nThis is not an application-level reset or restart action; the application receives no command for it.\n\nUsed by:\n  core::a\n  core::c\n"
    ));
    let alone = primitive_view(None, "runtime::restart").unwrap();
    assert!(alone.used_by.is_empty());
    let mut out = String::new();
    write_primitive(&mut out, &alone);
    assert!(!out.contains("Used by"));
    assert_eq!(
        primitive_view(None, "runtime::nothing").unwrap_err(),
        "no runtime primitive matches 'runtime::nothing'; known primitives: runtime::restart"
    );
}

#[test]
fn bounded_tasks_are_listed_with_their_deliverables_and_what_is_unresolved() {
    let status = TaskStatus {
        directory: ".blabla/tasks".to_owned(),
        tasks: vec![TaskSummary {
            id: "task::a".to_owned(),
            role: "role::worker".to_owned(),
            state: "accepted".to_owned(),
            unresolved: 1,
            deliverables: 2,
        }],
        open: 1,
        unreadable: Vec::new(),
    };
    let mut out = String::new();
    write_bounded_tasks(&mut out, Some(&status));
    assert_eq!(
        out,
        "\nBounded tasks (.blabla/tasks):\n  task::a   accepted   role::worker   2 deliverables, 1 unresolved\n  blabla challenge   hold this work against the evidence BlaBla already has and state one grounded challenge\n"
    );
    let mut none = String::new();
    write_bounded_tasks(&mut none, None);
    assert!(none.is_empty());
}
