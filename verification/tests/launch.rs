use blabla::diagnostic::Span;
use blabla::project::{Probe, command_candidate, normalize_text, parse_manifest, resolve_command};

const ROOT: &str = "/work/app";

fn strings(items: &[&str]) -> Vec<String> {
    items.iter().map(|item| (*item).to_owned()).collect()
}

/// What is on disk under `ROOT`: `app/main.py`, `run.py` and `data/notes.txt`.
fn on_disk(path: &str) -> bool {
    ["/work/app/app/main.py", "/work/app/run.py", "/work/app/data/notes.txt", "/work/app/data", "/work/app/app"]
        .contains(&path)
}

fn is_file(path: &str) -> bool {
    ["/work/app/app/main.py", "/work/app/run.py", "/work/app/data/notes.txt"].contains(&path)
}

fn probes(written: &[String], base: &str) -> Vec<Probe> {
    written
        .iter()
        .map(|element| Probe {
            file_in_base: is_file(&format!("{base}/{element}")),
            candidate_exists: on_disk(&command_candidate(element, base)),
            executable: None,
        })
        .collect()
}

fn span() -> Span {
    Span { start: 0, end: 0, line: 1, column: 1 }
}

#[test]
fn resolve_command_resolves_project_paths_and_keeps_literals() {
    let written = strings(&["python", "app/main.py", "run.py", "persistent", "data", "--flag=./x", "./run.py"]);
    let resolved = resolve_command(&written, ROOT, "project.bla", span(), &probes(&written, ROOT)).unwrap();
    assert_eq!(resolved.program, "python");
    assert_eq!(resolved.args.len(), 6);
    assert_eq!(resolved.args[0], "/work/app/app/main.py");
    assert_eq!(resolved.args[1], "/work/app/run.py");
    assert_eq!(resolved.args[2], "persistent");
    assert_eq!(resolved.args[3], "data");
    assert_eq!(resolved.args[4], "--flag=./x");
    assert_eq!(resolved.args[5], "/work/app/run.py");
    assert_eq!(resolved.written, written);
    let missing_command = strings(&["python", "missing/main.py"]);
    let missing =
        resolve_command(&missing_command, ROOT, "project.bla", span(), &probes(&missing_command, ROOT)).unwrap_err();
    assert_eq!(missing.code, "E_APPLICATION_PATH");
    assert!(missing.message.contains("missing/main.py"), "{}", missing.message);
    assert!(missing.message.contains(ROOT), "{}", missing.message);
    let absolute = strings(&["/work/app/run.py"]);
    let passthrough = resolve_command(&absolute, ROOT, "project.bla", span(), &probes(&absolute, ROOT)).unwrap();
    assert_eq!(passthrough.program, "/work/app/run.py");
    let elsewhere = "/work/other";
    let other_command = strings(&["python", "run.py"]);
    let other_base =
        resolve_command(&other_command, elsewhere, "project.bla", span(), &probes(&other_command, elsewhere)).unwrap();
    assert_eq!(other_base.args[0], "run.py");
}

#[test]
fn a_missing_path_names_where_it_resolves_and_an_empty_command_is_refused() {
    let written = strings(&["./bin/../tool"]);
    let refused = resolve_command(&written, ROOT, "project.bla", span(), &probes(&written, ROOT)).unwrap_err();
    assert_eq!(
        refused.message,
        "command element './bin/../tool' resolves to /work/app/tool, which does not exist; relative paths resolve against /work/app"
    );
    let empty = resolve_command(&Vec::new(), ROOT, "project.bla", span(), &Vec::new()).unwrap_err();
    assert_eq!(empty.code, "E_PROFILE_COMMAND");
    assert_eq!(empty.message, "the application command is empty");
    let suffixed = strings(&["bin/tool"]);
    let found = resolve_command(
        &suffixed,
        ROOT,
        "project.bla",
        span(),
        &vec![Probe { file_in_base: false, candidate_exists: false, executable: Some("/work/app/bin/tool.exe".to_owned()) }],
    )
    .unwrap();
    assert_eq!(found.program, "/work/app/bin/tool.exe");
}

#[test]
fn paths_are_put_in_normal_form() {
    assert_eq!(normalize_text("/a/./b/../c"), "/a/c");
    assert_eq!(normalize_text("a//b/"), "a/b");
    assert_eq!(normalize_text("../x"), "../x");
    assert_eq!(normalize_text("/"), "/");
    assert_eq!(command_candidate("/abs/./x", ROOT), "/abs/./x");
    assert_eq!(command_candidate("./x/../y", ROOT), "/work/app/y");
}

#[test]
fn a_manifest_launches_its_profile_command_or_nothing() {
    let with = parse_manifest(
        "/work/app/project.bla",
        "project app\n\nverify behavior {\n    command [\"python\", \"run.py\"]\n}\n",
    )
    .unwrap();
    let command = strings(&["python", "run.py"]);
    let launched = with.launch(&probes(&command, ROOT)).unwrap().expect("a profile declares a command");
    assert_eq!(launched.program, "python");
    assert_eq!(launched.args, vec!["/work/app/run.py".to_owned()]);
    let without = parse_manifest("/work/app/project.bla", "project app\n").unwrap();
    assert!(without.launch(&Vec::new()).unwrap().is_none());
}
