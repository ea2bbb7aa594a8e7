use blabla::cli::init::{entry_teaches, manifest, project_name, valid_name};
use blabla::project::parse_manifest;

#[test]
fn the_entry_teaches_its_topics() {
    assert_eq!(
        entry_teaches(),
        vec!["assignment", "role", "scope", "verification", "acceptance", "evidence", "blocker", "challenge", "hand-back"]
    );
}

#[test]
fn a_project_is_named_after_its_directory() {
    assert_eq!(project_name("/home/me/my-app"), "my_app");
    assert_eq!(project_name("/home/me/2048"), "Project_2048");
    assert_eq!(project_name("/"), "Project");
    assert!(valid_name("Glyph_2"));
    assert!(!valid_name("2Glyph"));
    assert!(!valid_name(""));
    assert!(!valid_name("a-b"));
}

#[test]
fn the_manifest_init_writes_parses_back() {
    let text = manifest("Demo", &vec!["python".to_owned(), "app\\main.py".to_owned()]);
    let parsed = parse_manifest("project.bla", &text).unwrap();
    assert_eq!(parsed.name, "Demo");
    assert_eq!(parsed.entries.len(), 1);
    assert!(parsed.entries[0].draft);
    let profile = parsed.profile.unwrap();
    assert_eq!(profile.command, vec!["python".to_owned(), "app/main.py".to_owned()]);
    assert_eq!((profile.seed, profile.cases, profile.steps, profile.timeout_ms, profile.shrink_budget), (0, 16, 32, 1000, 256));
    let bare = manifest("Demo", &Vec::new());
    assert_eq!(bare, "project Demo\n\ndraft behavior \"contracts/behavior/core.bla\"\n");
}
