use blabla::project::{Layer, Profile, parse_manifest};

const PROFILE_MANIFEST: &str = "project Demo\nuse behavior \"core.bla\"\n\nverify behavior {\n    command [\"python\", \"app.py\"]\n    seed 7\n    cases 1\n    steps 8\n    timeout_ms 1000\n    shrink_budget 256\n}\n";

#[test]
fn manifest_parses_name_layers_drafts_and_aliases() {
    let manifest = parse_manifest(
        "/work/project.bla",
        "project Glyph\nuse behavior \"contracts/core.bla\"\ndraft behavior \"contracts/next.bla\" as upcoming\n",
    )
    .unwrap();
    assert_eq!(manifest.name, "Glyph");
    assert_eq!(manifest.entries.len(), 2);
    assert_eq!(manifest.entries[0].group, "core");
    assert!(!manifest.entries[0].draft);
    assert_eq!(manifest.entries[0].path, "/work/contracts/core.bla");
    assert_eq!(manifest.entries[1].group, "upcoming");
    assert!(manifest.entries[1].draft);
    assert_eq!(manifest.entries[1].span.line, 3);
    assert_eq!(manifest.entries[0].layer, Layer::Behavior);
    assert_eq!(manifest.root, "/work");
}

#[test]
fn manifest_rejects_missing_header_unsupported_layers_and_bad_statements() {
    let path = "project.bla";
    let header = parse_manifest(path, "use behavior \"a.bla\"").unwrap_err();
    assert_eq!(header.code, "E_PROJECT_HEADER");
    let unnamed = parse_manifest(path, "project").unwrap_err();
    assert_eq!(unnamed.code, "E_PROJECT_HEADER");
    let layer = parse_manifest(path, "project X\nuse mission \"m.bla\"").unwrap_err();
    assert_eq!(layer.code, "E_UNSUPPORTED_LAYER");
    assert_eq!(layer.location.line, 2);
    let statement = parse_manifest(path, "project X\nbehavior \"a.bla\"").unwrap_err();
    assert_eq!(statement.code, "E_MANIFEST_STATEMENT");
    let unquoted = parse_manifest(path, "project X\nuse behavior core").unwrap_err();
    assert_eq!(unquoted.code, "E_MANIFEST_STATEMENT");
    let alias = parse_manifest(path, "project X\nuse behavior \"a.bla\" as").unwrap_err();
    assert_eq!(alias.code, "E_MANIFEST_STATEMENT");
}

#[test]
fn ignore_declarations_parse_and_a_duplicate_bare_or_missing_one_is_refused() {
    let path = "/tmp/project/project.bla";
    let parsed = parse_manifest(
        path,
        "project X\nignore \"dist/\"\nignore from \".gitignore\"\nignore \".gitignore\"\n",
    )
    .unwrap();
    assert_eq!(parsed.ignores.len(), 3);
    assert!(parsed.ignores[1].is_list());
    assert!(!parsed.ignores[2].is_list());
    let twice = parse_manifest(path, "project X\nignore \"dist/\"\nignore \"dist/\"\n").unwrap_err();
    assert_eq!(twice.code, "E_DUPLICATE_IGNORE");
    assert_eq!(twice.location.line, 3);
    let bare = parse_manifest(path, "project X\nignore from\n").unwrap_err();
    assert_eq!(bare.code, "E_MANIFEST_IGNORE");
}

#[test]
fn manifest_rejects_duplicate_paths_and_duplicate_groups() {
    let path = "project.bla";
    let twice = parse_manifest(path, "project X\nuse behavior \"a.bla\"\ndraft behavior \"./a.bla\"").unwrap_err();
    assert_eq!(twice.code, "E_DUPLICATE_USE");
    assert_eq!(twice.location.line, 3);
    let groups = parse_manifest(path, "project X\nuse behavior \"a/core.bla\"\nuse behavior \"b/core.bla\"").unwrap_err();
    assert_eq!(groups.code, "E_DUPLICATE_GROUP");
    let aliased =
        parse_manifest(path, "project X\nuse behavior \"a/core.bla\"\nuse behavior \"b/core.bla\" as other").unwrap();
    assert_eq!(aliased.entries[1].group, "other");
}

#[test]
fn manifest_parses_one_verification_profile_with_defaults_and_rejects_bad_ones() {
    let path = "project.bla";
    let full = parse_manifest(path, PROFILE_MANIFEST).unwrap();
    assert_eq!(
        full.profile,
        Some(Profile {
            command: vec!["python".into(), "app.py".into()],
            prepare: None,
            seed: 7,
            cases: 1,
            steps: 8,
            timeout_ms: 1000,
            startup_ms: None,
            shrink_budget: 256,
        })
    );
    assert_eq!(full.profile_span.unwrap().line, 4);
    assert_eq!(full.entries.len(), 1);
    let minimal =
        parse_manifest(path, "project X\nverify behavior { command [\"./run.sh\",] }\nuse behavior \"a.bla\"").unwrap();
    assert_eq!(
        minimal.profile,
        Some(Profile {
            command: vec!["./run.sh".into()],
            prepare: None,
            seed: 0,
            cases: 16,
            steps: 32,
            timeout_ms: 1000,
            startup_ms: None,
            shrink_budget: 256,
        })
    );
    assert_eq!(minimal.entries[0].group, "a");
    let none = parse_manifest(path, "project X\nuse behavior \"a.bla\"").unwrap();
    assert!(none.profile.is_none());
    for (source, code) in [
        ("project X\nverify behavior { command [\"a\"] }\nverify behavior { command [\"b\"] }", "E_DUPLICATE_PROFILE"),
        ("project X\nverify behavior { steps 4 }", "E_PROFILE_COMMAND"),
        ("project X\nverify behavior { command [] }", "E_PROFILE_COMMAND"),
        ("project X\nverify behavior { command [\"\"] }", "E_PROFILE_COMMAND"),
        ("project X\nverify behavior { command [python] }", "E_PROFILE_COMMAND"),
        ("project X\nverify behavior { command [\"a\"] budget 4 }", "E_PROFILE_FIELD"),
        ("project X\nverify behavior { command [\"a\"] steps 4 steps 5 }", "E_PROFILE_FIELD"),
        ("project X\nverify behavior { command [\"a\"] steps 0 }", "E_PROFILE_FIELD"),
        ("project X\nverify behavior { command [\"a\"] timeout_ms 5001 }", "E_PROFILE_FIELD"),
        ("project X\nverify behavior { command [\"a\"] shrink_budget 257 }", "E_PROFILE_FIELD"),
        ("project X\nverify behavior { command [\"a\"] seed -1 }", "E_PROFILE_FIELD"),
        ("project X\nverify behavior { command [\"a\"]", "E_MANIFEST_STATEMENT"),
        ("project X\nverify behavior command [\"a\"]", "E_MANIFEST_STATEMENT"),
        ("project X\nverify mission { command [\"a\"] }", "E_UNSUPPORTED_LAYER"),
    ] {
        let diagnostic = parse_manifest(path, source).unwrap_err();
        assert_eq!(diagnostic.code, code, "{source}: {}", diagnostic.message);
    }
}

#[test]
fn memory_voice_and_unterminated_strings_are_read_or_refused() {
    let path = "project.bla";
    let parsed = parse_manifest(
        path,
        "project X\nmission \"mission.bla\"\nknowledge \"k/a.bla\"\nknowledge \"k/b.bla\"\nvoice blunt\n",
    )
    .unwrap();
    assert_eq!(parsed.mission.unwrap().display, "mission.bla");
    assert_eq!(parsed.knowledge.len(), 2);
    assert_eq!(parsed.voice, blabla::voice::Voice::Blunt);
    let twice = parse_manifest(path, "project X\nknowledge \"k/a.bla\"\nknowledge \"./k/a.bla\"").unwrap_err();
    assert_eq!(twice.code, "E_DUPLICATE_KNOWLEDGE");
    let voice = parse_manifest(path, "project X\nvoice loud").unwrap_err();
    assert_eq!(voice.code, "E_MANIFEST_VOICE");
    assert_eq!(voice.message, "unknown voice 'loud'; the voices are neutral, blunt");
    let reserved = parse_manifest(path, "project X\nuse behavior \"task.bla\"").unwrap_err();
    assert_eq!(reserved.code, "E_RESERVED_GROUP");
    let open = parse_manifest(path, "project X\nuse behavior \"a.bla").unwrap_err();
    assert_eq!(open.code, "E_UNTERMINATED_STRING");
}
