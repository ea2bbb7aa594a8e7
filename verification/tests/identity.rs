use blabla::project::identity::{always_tracked, project_groups, project_identity, relative_path, sorted_set};
use blabla::project::Layer;
use blabla::project::{Fnv, parse_manifest};

#[test]
fn the_identity_hashes_the_name_and_each_active_contract_in_order() {
    let mut hasher = Fnv::new();
    hasher.write_str("Demo");
    assert_eq!(project_identity("Demo", &Vec::new()), hasher.finish());

    let core = ("core".to_owned(), "core.bla".to_owned(), "action add()".to_owned());
    let feature = ("feature".to_owned(), "feature.bla".to_owned(), "always \"x\" { true }".to_owned());
    let mut hasher = Fnv::new();
    for text in ["Demo", "core", "core.bla", "action add()", "feature", "feature.bla", "always \"x\" { true }"] {
        hasher.write_str(text);
    }
    let both = project_identity("Demo", &vec![core.clone(), feature.clone()]);
    assert_eq!(both, hasher.finish());
    assert_eq!(both.len(), 16);
    assert_ne!(both, project_identity("Demo", &vec![feature.clone(), core.clone()]));
    let mut edited = core.clone();
    edited.2.push_str("\naction restart()");
    assert_ne!(both, project_identity("Demo", &vec![edited, feature]));
}

#[test]
fn paths_are_shown_relative_to_the_root_with_slashes() {
    assert_eq!(relative_path("/p", "/p/contracts/core.bla"), "contracts/core.bla");
    assert_eq!(relative_path("/p/", "/p/./a/../b.bla"), "b.bla");
    assert_eq!(relative_path("/p", "/q/b.bla"), "/q/b.bla");
    assert_eq!(relative_path("/p", "/p"), "");
    assert_eq!(relative_path("/p", "/p/a\\b.bla"), "a/b.bla");
}

#[test]
fn a_sorted_set_keeps_each_text_once_in_order() {
    let texts = vec!["b".to_owned(), "a".to_owned(), "b".to_owned(), "ab".to_owned()];
    assert_eq!(sorted_set(texts), ["a", "ab", "b"]);
}

#[test]
fn the_manifest_contracts_and_memory_are_always_tracked() {
    let manifest = parse_manifest(
        "/p/project.bla",
        "project Demo\nuse behavior \"contracts/core.bla\"\ndraft behavior \"contracts/next.bla\"\nmission \"mission.bla\"\nknowledge \"k/b.bla\"\nknowledge \"k/a.bla\"\n",
    )
    .unwrap();
    assert_eq!(
        always_tracked(&manifest),
        ["contracts/core.bla", "contracts/next.bla", "k/a.bla", "k/b.bla", "mission.bla", "project.bla"]
    );
}

fn rule(id: &str, group: &str) -> blabla::project::Rule {
    blabla::project::Rule {
        id: id.to_owned(),
        group: group.to_owned(),
        label: id.to_owned(),
        file: format!("{group}.bla"),
        line: 1,
        column: 1,
        source: String::new(),
        action: None,
        runtime: None,
    }
}

#[test]
fn each_entry_in_use_makes_a_group_with_its_rule_count() {
    let manifest = parse_manifest(
        "/p/project.bla",
        "project Demo\nuse behavior \"core.bla\"\ndraft behavior \"next.bla\"\nuse structure \"layers.bla\"\nuse behavior \"feature.bla\"\n",
    )
    .unwrap();
    let rules = vec![rule("core::a", "core"), rule("feature::b", "feature"), rule("feature::c", "feature")];
    let contracts = vec![(Some("layers".to_owned()), 2), (None, 5), (Some("layers".to_owned()), 1)];
    let groups = project_groups(&manifest.entries, &rules, &contracts);
    let seen: Vec<(&str, &str, usize, Layer)> =
        groups.iter().map(|g| (g.name.as_str(), g.display.as_str(), g.rules, g.layer)).collect();
    assert_eq!(
        seen,
        [
            ("core", "core.bla", 1, Layer::Behavior),
            ("layers", "layers.bla", 3, Layer::Structure),
            ("feature", "feature.bla", 2, Layer::Behavior),
        ]
    );
}
