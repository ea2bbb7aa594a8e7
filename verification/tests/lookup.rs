use blabla::project::lookup::{Lookup, LookupSpace, Named, Resolution};
use blabla::diagnostic::Location;
use blabla::project::{Group, Layer, Rule};
use blabla::structure::{LayerStatus, RuleResult, RuleStatus, StructureReport};

fn rule(id: &str, group: &str, runtime: Option<&'static str>) -> Rule {
    Rule {
        id: id.to_owned(),
        group: group.to_owned(),
        label: id.split("::").nth(1).unwrap().to_owned(),
        file: format!("contracts/{group}.bla"),
        line: 1,
        column: 1,
        source: String::new(),
        action: None,
        runtime,
    }
}

fn group(name: &str, layer: Layer) -> Group {
    Group { name: name.to_owned(), display: format!("contracts/{name}.bla"), rules: 1, layer }
}

/// The project with the core and feature contracts, and a structure contract `layers`.
fn space() -> LookupSpace {
    LookupSpace {
        manifest: "/p/project.bla".to_owned(),
        project: "Demo".to_owned(),
        actions: Some(vec!["add".to_owned(), "restart".to_owned()]),
        groups: vec![group("core", Layer::Behavior), group("feature", Layer::Behavior), group("layers", Layer::Structure)],
        rules: vec![
            rule("core::add-count", "core", None),
            rule("feature::add-keeps-existing", "feature", None),
            rule("feature::persistence", "feature", Some("runtime::restart")),
            rule("feature::unique-ids", "feature", None),
        ],
        structure: vec![
            Named {
                id: "layers::no-cycles".to_owned(),
                label: "no-cycles".to_owned(),
                source: "rule \"no-cycles\" { acyclic(modules) }".to_owned(),
                location: Location { file: "layers.bla".to_owned(), line: 2, column: 1 },
            },
        ],
    }
}

fn rule_id(s: &LookupSpace, found: &Lookup) -> String {
    s.id_of(found)
}

#[test]
fn lookup_resolves_ids_labels_obligations_and_actions() {
    let project = space();
    let id = |q: &str| project.lookup(q).map(|found| rule_id(&project, &found));
    assert!(matches!(project.lookup("core::add-count"), Ok(Lookup::Rule(0))));
    assert_eq!(id("core::add-count").unwrap(), "core::add-count");
    assert_eq!(id("persistence").unwrap(), "feature::persistence");
    assert_eq!(id("feature::persistence/root.restart..nondefault").unwrap(), "feature::persistence");
    assert_eq!(id("unique").unwrap(), "feature::unique-ids");
    assert!(matches!(project.lookup("action/restart"), Ok(Lookup::Action(name)) if name == "restart"));
    assert!(matches!(project.lookup("add"), Err(diagnostic) if diagnostic.code == "E_AMBIGUOUS_RULE"));
    assert!(matches!(project.lookup("nothing"), Err(diagnostic) if diagnostic.code == "E_UNKNOWN_RULE"));
    assert!(matches!(project.lookup("action/nothing"), Err(diagnostic) if diagnostic.code == "E_UNKNOWN_RULE"));
}

#[test]
fn contracts_structure_rules_and_groups_are_looked_up_too() {
    let project = space();
    assert!(matches!(project.lookup("contract::feature"), Ok(Lookup::Contract(1))));
    assert!(matches!(project.lookup("no-cycles"), Ok(Lookup::Structure(0))));
    let coarse = project.lookup("feature").err().unwrap();
    assert_eq!(coarse.code, "E_COARSE_IDENTITY");
    assert_eq!(
        coarse.message,
        "'feature' is the group of a contract, not an identity; run: blabla explain contract::feature"
    );
    assert_eq!(coarse.location.file, "/p/project.bla");
    let ambiguous = project.lookup("add").err().unwrap();
    assert_eq!(
        ambiguous.message,
        "'add' is not a canonical identity and matches 2 rules; run one of: blabla explain core::add-count | blabla explain feature::add-keeps-existing"
    );
    let unknown = project.lookup("nothing").err().unwrap();
    assert_eq!(
        unknown.message,
        "no rule matches 'nothing' in project Demo; run `blabla status` for the current rule ids"
    );
}

#[test]
fn resolution_weighs_the_project_against_project_memory() {
    let project = space();
    let none: Vec<String> = Vec::new();
    assert!(matches!(project.resolve("persistence", &none), Ok(Resolution::Project(Lookup::Rule(2)))));
    let unknown = project.resolve("nothing", &none).err().unwrap();
    assert_eq!(unknown.code, "E_UNKNOWN_RULE");
    assert!(unknown.message.starts_with("no object matches 'nothing' in project Demo; blabla status lists every"));

    let one = vec!["mission::launch".to_owned()];
    assert!(matches!(project.resolve("launch", &one), Ok(Resolution::Memory(name)) if name == "mission::launch"));
    let both = project.resolve("persistence", &vec!["knowledge::persistence".to_owned()]).err().unwrap();
    assert_eq!(both.code, "E_AMBIGUOUS_IDENTITY");
    assert_eq!(
        both.message,
        "'persistence' is not a canonical identity and names 2 objects across rules and project memory; run one of: blabla explain knowledge::persistence | blabla explain feature::persistence"
    );
    let coarse = project.resolve("feature", &one).err().unwrap();
    assert!(coarse.message.contains("blabla explain contract::feature"));
    let many = project.resolve("zz", &vec!["mission::zz".to_owned(), "system::zz".to_owned()]).err().unwrap();
    assert_eq!(
        many.message,
        "'zz' is not a canonical identity and names 2 objects in project memory; run one of: blabla explain mission::zz | blabla explain system::zz"
    );
    let partial = project.resolve("x", &vec!["mission::x".to_owned()]).err().unwrap();
    assert_eq!(
        partial.message,
        "'x' is not a canonical identity and names 2 objects across rules and project memory; run one of: blabla explain mission::x | blabla explain feature::add-keeps-existing"
    );
    let ambiguous = project.resolve("add", &one).err().unwrap();
    assert!(ambiguous.message.contains("names 3 objects across rules and project memory"));
}

#[test]
fn a_structure_rule_is_explained_from_its_result() {
    let project = space();
    let result = RuleResult {
        id: "layers::no-cycles".to_owned(),
        group: Some("layers".to_owned()),
        label: "no-cycles".to_owned(),
        file: "layers.bla".to_owned(),
        line: 2,
        status: RuleStatus::Red,
    };
    let report = StructureReport {
        status: LayerStatus::Red,
        verified: 0,
        violated: 1,
        total: 1,
        first_error: None,
        rules: vec![result],
    };
    let view = project.explain_structure(&report, "no-cycles").unwrap().unwrap();
    assert_eq!(view.layer, "structure");
    assert_eq!(view.result.id, "layers::no-cycles");
    assert_eq!(view.result.status, RuleStatus::Red);
    assert_eq!(view.source, "rule \"no-cycles\" { acyclic(modules) }");
    assert_eq!(view.verification, "blabla status");
    assert!(project.explain_structure(&report, "persistence").unwrap().is_none());
    let missing = project.explain_structure(&StructureReport::none(), "no-cycles").err().unwrap();
    assert_eq!(missing.code, "E_INTERNAL");
    assert_eq!(missing.message, "structure rule layers::no-cycles was not evaluated");
    assert_eq!((missing.location.file.as_str(), missing.location.line), ("layers.bla", 2));
    assert_eq!(project.explain_structure(&report, "nothing").err().unwrap().code, "E_UNKNOWN_RULE");
}
