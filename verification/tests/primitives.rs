use blabla::ir::ActionKind;
use blabla::runtime::primitives::{PREFIX, all, find, for_action, ids, restart};

#[test]
fn primitives_have_unique_ids_and_complete_semantics() {
    let ids = ids();
    let mut unique = ids.clone();
    unique.sort_unstable();
    unique.dedup();
    assert_eq!(ids.len(), unique.len());
    for primitive in all() {
        assert!(primitive.id.starts_with(PREFIX));
        assert!(!primitive.owner.is_empty());
        assert!(!primitive.summary.is_empty());
        assert!(!primitive.distinction.is_empty());
        assert!(!primitive.semantics.is_empty());
        for fact in primitive.semantics {
            assert!(!fact.key.is_empty());
            assert!(!fact.statement.is_empty());
        }
    }
}

#[test]
fn restart_actions_resolve_to_the_restart_primitive_and_application_actions_to_none() {
    assert_eq!(for_action(ActionKind::Restart).unwrap().id, restart().id);
    assert!(for_action(ActionKind::Application).is_none());
    assert_eq!(find("runtime::restart").unwrap().id, restart().id);
    assert!(find("runtime::reset").is_none());
}

#[test]
fn the_restart_primitive_describes_what_it_keeps_and_what_it_does_not() {
    let p = restart();
    assert_eq!(p.owner, "BlaBla verifier");
    assert_eq!(p.summary, "trusted process restart of the application under verification");
    let facts: Vec<(&str, bool)> = p.semantics.iter().map(|f| (f.key, f.holds)).collect();
    assert_eq!(
        facts,
        [
            ("process_recreated", true),
            ("process_memory_preserved", false),
            ("persistent_environment_preserved", true),
            ("reset_requested", false),
        ]
    );
    assert_eq!(p.semantics[1].statement, "does not preserve process memory");
    assert!(p.distinction.starts_with("This is not an application-level reset"));
    let found = find("runtime::restart").unwrap();
    assert_eq!((found.owner, found.semantics.len()), (p.owner, 4));
    let view = blabla::project::status::primitive_view(None, "runtime::restart").unwrap();
    assert_eq!(view.owner, "BlaBla verifier");
    assert_eq!(view.semantics.len(), 4);
    assert!(!view.semantics[1].holds);
}
