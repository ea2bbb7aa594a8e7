use blabla::project::runstate::{Classification, Marker, classify, marker_path, new_run_id, profile_identity};

fn marker() -> Marker {
    Marker {
        run_id: "r1".to_owned(),
        pid: 42,
        started_unix: 100,
        verifier_version: "0.1.0".to_owned(),
        project_identity: "p".to_owned(),
        profile_identity: "q".to_owned(),
        profile: None,
    }
}

#[test]
fn a_marker_is_classified_by_record_identity_and_process() {
    let m = marker();
    assert_eq!(classify(&m, "p", "q", Some("r1"), None), Classification::Completed);
    assert_eq!(classify(&m, "other", "q", None, Some(100)), Classification::Interrupted);
    assert_eq!(classify(&m, "p", "q", None, Some(102)), Classification::Verifying);
    assert_eq!(classify(&m, "p", "q", None, Some(103)), Classification::Interrupted);
    assert_eq!(classify(&m, "p", "q", None, None), Classification::Interrupted);
}

#[test]
fn run_ids_are_hexadecimal_and_fresh() {
    let one = new_run_id();
    let two = new_run_id();
    assert_eq!(one.len(), 32);
    assert!(one.chars().all(|c| c.is_ascii_hexdigit() && !c.is_ascii_uppercase()));
    assert_ne!(one, two);
}

#[test]
fn profile_identity_tells_profiles_apart() {
    let none = profile_identity(None);
    assert_eq!(none.len(), 16);
    let profile = blabla::project::Profile {
        command: vec!["python".to_owned()],
        prepare: None,
        seed: 0,
        cases: 16,
        steps: 32,
        timeout_ms: 1000,
        startup_ms: None,
        shrink_budget: 256,
    };
    let mut other = profile.clone();
    other.seed = 1;
    assert_ne!(profile_identity(Some(&profile)), none);
    assert_ne!(profile_identity(Some(&profile)), profile_identity(Some(&other)));
    assert_eq!(marker_path("/w"), "/w/.blabla/verifying.json");
}
