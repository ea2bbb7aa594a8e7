use blabla::recovery::{Identity, foreign, refuse_write, withhold};

const WITHHELD: [&str; 4] = ["finish", "status", "run", "check"];
const SERVED: [&str; 2] = ["task", "explain"];

fn build(digest: &str, recovery: bool) -> Identity {
    Identity { version: "0.1.0".to_owned(), digest: digest.to_owned(), recovery }
}

#[test]
fn a_candidate_build_withholds_nothing_and_writes_any_record() {
    let identity = build("candidate", false);
    for verb in WITHHELD {
        assert_eq!(withhold(&identity, verb), None);
    }
    assert_eq!(refuse_write(&identity, Some("0.0.0 elsewhere")), None);
    assert_eq!(refuse_write(&identity, None), None);
}

#[test]
fn a_recovery_build_withholds_every_withheld_verb_and_serves_the_rest() {
    let identity = build("installed", true);
    for verb in WITHHELD {
        assert!(withhold(&identity, verb).is_some());
    }
    for verb in SERVED {
        assert_eq!(withhold(&identity, verb), None);
    }
}

#[test]
fn a_recovery_build_writes_its_own_record_and_refuses_a_foreign_one() {
    let identity = build("installed", true);
    assert_eq!(refuse_write(&identity, Some(&identity.stamp())), None);
    assert!(refuse_write(&identity, Some("0.0.0 elsewhere")).is_some());
    assert!(refuse_write(&identity, None).is_some());
}

#[test]
fn an_unstamped_record_is_not_the_same_fact_as_a_mismatched_one() {
    let identity = build("installed", true);
    let absent = refuse_write(&identity, None).unwrap();
    let mismatched = refuse_write(&identity, Some("0.0.0 elsewhere")).unwrap();
    assert_ne!(absent, mismatched);
    assert!(absent.contains("names no build"));
    assert!(mismatched.contains("0.0.0 elsewhere"));
}

#[test]
fn two_builds_of_the_same_version_are_told_apart_by_their_digest() {
    let one = build("aaaa", true);
    let other = build("bbbb", false);
    assert_eq!(one.version, other.version);
    assert_ne!(one.stamp(), other.stamp());
    assert!(!blabla::recovery::matches(&one, Some(&other.stamp())));
}

#[test]
fn the_stamp_is_the_version_then_the_digest() {
    let identity = build("abc123", true);
    assert_eq!(identity.stamp(), "0.1.0 abc123");
    assert!(foreign(Some(&identity), None));
    assert!(!foreign(None, None));
    assert_eq!(
        withhold(&identity, "run").unwrap(),
        "this recovery build is 0.1.0 abc123, installed under .blabla/bin; it is not the candidate under verification, so its run would not be evidence about this project. It withholds only finish, status, run, check; everything else runs, and task and explain are what it is installed for."
    );
}
