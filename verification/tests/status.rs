use blabla::project::status::{format_unix, record_path, CompletionState, OverallStatus, RuleCounts, State};

#[test]
fn unix_timestamps_render_as_utc() {
    assert_eq!(format_unix(0), "1970-01-01T00:00:00Z");
    assert_eq!(format_unix(86_400), "1970-01-02T00:00:00Z");
    assert_eq!(format_unix(951_782_400), "2000-02-29T00:00:00Z");
    assert_eq!(format_unix(1_757_800_000 + 3_661), "2025-09-13T22:47:41Z");
}

#[test]
fn states_have_words_and_exit_codes() {
    assert_eq!(State::Green.exit(), 0);
    assert_eq!(State::Red.exit(), 1);
    assert_eq!(State::Stale.exit(), 5);
    assert_eq!(State::NoActiveContracts.word(), "NO ACTIVE CONTRACTS");
    assert_eq!(CompletionState::Green.word(), "GREEN");
    assert_eq!(CompletionState::NotCanonical.word(), "BLOCKED");
    assert_eq!(OverallStatus::Blocked.word(), "BLOCKED");
}

#[test]
fn rule_counts_go_red_before_yellow() {
    let mut counts = RuleCounts::default();
    counts.add(State::Green);
    assert_eq!(counts.state(), State::Green);
    counts.add(State::Stale);
    assert_eq!(counts.state(), State::Yellow);
    counts.add(State::Red);
    assert_eq!(counts.state(), State::Red);
    assert_eq!((counts.total, counts.green, counts.yellow, counts.red), (3, 1, 1, 1));
}

#[test]
fn the_record_lives_under_the_records_directory() {
    assert_eq!(record_path("/work"), "/work/.blabla/status.json");
}
