use blabla::cli::heartbeat::{Heartbeat, INTERVAL_MS, Progress};

fn progress(actions: usize, verified: usize, shrinking: bool) -> Progress {
    Progress { case_index: 0, cases: 1, actions_executed: actions, action_budget: 4096, verified, total: 355, shrinking }
}

#[test]
fn progress_lines_are_throttled_by_the_interval_and_always_close() {
    let mut heartbeat = Heartbeat::new(2000);
    let start = 0u64;
    heartbeat.header("none declared", "starting");
    heartbeat.observe(&progress(1, 3, false), start);
    heartbeat.observe(&progress(2, 4, false), start + 1000);
    heartbeat.observe(&progress(3, 5, false), start + 1999);
    heartbeat.observe(&progress(4, 6, false), start + 2100);
    heartbeat.observe(&progress(5, 7, false), start + 2500);
    heartbeat.observe(&progress(6, 8, true), start + 2600);
    heartbeat.observe(&progress(7, 8, true), start + 9000);
    heartbeat.observe(&progress(4096, 355, false), start + 9100);
    heartbeat.finish();
    let text = heartbeat.output.clone();
    assert_eq!(
        text.lines().filter(|line| line.contains("obligations") || line.contains("violation found")).count(),
        5,
        "{text}"
    );
    assert!(text.starts_with("BlaBla finish\n\nCOMPLETION GATE: VERIFYING\n"), "{text}");
    assert!(text.contains("  3/355 obligations   1/4096 actions\n"), "{text}");
    assert!(!text.contains("4/355 obligations"), "{text}");
    assert!(text.contains("  6/355 obligations   4/4096 actions\n"), "{text}");
    assert!(text.contains("violation found after 6 actions"), "{text}");
    assert!(text.ends_with("  355/355 obligations   4096/4096 actions\n\n"), "{text}");
}

#[test]
fn a_heartbeat_without_progress_closes_with_a_blank_line() {
    let mut heartbeat = Heartbeat::new(INTERVAL_MS);
    heartbeat.finish();
    assert_eq!(heartbeat.output, "\n");
    let mut clock_went_back = Heartbeat::new(INTERVAL_MS);
    clock_went_back.observe(&progress(1, 1, false), 5000);
    clock_went_back.observe(&progress(2, 2, false), 1000);
    assert_eq!(clock_went_back.output.lines().count(), 1);
}
