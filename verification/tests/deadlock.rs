use pandora_launcher::deadlock::{
    deadlock_report, DeadlockedThread, DetectorAction, DetectorEvent, DetectorState, ReportStep,
};

fn thread(thread_id: &str, backtrace: &str) -> DeadlockedThread {
    DeadlockedThread { thread_id: thread_id.to_string(), backtrace: backtrace.to_string() }
}

#[test]
fn without_a_deadlock_there_is_no_report() {
    assert!(deadlock_report(&vec![]).is_none());
}

#[test]
fn every_deadlock_and_thread_is_reported() {
    let report = deadlock_report(&vec![
        vec![thread("ThreadId(140)", "a\nb"), thread("ThreadId(7)", "c")],
        vec![thread("ThreadId(12)", "")],
    ]);
    assert_eq!(
        report.as_deref(),
        Some(
            "2 deadlock(s) detected\n\
             ==== Deadlock #0 (2 threads) ====\n\
             == Thread #0 (ThreadId(140)) ==\na\nb\n\
             == Thread #1 (ThreadId(7)) ==\nc\n\
             ==== Deadlock #1 (1 threads) ====\n\
             == Thread #0 (ThreadId(12)) ==\n\n"
        )
    );
}

#[test]
fn a_deadlock_without_threads_is_reported() {
    assert_eq!(
        deadlock_report(&vec![vec![]]).as_deref(),
        Some("1 deadlock(s) detected\n==== Deadlock #0 (0 threads) ====\n")
    );
}

fn step(state: DetectorState, event: DetectorEvent) -> (DetectorState, DetectorAction) {
    assert!(state.expects(&event));
    state.step(event)
}

#[test]
fn the_watch_goes_on_until_a_deadlock_is_found() {
    let (mut state, mut action) = DetectorState::new();
    for _ in 0..3 {
        assert!(matches!(action, DetectorAction::Wait { seconds: 10 }));
        assert!(!state.expects(&DetectorEvent::Checked(vec![])));
        (state, action) = step(state, DetectorEvent::Waited);
        assert!(matches!(action, DetectorAction::Check));
        assert!(!state.expects(&DetectorEvent::Waited));
        (state, action) = step(state, DetectorEvent::Checked(vec![]));
    }
    let (state, _) = step(state, DetectorEvent::Waited);
    let (state, action) = step(state, DetectorEvent::Checked(vec![vec![]]));
    match action {
        DetectorAction::Report(steps) => {
            let report = "1 deadlock(s) detected\n==== Deadlock #0 (0 threads) ====\n";
            assert_eq!(steps.len(), 3);
            assert!(matches!(&steps[0], ReportStep::Log(logged) if logged == report));
            assert!(matches!(&steps[1], ReportStep::Keep(kept) if kept == report));
            assert!(matches!(&steps[2], ReportStep::Redraw));
        }
        _ => panic!("nothing is reported"),
    }
    assert!(!state.expects(&DetectorEvent::Waited));
    assert!(!state.expects(&DetectorEvent::Checked(vec![])));
}
