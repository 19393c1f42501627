use disk_scan::delete::{
    command_outcome, outcome_without_command, DeleteOutcome, DeletionCoordinator, DeletionSummary,
    FailureKind,
};

fn batch(paths: &[&str]) -> DeletionCoordinator {
    DeletionCoordinator::new(paths.iter().map(|p| p.to_string()).collect())
}

#[test]
fn a_missing_path_does_not_stop_the_batch() {
    let mut run = batch(&["/t/one", "/t/two", "/t/three"]);
    assert_eq!(run.current().unwrap(), "/t/one");
    assert!(run.finish(0).is_none());
    let first = run.record(DeleteOutcome::Deleted, 100).unwrap();
    assert_eq!((first.percent, first.current, first.total), (33, 1, 3));
    assert_eq!(first.label, "/t/one");
    assert_eq!(first.remaining_ms, 200);
    assert_eq!(run.current().unwrap(), "/t/two");
    let second = run.record(DeleteOutcome::Missing, 150).unwrap();
    assert_eq!((second.percent, second.current), (66, 2));
    assert_eq!(second.label, "/t/two");
    assert_eq!(run.current().unwrap(), "/t/three");
    assert!(run.finish(0).is_none());
    let third = run.record(DeleteOutcome::Deleted, 300).unwrap();
    assert_eq!((third.percent, third.current, third.remaining_ms), (100, 3, 0));
    assert!(run.current().is_none());
    let end = run.finish(310).unwrap();
    assert_eq!(end.event.percent, 100);
    assert_eq!((end.event.current, end.event.total), (3, 3));
    assert_eq!(end.event.label, "complete");
    assert_eq!(end.event.elapsed_ms, 310);
    assert_eq!(end.summary.deleted, vec!["/t/one", "/t/three"]);
    assert_eq!(end.summary.errors.len(), 1);
    assert_eq!(end.summary.errors[0].path, "/t/two");
    assert_eq!(end.summary.errors[0].kind, FailureKind::NotFound);
    assert_eq!(end.summary.errors[0].message, "not found");
    assert_eq!(end.summary.into_result(), Err("移到废纸篓失败 /t/two: not found\n".to_string()));
}

#[test]
fn a_failed_command_is_recorded_with_its_text() {
    let mut run = batch(&["/t/a", "/t/b", "/t/c"]);
    run.record(DeleteOutcome::Failed("Finder got an error".to_string()), 1).unwrap();
    run.record(DeleteOutcome::Missing, 2).unwrap();
    run.record(DeleteOutcome::Deleted, 3).unwrap();
    let end = run.finish(4).unwrap();
    assert_eq!(end.summary.deleted, vec!["/t/c"]);
    assert_eq!(end.summary.errors.len(), 2);
    assert_eq!(end.summary.errors[0].kind, FailureKind::CommandFailed);
    assert_eq!(end.summary.errors[0].message, "Finder got an error");
    assert_eq!(end.summary.errors[1].kind, FailureKind::NotFound);
    assert_eq!(
        end.summary.into_result(),
        Err("移到废纸篓失败 /t/a: Finder got an error\n移到废纸篓失败 /t/b: not found\n".to_string())
    );
}

#[test]
fn a_batch_without_failures_is_ok() {
    let mut run = batch(&["/t/a", "/t/b"]);
    run.record(DeleteOutcome::Deleted, 1).unwrap();
    run.record(DeleteOutcome::Deleted, 2).unwrap();
    let end = run.finish(3).unwrap();
    assert!(end.summary.errors.is_empty());
    assert_eq!(end.summary.into_result(), Ok(2));
}

#[test]
fn an_empty_batch_ends_at_once() {
    let mut run = batch(&[]);
    assert!(run.current().is_none());
    assert!(run.record(DeleteOutcome::Deleted, 1).is_none());
    let end = run.finish(0).unwrap();
    assert_eq!(end.event.percent, 100);
    assert_eq!(end.event.total, 0);
    assert_eq!(end.summary.into_result(), Ok(0));
}

#[test]
fn outcomes_beyond_the_last_path_are_not_recorded() {
    let mut run = batch(&["/t/a"]);
    assert!(run.record(DeleteOutcome::Missing, 1).is_some());
    assert!(run.record(DeleteOutcome::Deleted, 2).is_none());
    assert!(run.record(DeleteOutcome::Failed("x".to_string()), 3).is_none());
    let end = run.finish(4).unwrap();
    assert!(end.summary.deleted.is_empty());
    assert_eq!(end.summary.errors.len(), 1);
}

#[test]
fn a_summary_with_errors_lists_each() {
    let summary = DeletionSummary { deleted: vec!["/x".to_string()], errors: Vec::new() };
    assert_eq!(summary.into_result(), Ok(1));
}

#[test]
fn a_missing_path_is_recorded_without_the_command() {
    assert!(matches!(outcome_without_command(false), Some(DeleteOutcome::Missing)));
    assert!(outcome_without_command(true).is_none());
}

#[test]
fn the_command_decides_between_deleted_and_failed() {
    assert!(matches!(command_outcome(true, String::new()), DeleteOutcome::Deleted));
    assert!(matches!(command_outcome(true, "noise".to_string()), DeleteOutcome::Deleted));
    match command_outcome(false, "execution error: -1728".to_string()) {
        DeleteOutcome::Failed(text) => assert_eq!(text, "execution error: -1728"),
        other => panic!("{:?}", other),
    }
}
