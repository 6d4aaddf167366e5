use rush::command::Command;
use rush::command::CommandList;
use rush::command::JoinOperator;
use rush::command::ListEntry;
use rush::command::Pipeline;
use rush::exec::ListRun;
use rush::exec::StageOutcome;
use rush::exec::pipeline_status;
use rush::exec::stage_links;
use rush::exec::stage_status;

fn cmd(name: &str) -> Command {
    Command { argv: vec![name.to_string()], redirects: vec![] }
}

fn list(entries: Vec<(Pipeline, JoinOperator)>) -> CommandList {
    CommandList {
        entries: entries
            .into_iter()
            .map(|(pipeline, join)| ListEntry { pipeline, join })
            .collect(),
    }
}

fn single(name: &str, join: JoinOperator) -> (Pipeline, JoinOperator) {
    (Pipeline { commands: vec![cmd(name)], background: false }, join)
}

/// Drive a whole statement, handing each pipeline the status the given
/// oracle assigns it; record which pipelines actually ran.
fn drive(l: CommandList, statuses: &[i32]) -> (i32, Vec<usize>) {
    let mut ran = Vec::new();
    let mut run = ListRun::new(l);
    loop {
        match run.next_to_run() {
            Some(k) => {
                ran.push(k);
                run.report(statuses[k]);
            },
            None => break,
        }
    }
    (run.finish(), ran)
}

#[test]
fn and_then_skips_after_failure() {
    // false && echo X: echo never runs, the status is false's.
    let l = list(vec![
        single("false", JoinOperator::AndThen),
        single("echo", JoinOperator::End),
    ]);
    let (status, ran) = drive(l, &[1, 0]);
    assert_eq!(status, 1);
    assert_eq!(ran, vec![0]);
}

#[test]
fn and_then_runs_after_success() {
    let l = list(vec![
        single("true", JoinOperator::AndThen),
        single("echo", JoinOperator::End),
    ]);
    let (status, ran) = drive(l, &[0, 0]);
    assert_eq!(status, 0);
    assert_eq!(ran, vec![0, 1]);
}

#[test]
fn or_else_runs_after_failure() {
    // false || echo X: echo runs and its status (0) is reported.
    let l = list(vec![
        single("false", JoinOperator::OrElse),
        single("echo", JoinOperator::End),
    ]);
    let (status, ran) = drive(l, &[1, 0]);
    assert_eq!(status, 0);
    assert_eq!(ran, vec![0, 1]);
}

#[test]
fn or_else_skips_after_success() {
    let l = list(vec![
        single("true", JoinOperator::OrElse),
        single("echo", JoinOperator::End),
    ]);
    let (status, ran) = drive(l, &[0, 7]);
    assert_eq!(status, 0);
    assert_eq!(ran, vec![0]);
}

#[test]
fn sequential_always_runs() {
    let l = list(vec![
        single("false", JoinOperator::Sequential),
        single("echo", JoinOperator::End),
    ]);
    let (status, ran) = drive(l, &[9, 3]);
    assert_eq!(status, 3);
    assert_eq!(ran, vec![0, 1]);
}

#[test]
fn skipped_pipeline_keeps_last_executed_status() {
    // false && a || c: a is skipped, c still sees false's failure.
    let l = list(vec![
        single("false", JoinOperator::AndThen),
        single("a", JoinOperator::OrElse),
        single("c", JoinOperator::End),
    ]);
    let (status, ran) = drive(l, &[2, 0, 5]);
    assert_eq!(status, 5);
    assert_eq!(ran, vec![0, 2]);
}

#[test]
fn empty_history_reports_success() {
    let l = list(vec![single("true", JoinOperator::End)]);
    let (status, ran) = drive(l, &[0]);
    assert_eq!(status, 0);
    assert_eq!(ran, vec![0]);
}

#[test]
fn pipeline_status_is_last_stage() {
    // a | b | c: the status is c's, whatever a and b exited with.
    assert_eq!(pipeline_status(false, &vec![1, 2, 3]), 3);
    assert_eq!(pipeline_status(false, &vec![7, 9, 0]), 0);
    assert_eq!(pipeline_status(false, &vec![0, 0, 4]), 4);
    assert_eq!(pipeline_status(false, &vec![5]), 5);
}

#[test]
fn background_pipeline_reports_success_immediately() {
    // sleep 1 &: no waiting, status 0 at once.
    assert_eq!(pipeline_status(true, &vec![]), 0);
}

#[test]
fn stage_links_wire_neighbours() {
    let links = stage_links(3);
    assert_eq!(links.len(), 3);
    assert_eq!(links[0].stdin_pipe, None);
    assert_eq!(links[0].stdout_pipe, Some(0));
    assert_eq!(links[1].stdin_pipe, Some(0));
    assert_eq!(links[1].stdout_pipe, Some(1));
    assert_eq!(links[2].stdin_pipe, Some(1));
    assert_eq!(links[2].stdout_pipe, None);
}

#[test]
fn lone_stage_keeps_inherited_descriptors() {
    let links = stage_links(1);
    assert_eq!(links.len(), 1);
    assert_eq!(links[0].stdin_pipe, None);
    assert_eq!(links[0].stdout_pipe, None);
}

#[test]
fn failed_stages_report_conventional_statuses() {
    assert_eq!(stage_status(&StageOutcome::Exited(0)), 0);
    assert_eq!(stage_status(&StageOutcome::Exited(42)), 42);
    assert_eq!(stage_status(&StageOutcome::SpawnNotFound), 127);
    assert_eq!(stage_status(&StageOutcome::SpawnPermissionDenied), 126);
    assert_eq!(stage_status(&StageOutcome::SpawnFailed), 126);
    // A failed redirection never spawns and never reports success.
    assert_eq!(stage_status(&StageOutcome::RedirectFailed), 1);
}

#[test]
fn redirect_failure_fails_its_pipeline() {
    // A statement whose only pipeline fails on a redirection reports
    // that failure, and an `&&` continuation does not run.
    let l = list(vec![
        single("prog", JoinOperator::AndThen),
        single("echo", JoinOperator::End),
    ]);
    let bad = stage_status(&StageOutcome::RedirectFailed);
    let (status, ran) = drive(l, &[bad, 0]);
    assert_eq!(status, 1);
    assert_eq!(ran, vec![0]);
}
