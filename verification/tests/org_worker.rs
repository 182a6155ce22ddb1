use openobserve::org_cleanup::{CleanupTask, MAX_ATTEMPTS};
use openobserve::org_worker::{
    task_readiness, predecessors_finished, CleanupAction, CleanupEvent, OrgCleanupRun, RunPhase, Readiness,
};

fn task(id: &str, order: i32, status: &str, attempts: i32) -> CleanupTask {
    CleanupTask {
        id: id.to_string(),
        org_id: "acme".to_string(),
        org_name: "Acme".to_string(),
        step: format!("step_{id}"),
        step_order: order,
        status: status.to_string(),
        attempts,
    }
}

fn describe(a: &CleanupAction) -> String {
    match a {
        CleanupAction::ListOrgTasks { org_id } => format!("list {org_id}"),
        CleanupAction::AlertPermanentFailure { org_id, step } => format!("alert {org_id} {step}"),
        CleanupAction::MarkRunning { id } => format!("claim {id}"),
        CleanupAction::ExecuteStep { org_id, org_name, step } => format!("run {org_id} {org_name} {step}"),
        CleanupAction::MarkDone { id } => format!("done {id}"),
        CleanupAction::MarkFailed { id, error } => format!("failed {id} {error}"),
        CleanupAction::Finish => "finish".to_string(),
    }
}

#[test]
fn readiness_waits_for_earlier_steps() {
    let all = vec![task("a", 100, "done", 0), task("b", 200, "pending", 0), task("c", 300, "pending", 0)];
    assert!(predecessors_finished(&all, 200));
    assert!(!predecessors_finished(&all, 300));
    assert!(matches!(task_readiness(&all[1], &all), Readiness::Attempt));
    assert!(matches!(task_readiness(&all[2], &all), Readiness::WaitForPredecessors));
}

#[test]
fn readiness_reports_exhausted_failures() {
    let t = task("a", 100, "failed", MAX_ATTEMPTS);
    assert!(matches!(task_readiness(&t, &vec![]), Readiness::PermanentlyFailed));
    let t = task("a", 100, "failed", MAX_ATTEMPTS - 1);
    assert!(matches!(task_readiness(&t, &vec![]), Readiness::Attempt));
}

#[test]
fn run_claims_executes_and_records() {
    let tasks = vec![task("a", 100, "pending", 0), task("b", 200, "pending", 0)];
    let (mut run, first) = OrgCleanupRun::new(tasks);
    assert_eq!(describe(&first), "list acme");

    let listed = vec![task("a", 100, "pending", 0), task("b", 200, "pending", 0)];
    assert!(run.accepts(&CleanupEvent::Listed(Vec::new())));
    let a = run.step(CleanupEvent::Listed(listed));
    assert_eq!(describe(&a), "claim a");
    let a = run.step(CleanupEvent::Claimed);
    assert_eq!(describe(&a), "run acme Acme step_a");
    let a = run.step(CleanupEvent::StepSucceeded);
    assert_eq!(describe(&a), "done a");
    let a = run.step(CleanupEvent::Recorded);
    assert_eq!(describe(&a), "list acme");

    // the listing still shows `a` as running, so `b` waits
    let listed = vec![task("a", 100, "running", 1), task("b", 200, "pending", 0)];
    let a = run.step(CleanupEvent::Listed(listed));
    assert_eq!(describe(&a), "finish");
    assert!(matches!(run.phase, RunPhase::Finished));
    assert!(!run.accepts(&CleanupEvent::Recorded));
}

#[test]
fn run_records_failures_and_skips_lost_claims() {
    let tasks = vec![task("a", 100, "failed", 2), task("b", 100, "pending", 0)];
    let (mut run, _) = OrgCleanupRun::new(tasks);
    let all = vec![task("a", 100, "failed", 2), task("b", 100, "pending", 0)];
    assert_eq!(describe(&run.step(CleanupEvent::Listed(all))), "claim a");
    assert_eq!(describe(&run.step(CleanupEvent::Claimed)), "run acme Acme step_a");
    assert_eq!(
        describe(&run.step(CleanupEvent::StepFailed("boom".to_string()))),
        "failed a boom"
    );
    assert_eq!(describe(&run.step(CleanupEvent::Recorded)), "list acme");
    let all = vec![task("a", 100, "failed", 3), task("b", 100, "pending", 0)];
    assert_eq!(describe(&run.step(CleanupEvent::Listed(all))), "claim b");
    assert_eq!(describe(&run.step(CleanupEvent::NotClaimed)), "finish");
}

#[test]
fn run_alerts_on_permanent_failure_and_stops_on_list_error() {
    let tasks = vec![task("a", 100, "failed", MAX_ATTEMPTS), task("b", 200, "pending", 0)];
    let (mut run, _) = OrgCleanupRun::new(tasks);
    let all = vec![task("a", 100, "failed", MAX_ATTEMPTS), task("b", 200, "pending", 0)];
    assert_eq!(describe(&run.step(CleanupEvent::Listed(all))), "alert acme step_a");
    assert_eq!(describe(&run.step(CleanupEvent::AlertSent)), "list acme");
    assert_eq!(describe(&run.step(CleanupEvent::ListFailed)), "finish");
}

#[test]
fn empty_run_finishes_at_once() {
    let (run, first) = OrgCleanupRun::new(Vec::new());
    assert_eq!(describe(&first), "finish");
    assert!(matches!(run.phase, RunPhase::Finished));
}
