use agent_base::plan::advance;
use agent_base::plan::apply_adaptive_action;
use agent_base::plan::apply_fallback_action;
use agent_base::plan::begin_step_failure;
use agent_base::plan::check_dependencies_met;
use agent_base::plan::record_step_result;
use agent_base::plan::start_step;
use agent_base::plan::ExecutionPlan;
use agent_base::plan::FailureResolution;
use agent_base::plan::FailureStage;
use agent_base::plan::KeyTable;
use agent_base::plan::PhaseStatus;
use agent_base::plan::PlanCursor;
use agent_base::plan::PlanMove;
use agent_base::plan::PlanPhase;
use agent_base::plan::PlanStatus;
use agent_base::plan::PlanStep;
use agent_base::plan::RecoveryAction;
use agent_base::plan::RecoveryBook;
use agent_base::plan::RecoveryLimits;
use agent_base::plan::StepResult;
use agent_base::plan::StepStatus;

fn step(id: &str, deps: &[&str]) -> PlanStep {
    PlanStep {
        id: id.to_string(),
        description: format!("do {id}"),
        dependencies: deps.iter().map(|d| d.to_string()).collect(),
        payload: "{}".to_string(),
        status: StepStatus::Pending,
        result: None,
    }
}

fn phase(name: &str, steps: Vec<PlanStep>) -> PlanPhase {
    PlanPhase { name: name.to_string(), steps, status: PhaseStatus::Pending }
}

fn plan(phases: Vec<PlanPhase>) -> ExecutionPlan {
    ExecutionPlan { id: "p1".to_string(), phases, status: PlanStatus::Executing }
}

fn ok(output: &str) -> StepResult {
    StepResult { success: true, output: Some(output.to_string()), error: None, duration_ms: 0 }
}

fn failed(error: &str) -> StepResult {
    StepResult { success: false, output: None, error: Some(error.to_string()), duration_ms: 0 }
}

fn adaptive(max_retries: usize, max_replans: usize) -> RecoveryLimits {
    RecoveryLimits { adaptive: true, max_retries, max_alternatives: 3, max_replans }
}

#[test]
fn dependencies_gate_steps_and_missing_dependencies_skip() {
    let mut p = plan(vec![phase("main", vec![step("a", &[]), step("b", &["a"]), step("c", &["missing"])])]);
    let mut cur = PlanCursor { phase_idx: 0, step_idx: 0 };
    let mut skipped = Vec::new();

    assert_eq!(advance(&mut p, &mut cur, &mut skipped), PlanMove::RunStep);
    assert_eq!(cur, PlanCursor { phase_idx: 0, step_idx: 0 });
    assert_eq!(p.phases[0].status, PhaseStatus::Running);
    start_step(&mut p, &cur);
    assert_eq!(p.phases[0].steps[0].status, StepStatus::Running);
    assert!(record_step_result(&mut p, &mut cur, ok("done")));
    assert_eq!(p.phases[0].steps[0].status, StepStatus::Completed);

    assert_eq!(advance(&mut p, &mut cur, &mut skipped), PlanMove::RunStep);
    assert_eq!(cur.step_idx, 1);
    start_step(&mut p, &cur);
    assert!(record_step_result(&mut p, &mut cur, ok("done")));

    assert_eq!(advance(&mut p, &mut cur, &mut skipped), PlanMove::Finished);
    assert_eq!(skipped, vec![(0, 2)]);
    assert_eq!(p.phases[0].steps[2].status, StepStatus::Skipped);
    assert_eq!(p.phases[0].status, PhaseStatus::Completed);
    assert_eq!(p.status, PlanStatus::Completed);
}

#[test]
fn step_waits_for_unfinished_dependency_in_later_phase() {
    let p = plan(vec![
        phase("one", vec![step("a", &["b"])]),
        phase("two", vec![step("b", &[])]),
    ]);
    assert!(!check_dependencies_met(&p, "a"));
    assert!(check_dependencies_met(&p, "b"));
    assert!(check_dependencies_met(&p, "unknown"));
}

#[test]
fn skipped_dependency_counts_as_done() {
    let mut p = plan(vec![phase("main", vec![step("a", &[]), step("b", &["a"])])]);
    p.phases[0].steps[0].status = StepStatus::Skipped;
    assert!(check_dependencies_met(&p, "b"));
    p.phases[0].steps[0].status = StepStatus::Failed;
    assert!(!check_dependencies_met(&p, "b"));
}

#[test]
fn empty_plan_finishes_at_once() {
    let mut p = plan(vec![phase("empty", vec![])]);
    assert!(p.has_no_steps());
    let mut cur = PlanCursor { phase_idx: 0, step_idx: 0 };
    let mut skipped = Vec::new();
    assert_eq!(advance(&mut p, &mut cur, &mut skipped), PlanMove::Finished);
    assert_eq!(p.phases[0].status, PhaseStatus::Completed);
    assert_eq!(p.status, PlanStatus::Completed);
    assert_eq!(p.find_step_position("a"), None);
}

#[test]
fn framework_retries_with_linear_backoff_then_asks_strategy() {
    let mut p = plan(vec![phase("main", vec![step("a", &[])])]);
    let mut book = RecoveryBook::new();
    let mut cur = PlanCursor { phase_idx: 0, step_idx: 0 };
    let limits = adaptive(2, 1);
    start_step(&mut p, &cur);
    assert!(!record_step_result(&mut p, &mut cur, failed("boom")));

    match begin_step_failure(&mut p, &mut book, &cur, "a", &limits) {
        FailureStage::Backoff { retry_count, backoff_ms } => {
            assert_eq!(retry_count, 1);
            assert_eq!(backoff_ms, 100);
        }
        other => panic!("unexpected stage: {other:?}"),
    }
    assert_eq!(p.phases[0].steps[0].status, StepStatus::Pending);
    assert!(p.phases[0].steps[0].result.is_none());

    match begin_step_failure(&mut p, &mut book, &cur, "a", &limits) {
        FailureStage::Backoff { retry_count, backoff_ms } => {
            assert_eq!(retry_count, 2);
            assert_eq!(backoff_ms, 200);
        }
        other => panic!("unexpected stage: {other:?}"),
    }
    match begin_step_failure(&mut p, &mut book, &cur, "a", &limits) {
        FailureStage::AskAdaptive { root_id, retry_count, alternative_count, replan_count } => {
            assert_eq!(root_id, "a");
            assert_eq!(retry_count, 2);
            assert_eq!(alternative_count, 0);
            assert_eq!(replan_count, 0);
        }
        other => panic!("unexpected stage: {other:?}"),
    }
    assert_eq!(book.retry_count("a"), 2);
}

#[test]
fn without_adaptive_strategy_failure_goes_to_fallback() {
    let mut p = plan(vec![phase("main", vec![step("a", &[])])]);
    let mut book = RecoveryBook::new();
    let cur = PlanCursor { phase_idx: 0, step_idx: 0 };
    let limits = RecoveryLimits { adaptive: false, max_retries: 3, max_alternatives: 3, max_replans: 3 };
    match begin_step_failure(&mut p, &mut book, &cur, "a", &limits) {
        FailureStage::AskFallback { root_id, retry_count } => {
            assert_eq!(root_id, "a");
            assert_eq!(retry_count, 0);
        }
        other => panic!("unexpected stage: {other:?}"),
    }
}

#[test]
fn alternative_step_is_appended_and_orphans_skipped() {
    let mut p = plan(vec![phase("main", vec![step("a", &[]), step("b", &[]), step("c", &[])])]);
    p.phases[0].steps[2].status = StepStatus::Completed;
    let mut book = RecoveryBook::new();
    let mut cur = PlanCursor { phase_idx: 0, step_idx: 0 };
    let r = apply_adaptive_action(
        &mut p,
        &mut book,
        &mut cur,
        "a",
        RecoveryAction::Alternative { step: step("a_alt", &[]), root_step_id: "a".to_string() },
        &adaptive(0, 1),
    );
    assert_eq!(r, Some(FailureResolution::JumpTo(3)));
    assert_eq!(cur.step_idx, 3);
    assert_eq!(p.phases[0].steps.len(), 4);
    assert_eq!(p.phases[0].steps[0].status, StepStatus::Failed);
    assert_eq!(p.phases[0].steps[1].status, StepStatus::Skipped);
    assert_eq!(p.phases[0].steps[2].status, StepStatus::Completed);
    assert_eq!(p.phases[0].steps[3].id, "a_alt");
    assert_eq!(book.alternative_count("a"), 1);
    assert_eq!(book.root_id("a_alt"), "a");
    assert_eq!(book.root_id("b"), "b");
}

#[test]
fn replan_appends_steps_and_clears_future_phases() {
    let mut second = phase("later", vec![step("x", &[]), step("y", &[])]);
    second.steps[1].status = StepStatus::Completed;
    let third = phase("last", vec![step("z", &[])]);
    let mut p = plan(vec![phase("main", vec![step("a", &[])]), second, third]);
    let mut book = RecoveryBook::new();
    let mut cur = PlanCursor { phase_idx: 0, step_idx: 0 };
    let r = apply_adaptive_action(
        &mut p,
        &mut book,
        &mut cur,
        "a",
        RecoveryAction::Replan { steps: vec![step("n1", &[]), step("n2", &[])], clear_future_phases: true },
        &adaptive(0, 1),
    );
    assert_eq!(r, Some(FailureResolution::JumpTo(1)));
    assert_eq!(book.replan_count, 1);
    assert_eq!(p.phases[0].steps.len(), 3);
    assert_eq!(p.phases[0].steps[0].status, StepStatus::Failed);
    assert_eq!(p.phases[1].steps.len(), 1);
    assert_eq!(p.phases[1].steps[0].id, "y");
    assert_eq!(p.phases[2].steps.len(), 0);
    assert_eq!(p.phases[2].status, PhaseStatus::Skipped);

    // The replan budget is spent: the next replan is left to the fallback.
    let r2 = apply_adaptive_action(
        &mut p,
        &mut book,
        &mut cur,
        "n1",
        RecoveryAction::Replan { steps: vec![step("n3", &[])], clear_future_phases: false },
        &adaptive(0, 1),
    );
    assert_eq!(r2, None);
    assert_eq!(book.replan_count, 1);
    assert_eq!(p.phases[0].steps.len(), 3);
}

#[test]
fn adaptive_skip_and_other_actions() {
    let mut p = plan(vec![phase("main", vec![step("a", &[]), step("b", &[])])]);
    let mut book = RecoveryBook::new();
    let mut cur = PlanCursor { phase_idx: 0, step_idx: 0 };
    let none = apply_adaptive_action(&mut p, &mut book, &mut cur, "a", RecoveryAction::Retry, &adaptive(0, 0));
    assert_eq!(none, None);
    assert_eq!(cur.step_idx, 0);
    let r = apply_adaptive_action(&mut p, &mut book, &mut cur, "a", RecoveryAction::Skip, &adaptive(0, 0));
    assert_eq!(r, Some(FailureResolution::Skip));
    assert_eq!(cur.step_idx, 1);
    assert_eq!(p.phases[0].steps[0].status, StepStatus::Skipped);
}

#[test]
fn fallback_retry_skip_and_abort() {
    let mut p = plan(vec![phase("main", vec![step("a", &[]), step("b", &[])])]);
    let mut book = RecoveryBook::new();
    let mut cur = PlanCursor { phase_idx: 0, step_idx: 0 };
    p.phases[0].steps[0].status = StepStatus::Running;

    assert_eq!(apply_fallback_action(&mut p, &mut book, &mut cur, "a", RecoveryAction::Retry), FailureResolution::Retry);
    assert_eq!(p.phases[0].steps[0].status, StepStatus::Pending);
    assert_eq!(book.retry_count("a"), 1);
    assert_eq!(cur.step_idx, 0);

    assert_eq!(apply_fallback_action(&mut p, &mut book, &mut cur, "a", RecoveryAction::Skip), FailureResolution::Skip);
    assert_eq!(p.phases[0].steps[0].status, StepStatus::Skipped);
    assert_eq!(cur.step_idx, 1);

    assert_eq!(apply_fallback_action(&mut p, &mut book, &mut cur, "b", RecoveryAction::Abort), FailureResolution::Abort);
    assert_eq!(p.phases[0].steps[1].status, StepStatus::Failed);
    assert_eq!(p.phases[0].status, PhaseStatus::Failed);
    assert_eq!(p.status, PlanStatus::Failed);
}

#[test]
fn fallback_treats_alternative_as_abort() {
    let mut p = plan(vec![phase("main", vec![step("a", &[])])]);
    let mut book = RecoveryBook::new();
    let mut cur = PlanCursor { phase_idx: 0, step_idx: 0 };
    let r = apply_fallback_action(
        &mut p,
        &mut book,
        &mut cur,
        "a",
        RecoveryAction::Alternative { step: step("z", &[]), root_step_id: "a".to_string() },
    );
    assert_eq!(r, FailureResolution::Abort);
    assert_eq!(p.status, PlanStatus::Failed);
}

#[test]
fn key_table_replaces_values() {
    let mut t: KeyTable<usize> = KeyTable::new();
    assert_eq!(t.get("k"), None);
    t.insert("k", 1);
    t.insert("j", 2);
    t.insert("k", 5);
    assert_eq!(t.get("k"), Some(&5));
    assert_eq!(t.get("j"), Some(&2));
}
