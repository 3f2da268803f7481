use algo_builder::editor::AlgoApp;
use algo_builder::models::{Algorithm, CanvasPos, OptionLink, Step, StepKind};
use algo_builder::settings::AppSettings;

fn step(id: u128, targets: &[Option<u128>]) -> Step {
    let mut s = Step::new(format!("S{}", id), CanvasPos { x: 0, y: 0 });
    s.id = id;
    for t in targets {
        s.options.push(OptionLink { text: "o".to_string(), next_step_id: *t });
    }
    s
}

fn procedure(steps: Vec<Step>, first: Option<u128>) -> Algorithm {
    let mut a = Algorithm::default();
    a.steps = steps;
    a.first_step_id = first;
    a
}

/// Main: 1 -> 2 (sub-procedure: success 3, failure 4); the sub-procedure is
/// 10 -> 11.
fn with_subprocess() -> AlgoApp {
    let sub = procedure(vec![step(10, &[Some(11)]), step(11, &[])], Some(10));
    let mut s2 = step(2, &[]);
    s2.kind = StepKind::Subprocess {
        sub_algo: Box::new(sub),
        next_if_success: Some(3),
        next_if_failure: Some(4),
    };
    let main = procedure(vec![step(1, &[Some(2)]), s2, step(3, &[]), step(4, &[])], Some(1));
    let mut a = AlgoApp::new(AppSettings::default());
    a.open_in_runner(main);
    a
}

#[test]
fn plain_steps_and_back() {
    let mut a = AlgoApp::new(AppSettings::default());
    a.open_in_runner(procedure(vec![step(1, &[Some(2)]), step(2, &[])], Some(1)));
    assert_eq!(a.runner.current_step_id, Some(1));
    a.runner.measurement_input = "12".to_string();
    assert_eq!(a.navigate_runner(Some(2)), Some(2));
    assert_eq!(a.runner.history, vec![1]);
    assert_eq!(a.runner.measurement_input, "");
    assert_eq!(a.navigate_runner_back(), Some(1));
    assert!(a.runner.history.is_empty());
    assert_eq!(a.navigate_runner_back(), None);
    assert_eq!(a.runner.current_step_id, Some(1));
    a.navigate_runner(Some(2));
    assert_eq!(a.navigate_runner(None), None);
    assert_eq!(a.runner.history, vec![1, 2]);
}

#[test]
fn subprocess_success_exit() {
    let mut a = with_subprocess();
    assert_eq!(a.navigate_runner(Some(2)), Some(10));
    assert_eq!(a.runner.call_stack.len(), 1);
    assert_eq!(a.runner.call_stack[0].parent_history, vec![1]);
    assert!(a.runner.history.is_empty());
    assert_eq!(a.active_algo.steps[0].id, 10);
    a.navigate_runner(Some(11));
    assert_eq!(a.navigate_runner(None), Some(3));
    assert!(a.runner.call_stack.is_empty());
    assert_eq!(a.runner.history, vec![1, 2]);
    assert_eq!(a.active_algo.steps[0].id, 1);
    assert!(!a.runner.had_abnormality);
}

#[test]
fn subprocess_failure_exit_after_abnormal_measurement() {
    let mut a = with_subprocess();
    a.navigate_runner(Some(2));
    a.report_abnormal(Some(11));
    assert!(a.runner.had_abnormality);
    assert_eq!(a.navigate_runner(None), Some(4));
    assert!(a.runner.had_abnormality);
}

#[test]
fn back_out_of_subprocess_start() {
    let mut a = with_subprocess();
    a.navigate_runner(Some(2));
    assert_eq!(a.navigate_runner_back(), Some(2));
    assert!(a.runner.call_stack.is_empty());
    assert_eq!(a.runner.history, vec![1]);
    assert_eq!(a.active_algo.steps[0].id, 1);
}

#[test]
fn reset_inside_subprocess_returns_to_root() {
    let mut a = with_subprocess();
    a.navigate_runner(Some(2));
    a.navigate_runner(Some(11));
    assert_eq!(a.reset_runner(), Some(1));
    assert!(a.runner.call_stack.is_empty());
    assert!(a.runner.history.is_empty());
    assert_eq!(a.active_algo.steps[0].id, 1);
}

#[test]
fn rollback_to_route_step() {
    let mut a = AlgoApp::new(AppSettings::default());
    a.open_in_runner(procedure(
        vec![step(1, &[Some(2)]), step(2, &[Some(3)]), step(3, &[])],
        Some(1),
    ));
    a.navigate_runner(Some(2));
    a.navigate_runner(Some(3));
    assert_eq!(a.runner.history, vec![1, 2]);
    assert_eq!(a.rollback_runner_to(0), 1);
    assert!(a.runner.history.is_empty());
    assert_eq!(a.runner.current_step_id, Some(1));
}

#[test]
fn runner_tab_restarts_the_run() {
    let mut a = with_subprocess();
    a.navigate_runner(Some(2));
    assert_eq!(a.show_runner_tab(), Some(1));
    assert_eq!(a.current_tab, "Диагностика");
    a.show_archive_tab();
    assert_eq!(a.current_tab, "Архив");
    a.show_builder_tab();
    assert_eq!(a.current_tab, "Конструктор");
}

#[test]
fn root_procedure_is_the_outermost() {
    let mut a = with_subprocess();
    assert_eq!(a.root_procedure().steps[0].id, 1);
    a.navigate_runner(Some(2));
    assert_eq!(a.active_algo.steps[0].id, 10);
    assert_eq!(a.root_procedure().steps[0].id, 1);
}
