use algo_builder::graph::{build_connector_letter_map, lint_step, step_targets, LintIssue};
use algo_builder::layout::{find_step_index, layout_plan, BranchEdge};
use algo_builder::models::{Algorithm, CanvasPos, OptionLink, Step, StepKind};

fn step(id: u128, targets: &[Option<u128>]) -> Step {
    let mut s = Step::new(format!("S{}", id), CanvasPos { x: 0, y: 0 });
    s.id = id;
    for t in targets {
        s.options.push(OptionLink { text: "o".to_string(), next_step_id: *t });
    }
    s
}

fn procedure(steps: Vec<Step>, first: Option<u128>) -> Algorithm {
    let mut a = Algorithm::default();
    a.steps = steps;
    a.first_step_id = first;
    a
}

#[test]
fn targets_follow_exit_order() {
    let s = step(1, &[Some(3), None, Some(2)]);
    assert_eq!(step_targets(&s), vec![3, 2]);
    let mut m = step(4, &[]);
    m.kind = StepKind::Measurement {
        unit: "V".to_string(),
        min_val: 0,
        max_val: 0,
        next_if_normal: Some(7),
        next_if_abnormal: Some(8),
    };
    assert_eq!(step_targets(&m), vec![7, 8]);
    m.kind = StepKind::SafetyWarning { ack_text: "ok".to_string(), next_step_id: None };
    assert!(step_targets(&m).is_empty());
    m.kind = StepKind::Subprocess {
        sub_algo: Box::new(Algorithm::default()),
        next_if_success: None,
        next_if_failure: Some(5),
    };
    assert_eq!(step_targets(&m), vec![5]);
}

#[test]
fn lint_flags_unreachable_then_incomplete() {
    let a = procedure(vec![step(1, &[Some(2)]), step(2, &[None]), step(3, &[])], Some(1));
    assert_eq!(lint_step(&a, &a.steps[0]), None);
    assert_eq!(lint_step(&a, &a.steps[1]), Some(LintIssue::IncompleteBranches));
    assert_eq!(lint_step(&a, &a.steps[2]), Some(LintIssue::Unreachable));
}

#[test]
fn connector_letters_follow_first_upward_link() {
    let a = procedure(
        vec![step(1, &[Some(2)]), step(2, &[Some(1), Some(3)]), step(3, &[Some(1), Some(2)])],
        Some(1),
    );
    let up = vec![(2, 1), (3, 1), (3, 2)];
    let m = build_connector_letter_map(&a.steps, &up);
    assert_eq!(m, vec![(1, "A".to_string()), (2, "B".to_string())]);
}

#[test]
fn connector_letters_wrap_to_a_after_z() {
    let mut steps = Vec::new();
    let mut up = Vec::new();
    let mut targets = Vec::new();
    for t in 0..28u128 {
        targets.push(Some(100 + t));
        up.push((1, 100 + t));
    }
    steps.push(step(1, &targets));
    let m = build_connector_letter_map(&steps, &up);
    assert_eq!(m.len(), 28);
    assert_eq!(m[0].1, "A");
    assert_eq!(m[25].1, "Z");
    assert_eq!(m[26].1, "A");
    assert_eq!(m[27], (127, "A".to_string()));
}

#[test]
fn find_step_index_finds_first() {
    let a = procedure(vec![step(5, &[]), step(6, &[]), step(5, &[])], None);
    assert_eq!(find_step_index(&a.steps, 5), Some(0));
    assert_eq!(find_step_index(&a.steps, 6), Some(1));
    assert_eq!(find_step_index(&a.steps, 7), None);
}

#[test]
fn layout_levels_a_chain_with_a_back_link() {
    // 1 -> 2 -> 3 -> 1 (back link)
    let a = procedure(vec![step(1, &[Some(2)]), step(2, &[Some(3)]), step(3, &[Some(1)])], Some(1));
    let p = layout_plan(&a);
    assert_eq!(p.root, 0);
    assert_eq!(p.levels, vec![0, 1, 2]);
    assert_eq!(p.order, vec![0, 1, 2]);
    assert_eq!(p.forward, vec![vec![1], vec![2], vec![]]);
    assert_eq!(
        p.incoming[0],
        vec![BranchEdge { parent_id: 3, branch_idx: 0, total_branches: 1 }]
    );
}

#[test]
fn layout_uses_longest_path() {
    // 1 -> 2, 1 -> 3, 2 -> 3
    let a = procedure(vec![step(1, &[Some(2), Some(3)]), step(2, &[Some(3)]), step(3, &[])], Some(1));
    let p = layout_plan(&a);
    assert_eq!(p.levels, vec![0, 1, 2]);
    assert_eq!(
        p.incoming[2],
        vec![
            BranchEdge { parent_id: 1, branch_idx: 1, total_branches: 2 },
            BranchEdge { parent_id: 2, branch_idx: 0, total_branches: 1 },
        ]
    );
}

#[test]
fn layout_root_without_start_is_first_source() {
    // 1 -> 2, 3 -> 1; no start step: the first step nothing leads to is 3.
    let a = procedure(vec![step(1, &[Some(2)]), step(2, &[]), step(3, &[Some(1)])], None);
    let p = layout_plan(&a);
    assert_eq!(p.root, 2);
    assert_eq!(p.levels, vec![1, 2, 0]);
}

#[test]
fn layout_root_falls_back_to_first_step() {
    // Every step is linked to: 1 <-> 2; the start step is missing.
    let a = procedure(vec![step(1, &[Some(2)]), step(2, &[Some(1)])], Some(99));
    let p = layout_plan(&a);
    assert_eq!(p.root, 0);
    assert_eq!(p.levels, vec![0, 1]);
}

#[test]
fn layout_of_empty_procedure() {
    let a = procedure(vec![], None);
    let p = layout_plan(&a);
    assert!(p.order.is_empty());
    assert!(p.levels.is_empty());
}

#[test]
fn layout_ignores_links_to_missing_steps() {
    let a = procedure(vec![step(1, &[Some(42), Some(2)]), step(2, &[])], Some(1));
    let p = layout_plan(&a);
    assert_eq!(p.forward, vec![vec![1], vec![]]);
    assert_eq!(
        p.incoming[1],
        vec![BranchEdge { parent_id: 1, branch_idx: 1, total_branches: 2 }]
    );
}
