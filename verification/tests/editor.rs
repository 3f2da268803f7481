use algo_builder::editor::{zoom_step_percent, AlgoApp, MAX_UNDO_DEPTH};
use algo_builder::i18n::Language;
use algo_builder::links::LinkKind;
use algo_builder::models::{Algorithm, CanvasPos, OptionLink, Step, StepKind, WireStyle};
use algo_builder::settings::AppSettings;

fn app() -> AlgoApp {
    AlgoApp::new(AppSettings::default())
}

fn step(id: u128, title: &str, targets: &[Option<u128>]) -> Step {
    let mut s = Step::new(title.to_string(), CanvasPos { x: id as u32, y: 0 });
    s.id = id;
    for t in targets {
        s.options.push(OptionLink { text: "o".to_string(), next_step_id: *t });
    }
    s
}

fn with_steps(steps: Vec<Step>, first: Option<u128>) -> AlgoApp {
    let mut a = app();
    a.active_algo.steps = steps;
    a.active_algo.first_step_id = first;
    a.mark_saved();
    a
}

fn ids(a: &AlgoApp) -> Vec<u128> {
    a.active_algo.steps.iter().map(|s| s.id).collect()
}

#[test]
fn new_editor_starts_empty_and_saved() {
    let a = app();
    assert_eq!(a.current_tab, "Конструктор");
    assert!(a.active_algo.steps.is_empty());
    assert_eq!(a.active_algo.metadata.name, "Новое оборудование");
    assert!(!a.has_unsaved_changes());
    assert!(a.undo_stack.is_empty() && a.redo_stack.is_empty());
    let mut s = AppSettings::default();
    s.language = Language::En;
    let b = AlgoApp::new(s);
    assert_eq!(b.active_algo.metadata.name, "New Equipment");
}

#[test]
fn edit_then_undo_then_redo() {
    let mut a = app();
    let id = a.add_step_at(CanvasPos { x: 10, y: 20 });
    assert_eq!(a.active_algo.steps.len(), 1);
    assert_eq!(a.active_algo.steps[0].title, "Шаг 1");
    assert_eq!(a.active_algo.first_step_id, Some(id));
    assert!(a.selected_step_ids.contains(&id));
    assert!(a.has_unsaved_changes());
    a.undo();
    assert!(a.active_algo.steps.is_empty());
    assert!(a.selected_step_ids.is_empty());
    assert!(!a.has_unsaved_changes());
    a.redo();
    assert_eq!(ids(&a), vec![id]);
    assert!(a.redo_stack.is_empty());
    assert_eq!(a.undo_stack.len(), 1);
}

#[test]
fn undo_and_redo_with_empty_history_do_nothing() {
    let mut a = with_steps(vec![step(1, "A", &[])], Some(1));
    a.undo();
    assert_eq!(ids(&a), vec![1]);
    a.redo();
    assert_eq!(ids(&a), vec![1]);
}

#[test]
fn snapshot_skips_duplicates_and_caps_depth() {
    let mut a = app();
    a.snapshot_for_undo();
    a.snapshot_for_undo();
    assert_eq!(a.undo_stack.len(), 1);
    for _ in 0..60 {
        a.add_step_at(CanvasPos { x: 0, y: 0 });
    }
    assert_eq!(a.undo_stack.len(), MAX_UNDO_DEPTH);
    assert_eq!(a.active_algo.steps.len(), 60);
    // The oldest kept snapshot is the procedure with 20 steps.
    assert_eq!(a.undo_stack[0].steps.len(), 20);
}

#[test]
fn new_edit_clears_redo() {
    let mut a = app();
    a.add_step_at(CanvasPos { x: 0, y: 0 });
    a.undo();
    assert_eq!(a.redo_stack.len(), 1);
    a.add_step_at(CanvasPos { x: 0, y: 0 });
    assert!(a.redo_stack.is_empty());
}

#[test]
fn delete_selected_removes_steps_and_links() {
    let mut a = with_steps(
        vec![step(1, "A", &[Some(2), Some(3)]), step(2, "B", &[Some(3)]), step(3, "C", &[])],
        Some(1),
    );
    a.selected_step_ids.insert(1);
    a.selected_step_ids.insert(3);
    a.delete_selected();
    assert_eq!(ids(&a), vec![2]);
    assert_eq!(a.active_algo.steps[0].options[0].next_step_id, None);
    assert_eq!(a.active_algo.first_step_id, Some(2));
    assert!(a.selected_step_ids.is_empty());
    a.undo();
    assert_eq!(ids(&a), vec![1, 2, 3]);
    assert_eq!(a.active_algo.first_step_id, Some(1));
}

#[test]
fn delete_with_nothing_selected_does_nothing() {
    let mut a = with_steps(vec![step(1, "A", &[])], Some(1));
    a.delete_selected();
    assert_eq!(ids(&a), vec![1]);
    assert!(a.undo_stack.is_empty());
}

#[test]
fn deleting_every_step_leaves_no_start() {
    let mut a = with_steps(vec![step(1, "A", &[])], Some(1));
    a.selected_step_ids.insert(1);
    a.delete_selected();
    assert!(a.active_algo.steps.is_empty());
    assert_eq!(a.active_algo.first_step_id, None);
}

#[test]
fn duplicate_selected_copies_in_step_order() {
    let mut a = with_steps(
        vec![step(1, "A", &[Some(2)]), step(2, "B", &[]), step(3, "C", &[])],
        Some(1),
    );
    a.selected_step_ids.insert(3);
    a.selected_step_ids.insert(1);
    let pairs = a.duplicate_selected();
    assert_eq!(pairs.len(), 2);
    assert_eq!(pairs[0].0, 1);
    assert_eq!(pairs[1].0, 3);
    assert_eq!(a.active_algo.steps.len(), 5);
    let c1 = &a.active_algo.steps[3];
    assert_eq!(c1.id, pairs[0].1);
    assert_eq!(c1.title, "A (копия)");
    assert_eq!(c1.options[0].next_step_id, Some(2));
    assert_eq!(c1.pos, CanvasPos { x: 1, y: 0 });
    assert_eq!(a.active_algo.steps[4].title, "C (копия)");
    assert_eq!(a.selected_step_ids.len(), 2);
    assert!(a.selected_step_ids.contains(&pairs[1].1));
    a.undo();
    assert_eq!(ids(&a), vec![1, 2, 3]);
}

#[test]
fn connect_nodes_links_and_refuses_self_links() {
    let mut a = with_steps(vec![step(1, "A", &[]), step(2, "B", &[])], Some(1));
    a.connect_nodes(1, 1);
    assert!(a.undo_stack.is_empty());
    a.connect_nodes(1, 2);
    assert_eq!(
        a.active_algo.steps[0].options,
        vec![OptionLink { text: "Переход 1".to_string(), next_step_id: Some(2) }]
    );
    a.connect_nodes(9, 2);
    assert_eq!(a.active_algo.steps[0].options.len(), 1);
}

#[test]
fn disconnect_link_cuts_measurement_exit() {
    let mut s = step(1, "M", &[]);
    s.kind = StepKind::Measurement {
        unit: "V".to_string(),
        min_val: 0,
        max_val: 0,
        next_if_normal: Some(2),
        next_if_abnormal: Some(3),
    };
    let mut a = with_steps(vec![s, step(2, "B", &[]), step(3, "C", &[])], Some(1));
    a.disconnect_link(1, LinkKind::Normal);
    match &a.active_algo.steps[0].kind {
        StepKind::Measurement { next_if_normal, next_if_abnormal, .. } => {
            assert_eq!(*next_if_normal, None);
            assert_eq!(*next_if_abnormal, Some(3));
        }
        _ => panic!("kind changed"),
    }
}

#[test]
fn toggle_wire_style_starts_from_default() {
    let mut a = with_steps(vec![step(1, "A", &[Some(2)]), step(2, "B", &[])], Some(1));
    assert_eq!(a.toggle_wire_style(1, 2), WireStyle::Orthogonal);
    assert_eq!(a.toggle_wire_style(1, 2), WireStyle::Curved);
    assert_eq!(a.active_algo.wire_styles.len(), 1);
    a.undo();
    assert_eq!(a.active_algo.wire_style_for(1, 2, WireStyle::Curved), WireStyle::Orthogonal);
}

#[test]
fn set_start_and_add_first_step() {
    let mut a = app();
    let id = a.add_first_step_at(CanvasPos { x: 0, y: 0 });
    assert_eq!(a.active_algo.steps[0].title, "Шаг 1");
    assert_eq!(a.active_algo.first_step_id, Some(id));
    let id2 = a.add_step_at(CanvasPos { x: 0, y: 0 });
    assert_eq!(a.active_algo.steps[1].title, "Шаг 2");
    assert_eq!(a.active_algo.first_step_id, Some(id));
    a.set_start_step(id2);
    assert_eq!(a.active_algo.first_step_id, Some(id2));
}

#[test]
fn move_steps_places_listed_steps() {
    let mut a = with_steps(vec![step(1, "A", &[]), step(2, "B", &[])], Some(1));
    a.move_steps(&vec![(2, CanvasPos { x: 7, y: 8 }), (2, CanvasPos { x: 9, y: 9 })]);
    assert_eq!(a.active_algo.steps[0].pos, CanvasPos { x: 1, y: 0 });
    assert_eq!(a.active_algo.steps[1].pos, CanvasPos { x: 7, y: 8 });
}

#[test]
fn click_selection_rules() {
    let mut a = with_steps(vec![step(1, "A", &[]), step(2, "B", &[])], Some(1));
    a.click_step(1, false);
    a.click_step(2, true);
    assert_eq!(a.selected_step_ids.len(), 2);
    a.click_step(2, false);
    assert_eq!(a.selected_step_ids.len(), 2);
    a.click_step(1, true);
    assert!(!a.selected_step_ids.contains(&1));
    a.clear_selection();
    assert!(a.selected_step_ids.is_empty());
    a.add_to_selection(&vec![1, 2, 1]);
    assert_eq!(a.selected_step_ids.len(), 2);
}

#[test]
fn search_finds_title_and_description_ignoring_case() {
    let mut s2 = step(2, "Замер", &[]);
    s2.description = "Проверьте НАПРЯЖЕНИЕ".to_string();
    let mut a = with_steps(vec![step(1, "Напряжение сети", &[]), s2, step(3, "Конец", &[])], Some(1));
    a.search_query = "  напряжение ".to_string();
    a.update_search_query();
    assert_eq!(a.search_results, vec![1, 2]);
    assert_eq!(a.jump_to_current_search_match(), Some(1));
    assert_eq!(a.next_search_match(), Some(2));
    assert_eq!(a.next_search_match(), Some(1));
    assert_eq!(a.prev_search_match(), Some(2));
    assert!(a.selected_step_ids.contains(&2) && a.selected_step_ids.len() == 1);
    a.search_query = "   ".to_string();
    a.update_search_query();
    assert!(a.search_results.is_empty());
    assert_eq!(a.current_search_idx, 0);
    assert_eq!(a.next_search_match(), None);
}

#[test]
fn search_index_resets_when_past_matches() {
    let mut a = with_steps(vec![step(1, "ab", &[]), step(2, "ab", &[])], Some(1));
    a.search_query = "ab".to_string();
    a.update_search_query();
    a.current_search_idx = 1;
    a.search_query = "AB".to_string();
    a.update_search_query();
    assert_eq!(a.current_search_idx, 1);
    a.active_algo.steps.pop();
    a.update_search_query();
    assert_eq!(a.current_search_idx, 0);
}

#[test]
fn zoom_steps_to_multiples_of_ten() {
    assert_eq!(zoom_step_percent(100, true), 110);
    assert_eq!(zoom_step_percent(100, false), 90);
    assert_eq!(zoom_step_percent(95, true), 100);
    assert_eq!(zoom_step_percent(95, false), 90);
    assert_eq!(zoom_step_percent(30, false), 30);
    assert_eq!(zoom_step_percent(250, true), 250);
    assert_eq!(zoom_step_percent(5, true), 30);
    assert_eq!(zoom_step_percent(400, false), 250);
}

#[test]
fn open_procedures_from_archive() {
    let mut a = app();
    let mut p = Algorithm::default();
    p.steps.push(step(7, "A", &[]));
    p.first_step_id = Some(7);
    a.open_in_builder(p.deep_clone());
    assert_eq!(ids(&a), vec![7]);
    assert!(a.selected_step_ids.contains(&7));
    assert!(!a.has_unsaved_changes());
    assert_eq!(a.current_tab, "Конструктор");
    assert_eq!(a.open_in_runner(p), Some(7));
    assert_eq!(a.current_tab, "Диагностика");
    assert_eq!(a.runner.current_step_id, Some(7));
}

#[test]
fn new_procedure_and_import() {
    let mut a = with_steps(vec![step(1, "A", &[])], Some(1));
    a.new_procedure();
    assert!(a.active_algo.steps.is_empty());
    assert!(!a.has_unsaved_changes());
    a.undo();
    assert_eq!(ids(&a), vec![1]);
    let mut imported = Algorithm::default();
    a.archive_list.push(imported.deep_clone());
    let old_id = imported.id;
    assert!(a.archive_has_id(old_id));
    a.fresh_import_id(&mut imported);
    assert_ne!(imported.id, old_id);
    let id2 = imported.id;
    a.fresh_import_id(&mut imported);
    assert_eq!(imported.id, id2);
    a.adopt_imported(imported);
    assert_eq!(a.active_algo.id, id2);
    assert!(!a.has_unsaved_changes());
}

#[test]
fn search_hits_on_lowered_texts() {
    let lowered = vec![
        (1u128, "pump check".to_string(), "".to_string()),
        (2u128, "fan".to_string(), "check the pump".to_string()),
        (3u128, "valve".to_string(), "open".to_string()),
    ];
    assert_eq!(algo_builder::editor::search_hits_lowered(&lowered, "pump"), vec![1, 2]);
    assert_eq!(algo_builder::editor::search_hits_lowered(&lowered, "PUMP"), Vec::<u128>::new());
    assert_eq!(algo_builder::editor::search_hits_lowered(&lowered, ""), vec![1, 2, 3]);
}

#[test]
fn nudging_to_minus_zero_is_no_change() {
    let mut s = Step::new("A".to_string(), CanvasPos { x: 0.0_f32.to_bits(), y: 0 });
    s.id = 1;
    let mut a = with_steps(vec![s], Some(1));
    assert!(!a.has_unsaved_changes());
    a.active_algo.steps[0].pos.x = (-0.0_f32).to_bits();
    assert!(!a.has_unsaved_changes());
    assert!(!a.close_needs_confirmation());
    a.active_algo.steps[0].pos.x = 2.0_f32.to_bits();
    assert!(a.has_unsaved_changes());
    assert!(a.close_needs_confirmation());
    a.force_close = true;
    assert!(!a.close_needs_confirmation());
}

#[test]
fn wire_styles_set_in_another_order_are_no_change() {
    let mut a = with_steps(vec![step(1, "A", &[]), step(2, "B", &[])], Some(1));
    a.toggle_wire_style(1, 2);
    a.toggle_wire_style(2, 1);
    a.mark_saved();
    a.active_algo.wire_styles.reverse();
    assert!(!a.has_unsaved_changes());
    a.toggle_wire_style(1, 2);
    assert!(a.has_unsaved_changes());
}

#[test]
fn snapshot_skips_a_copy_with_minus_zero() {
    let mut s = Step::new("A".to_string(), CanvasPos { x: 0.0_f32.to_bits(), y: 0 });
    s.id = 1;
    let mut a = with_steps(vec![s], Some(1));
    a.snapshot_for_undo();
    a.active_algo.steps[0].pos.x = (-0.0_f32).to_bits();
    a.snapshot_for_undo();
    assert_eq!(a.undo_stack.len(), 1);
}
