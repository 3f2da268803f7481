use std::collections::HashSet;

use algo_builder::edits::{kind_for_choice, DEFAULT_MAX_BITS, DEFAULT_MIN_BITS};
use algo_builder::i18n::Language;
use algo_builder::links::{connect_step, cut_links_into, disconnect_step, wire_key, LinkKind};
use algo_builder::models::{Algorithm, CanvasPos, OptionLink, Step, StepKind, WireStyle};

fn step(id: u128) -> Step {
    let mut s = Step::new("S".to_string(), CanvasPos { x: 0, y: 0 });
    s.id = id;
    s
}

fn measurement(n: Option<u128>, a: Option<u128>) -> StepKind {
    StepKind::Measurement {
        unit: "V".to_string(),
        min_val: 0,
        max_val: 0,
        next_if_normal: n,
        next_if_abnormal: a,
    }
}

fn exits(s: &Step) -> (Option<u128>, Option<u128>) {
    match &s.kind {
        StepKind::Measurement { next_if_normal, next_if_abnormal, .. } => (*next_if_normal, *next_if_abnormal),
        StepKind::Subprocess { next_if_success, next_if_failure, .. } => (*next_if_success, *next_if_failure),
        StepKind::SafetyWarning { next_step_id, .. } => (*next_step_id, None),
        StepKind::Standard => (None, None),
    }
}

#[test]
fn connect_fills_first_free_option() {
    let mut s = step(1);
    s.options.push(OptionLink { text: "a".to_string(), next_step_id: Some(5) });
    s.options.push(OptionLink { text: "b".to_string(), next_step_id: None });
    connect_step(&mut s, 9, Language::Ru);
    assert_eq!(s.options.len(), 2);
    assert_eq!(s.options[1].next_step_id, Some(9));
    assert_eq!(s.options[1].text, "b");
}

#[test]
fn connect_adds_numbered_option() {
    let mut s = step(1);
    s.options.push(OptionLink { text: "a".to_string(), next_step_id: Some(5) });
    connect_step(&mut s, 9, Language::En);
    assert_eq!(s.options.len(), 2);
    assert_eq!(s.options[1], OptionLink { text: "Option 2".to_string(), next_step_id: Some(9) });
    let mut e = step(2);
    connect_step(&mut e, 3, Language::Ru);
    assert_eq!(e.options[0], OptionLink { text: "Переход 1".to_string(), next_step_id: Some(3) });
}

#[test]
fn connect_measurement_normal_then_abnormal_then_normal() {
    let mut s = step(1);
    s.kind = measurement(None, None);
    connect_step(&mut s, 7, Language::Ru);
    assert_eq!(exits(&s), (Some(7), None));
    connect_step(&mut s, 8, Language::Ru);
    assert_eq!(exits(&s), (Some(7), Some(8)));
    connect_step(&mut s, 9, Language::Ru);
    assert_eq!(exits(&s), (Some(9), Some(8)));
}

#[test]
fn connect_safety_and_subprocess() {
    let mut s = step(1);
    s.kind = StepKind::SafetyWarning { ack_text: "ok".to_string(), next_step_id: Some(4) };
    connect_step(&mut s, 6, Language::Ru);
    assert_eq!(exits(&s), (Some(6), None));
    let mut p = step(2);
    p.kind = StepKind::Subprocess {
        sub_algo: Box::new(Algorithm::default()),
        next_if_success: None,
        next_if_failure: None,
    };
    connect_step(&mut p, 6, Language::Ru);
    connect_step(&mut p, 7, Language::Ru);
    assert_eq!(exits(&p), (Some(6), Some(7)));
}

#[test]
fn disconnect_cuts_one_exit() {
    let mut s = step(1);
    s.options.push(OptionLink { text: "a".to_string(), next_step_id: Some(5) });
    disconnect_step(&mut s, LinkKind::Option(0));
    assert_eq!(s.options[0].next_step_id, None);
    disconnect_step(&mut s, LinkKind::Option(3));
    assert_eq!(s.options.len(), 1);
    let mut m = step(2);
    m.kind = measurement(Some(1), Some(2));
    disconnect_step(&mut m, LinkKind::Abnormal);
    assert_eq!(exits(&m), (Some(1), None));
    disconnect_step(&mut m, LinkKind::Safety);
    assert_eq!(exits(&m), (Some(1), None));
    disconnect_step(&mut m, LinkKind::Normal);
    assert_eq!(exits(&m), (None, None));
}

#[test]
fn cut_links_into_deleted_steps() {
    let mut s = step(1);
    s.options.push(OptionLink { text: "a".to_string(), next_step_id: Some(5) });
    s.options.push(OptionLink { text: "b".to_string(), next_step_id: Some(6) });
    let del: HashSet<u128> = [5u128].into_iter().collect();
    cut_links_into(&mut s, &del);
    assert_eq!(s.options[0].next_step_id, None);
    assert_eq!(s.options[1].next_step_id, Some(6));
    let mut m = step(2);
    m.kind = measurement(Some(5), Some(6));
    cut_links_into(&mut m, &del);
    assert_eq!(exits(&m), (None, Some(6)));
    // Sub-procedure exits are kept.
    let mut p = step(3);
    p.kind = StepKind::Subprocess {
        sub_algo: Box::new(Algorithm::default()),
        next_if_success: Some(5),
        next_if_failure: None,
    };
    cut_links_into(&mut p, &del);
    assert_eq!(exits(&p), (Some(5), None));
}

#[test]
fn wire_key_is_two_hyphenated_uuids() {
    let k = wire_key(0x0123456789abcdef0123456789abcdef, 1);
    assert_eq!(
        k,
        "01234567-89ab-cdef-0123-456789abcdef:00000000-0000-0000-0000-000000000001"
    );
}

#[test]
fn wire_styles_are_kept_per_link() {
    let mut a = Algorithm::default();
    assert_eq!(a.wire_style_for(1, 2, WireStyle::Curved), WireStyle::Curved);
    a.set_wire_style(wire_key(1, 2), WireStyle::Orthogonal);
    assert_eq!(a.wire_style_for(1, 2, WireStyle::Curved), WireStyle::Orthogonal);
    assert_eq!(a.wire_style_for(2, 1, WireStyle::Curved), WireStyle::Curved);
    a.set_wire_style(wire_key(1, 2), WireStyle::Curved);
    assert_eq!(a.wire_styles.len(), 1);
    assert_eq!(a.wire_style_for(1, 2, WireStyle::Orthogonal), WireStyle::Curved);
}

#[test]
fn inspector_kind_choice() {
    assert_eq!(f64::from_bits(DEFAULT_MIN_BITS), 200.0);
    assert_eq!(f64::from_bits(DEFAULT_MAX_BITS), 240.0);
    match kind_for_choice(1, Language::En) {
        StepKind::Measurement { unit, min_val, max_val, next_if_normal, next_if_abnormal } => {
            assert_eq!(unit, "V");
            assert_eq!(f64::from_bits(min_val), 200.0);
            assert_eq!(f64::from_bits(max_val), 240.0);
            assert!(next_if_normal.is_none() && next_if_abnormal.is_none());
        }
        _ => panic!("expected a measurement"),
    }
    match kind_for_choice(2, Language::Ru) {
        StepKind::SafetyWarning { ack_text, next_step_id } => {
            assert_eq!(ack_text, "Оборудование обесточено");
            assert!(next_step_id.is_none());
        }
        _ => panic!("expected a safety warning"),
    }
    assert!(matches!(kind_for_choice(0, Language::Ru), StepKind::Standard));
    assert!(matches!(kind_for_choice(7, Language::Ru), StepKind::Standard));

    let mut s = step(1);
    s.kind = StepKind::SafetyWarning { ack_text: "ok".to_string(), next_step_id: Some(5) };
    assert_eq!(s.kind_choice(), 2);
    s.choose_kind(2, Language::En);
    assert!(matches!(&s.kind, StepKind::SafetyWarning { ack_text, next_step_id: Some(5) } if ack_text == "ok"));
    s.choose_kind(1, Language::Ru);
    assert_eq!(s.kind_choice(), 1);
    assert!(matches!(&s.kind, StepKind::Measurement { unit, .. } if unit == "В"));
}

#[test]
fn inspector_branches() {
    let mut s = step(1);
    s.options.push(OptionLink { text: "a".to_string(), next_step_id: Some(2) });
    s.options.push(OptionLink { text: "b".to_string(), next_step_id: Some(3) });
    s.add_branch(Language::Ru);
    assert_eq!(s.options.len(), 3);
    assert_eq!(s.options[2].text, "Да");
    assert!(s.options[2].next_step_id.is_none());
    s.remove_option(0);
    let targets: Vec<Option<u128>> = s.options.iter().map(|o| o.next_step_id).collect();
    assert_eq!(targets, vec![Some(3), None]);
    assert_eq!(s.options[0].text, "b");
}
