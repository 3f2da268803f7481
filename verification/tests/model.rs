use algo_builder::models::{
    Algorithm, CanvasPos, EquipmentInfo, OptionLink, Step, StepKind, Timestamp, WireStyle,
};
use algo_builder::settings::{default_true, AppSettings, AppTheme};
use algo_builder::i18n::Language;

fn is_random_uuid(id: u128) -> bool {
    (id >> 76) & 15 == 4 && (id >> 62) & 3 == 2
}

#[test]
fn new_step_is_an_empty_standard_step() {
    let s = Step::new("A".to_string(), CanvasPos { x: 1, y: 2 });
    assert!(is_random_uuid(s.id));
    assert_eq!(s.title, "A");
    assert_eq!(s.description, "");
    assert!(matches!(s.kind, StepKind::Standard));
    assert!(s.options.is_empty());
    assert!(s.image_path.is_none());
    assert_eq!(s.pos, CanvasPos { x: 1, y: 2 });
}

#[test]
fn new_steps_get_different_identifiers() {
    let a = Step::new("A".to_string(), CanvasPos { x: 0, y: 0 });
    let b = Step::new("A".to_string(), CanvasPos { x: 0, y: 0 });
    assert_ne!(a.id, b.id);
}

#[test]
fn default_procedure_is_empty() {
    let a = Algorithm::default();
    assert!(is_random_uuid(a.id));
    assert!(a.steps.is_empty());
    assert!(a.first_step_id.is_none());
    assert!(a.wire_styles.is_empty());
    assert_eq!(a.metadata.name, "Новое оборудование");
    assert_eq!(a.metadata.manufacturer, "");
    assert!(a.metadata.created_at.nanos < 1_000_000_000);
}

#[test]
fn default_passport_is_dated_now() {
    let e = EquipmentInfo::default();
    assert!(e.created_at.secs > 1_600_000_000);
    assert!(e.updated_at.secs >= e.created_at.secs);
}

#[test]
fn deep_clone_is_equal() {
    let mut a = Algorithm::default();
    let mut s = Step::new("A".to_string(), CanvasPos { x: 3, y: 4 });
    s.options.push(OptionLink { text: "yes".to_string(), next_step_id: Some(9) });
    s.kind = StepKind::Subprocess {
        sub_algo: Box::new(Algorithm::default()),
        next_if_success: Some(1),
        next_if_failure: None,
    };
    a.steps.push(s);
    a.wire_styles.push(("k".to_string(), WireStyle::Orthogonal));
    let b = a.deep_clone();
    assert!(a.equals(&b));
    let mut c = a.deep_clone();
    c.steps[0].options[0].text = "no".to_string();
    assert!(!a.equals(&c));
}

#[test]
fn touch_moves_updated_at_only() {
    let mut a = Algorithm::default();
    a.metadata.updated_at = Timestamp { secs: 5, nanos: 0 };
    let before = a.deep_clone();
    a.touch();
    assert!(a.metadata.updated_at.secs > 5);
    assert_eq!(a.metadata.created_at, before.metadata.created_at);
    assert_eq!(a.id, before.id);
}

#[test]
fn settings_defaults() {
    let s = AppSettings::default();
    assert_eq!(s.language, Language::Ru);
    assert_eq!(s.theme, AppTheme::Dark);
    assert!(s.minimap_show_links);
    assert!(s.snap_to_grid);
    assert_eq!(s.default_wire_style, WireStyle::Curved);
    assert!(default_true());
    assert_eq!(WireStyle::default(), WireStyle::Curved);
}

fn positioned(x: f32, y: f32) -> Algorithm {
    let mut a = Algorithm::default();
    a.id = 7;
    let mut s = Step::new("A".to_string(), CanvasPos { x: x.to_bits(), y: y.to_bits() });
    s.id = 1;
    a.steps.push(s);
    a
}

#[test]
fn positions_compare_as_floats() {
    let zero = positioned(0.0_f32, 5.0_f32);
    let mut minus_zero = zero.deep_clone();
    minus_zero.steps[0].pos.x = (-0.0_f32).to_bits();
    assert!(zero.equals(&minus_zero));
    let mut nan = zero.deep_clone();
    nan.steps[0].pos.y = f32::NAN.to_bits();
    let nan_copy = nan.deep_clone();
    assert!(!nan.equals(&nan_copy));
    let mut moved = zero.deep_clone();
    moved.steps[0].pos.x = 1.0_f32.to_bits();
    assert!(!zero.equals(&moved));
}

#[test]
fn tolerances_compare_as_floats() {
    let measurement = |lo: f64, hi: f64| StepKind::Measurement {
        unit: "V".to_string(),
        min_val: lo.to_bits(),
        max_val: hi.to_bits(),
        next_if_normal: None,
        next_if_abnormal: None,
    };
    assert!(measurement(0.0, 1.0).equals(&measurement(-0.0, 1.0)));
    assert!(!measurement(f64::NAN, 1.0).equals(&measurement(f64::NAN, 1.0)));
    assert!(!measurement(0.0, 1.0).equals(&measurement(0.0, 2.0)));
}

#[test]
fn link_styles_compare_as_maps() {
    let mut a = positioned(0.0_f32, 0.0_f32);
    let mut b = a.deep_clone();
    a.set_wire_style("x".to_string(), WireStyle::Orthogonal);
    a.set_wire_style("y".to_string(), WireStyle::Curved);
    b.set_wire_style("y".to_string(), WireStyle::Curved);
    b.set_wire_style("x".to_string(), WireStyle::Orthogonal);
    assert!(a.equals(&b));
    b.set_wire_style("x".to_string(), WireStyle::Curved);
    assert!(!a.equals(&b));
    let mut c = a.deep_clone();
    c.set_wire_style("z".to_string(), WireStyle::Curved);
    assert!(!a.equals(&c));
    assert!(!c.equals(&a));
}

#[test]
fn link_style_keys_stay_unique() {
    let mut a = Algorithm::default();
    a.set_wire_style("x".to_string(), WireStyle::Orthogonal);
    a.set_wire_style("x".to_string(), WireStyle::Curved);
    a.set_wire_style("y".to_string(), WireStyle::Curved);
    a.set_wire_style("x".to_string(), WireStyle::Orthogonal);
    assert_eq!(a.wire_styles.len(), 2);
    assert_eq!(a.wire_styles[0], ("x".to_string(), WireStyle::Orthogonal));
    assert_eq!(a.wire_styles[1], ("y".to_string(), WireStyle::Curved));
}

#[test]
fn default_procedure_is_dated_now() {
    let a = Algorithm::default();
    assert!(a.metadata.created_at.secs > 1_600_000_000);
    assert!(a.metadata.updated_at.nanos < 1_000_000_000);
}
