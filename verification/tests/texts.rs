use algo_builder::i18n::{decimal_string, Language};

#[test]
fn decimal_string_writes_numbers() {
    assert_eq!(decimal_string(0), "0");
    assert_eq!(decimal_string(7), "7");
    assert_eq!(decimal_string(40), "40");
    assert_eq!(decimal_string(1234567), "1234567");
}

#[test]
fn step_default_name_numbers_steps() {
    assert_eq!(Language::Ru.step_default_name(3), "Шаг 3");
    assert_eq!(Language::En.step_default_name(12), "Step 12");
}

#[test]
fn copy_suffix_marks_copies() {
    assert_eq!(Language::Ru.copy_suffix("Проверка"), "Проверка (копия)");
    assert_eq!(Language::En.copy_suffix("Check"), "Check (copy)");
}

#[test]
fn default_option_link_text_numbers_options() {
    assert_eq!(Language::Ru.default_option_link_text(2), "Переход 2");
    assert_eq!(Language::En.default_option_link_text(1), "Option 1");
}

#[test]
fn texts_follow_the_language() {
    assert_eq!(Language::Ru.default_equipment_name(), "Новое оборудование");
    assert_eq!(Language::En.default_equipment_name(), "New Equipment");
    assert_eq!(Language::Ru.no_manufacturer(), "Без бренда");
    assert_eq!(Language::En.no_model(), "General");
    assert_eq!(Language::En.untitled(), "Untitled");
}
