use algo_builder::archive::{display_name, group_label_of, query_hits, sort_by_updated_desc};
use algo_builder::editor::AlgoApp;
use algo_builder::i18n::Language;
use algo_builder::models::{Algorithm, Timestamp};
use algo_builder::settings::AppSettings;

fn entry(id: u128, name: &str, mfg: &str, model: &str, secs: i64, nanos: u32) -> Algorithm {
    let mut a = Algorithm::default();
    a.id = id;
    a.metadata.name = name.to_string();
    a.metadata.manufacturer = mfg.to_string();
    a.metadata.model = model.to_string();
    a.metadata.updated_at = Timestamp { secs, nanos };
    a
}

fn ids(v: &[Algorithm]) -> Vec<u128> {
    v.iter().map(|a| a.id).collect()
}

#[test]
fn sort_newest_first_and_stable() {
    let list = vec![
        entry(1, "a", "", "", 10, 0),
        entry(2, "b", "", "", 30, 0),
        entry(3, "c", "", "", 10, 0),
        entry(4, "d", "", "", 10, 5),
        entry(5, "e", "", "", 30, 0),
    ];
    let sorted = sort_by_updated_desc(&list);
    assert_eq!(ids(&sorted), vec![2, 5, 4, 1, 3]);
}

#[test]
fn group_labels_fall_back_when_blank() {
    assert_eq!(group_label_of(&"  ACME ".to_string(), "Без бренда"), "ACME");
    assert_eq!(group_label_of(&" \t".to_string(), "Без бренда"), "Без бренда");
}

#[test]
fn display_name_of_untitled() {
    let a = entry(1, "  ", "", "", 0, 0);
    assert_eq!(display_name(&a, Language::En), "Untitled");
    let b = entry(1, " Pump ", "", "", 0, 0);
    assert_eq!(display_name(&b, Language::Ru), " Pump ");
}

#[test]
fn archive_filters_by_groups_and_query() {
    let mut app = AlgoApp::new(AppSettings::default());
    app.set_archive(vec![
        entry(1, "Насос", "ACME", "X1", 1, 0),
        entry(2, "Pump check", " ACME", "", 3, 0),
        entry(3, "Fan", "", "X1", 2, 0),
    ]);
    assert!(app.archive_loaded);
    assert_eq!(ids(&app.archive_list), vec![2, 3, 1]);
    assert_eq!(app.filtered_archive(), vec![0, 1, 2]);
    app.archive_selected_mfg = Some("ACME".to_string());
    assert_eq!(app.filtered_archive(), vec![0, 2]);
    app.archive_selected_model = Some("Общее".to_string());
    assert_eq!(app.filtered_archive(), vec![0]);
    app.archive_selected_mfg = Some("Без бренда".to_string());
    app.archive_selected_model = None;
    assert_eq!(app.filtered_archive(), vec![1]);
    app.archive_selected_mfg = None;
    app.archive_search = "  PUMP ".to_string();
    assert_eq!(app.filtered_archive(), vec![0]);
    app.archive_search = "acme".to_string();
    assert_eq!(app.filtered_archive(), vec![0, 2]);
    app.archive_search = "zzz".to_string();
    assert!(app.filtered_archive().is_empty());
}

#[test]
fn tally_counts_and_orders_texts() {
    let keys: Vec<String> = vec!["b", "a", "b", "Б", "a", "b"].into_iter().map(String::from).collect();
    let t = algo_builder::archive::tally(&keys);
    assert_eq!(
        t,
        vec![("a".to_string(), 2), ("b".to_string(), 3), ("Б".to_string(), 1)]
    );
    assert!(algo_builder::archive::tally(&Vec::new()).is_empty());
}

#[test]
fn catalogue_groups_by_manufacturer_and_model() {
    let mut app = AlgoApp::new(AppSettings::default());
    app.set_archive(vec![
        entry(1, "a", "Zeta", "M2", 1, 0),
        entry(2, "b", " ", "M1", 2, 0),
        entry(3, "c", "Zeta", "", 3, 0),
        entry(4, "d", "Alpha", "M1", 4, 0),
        entry(5, "e", "Zeta ", "M2", 5, 0),
    ]);
    let cat = app.archive_catalogue();
    let makers: Vec<(String, usize)> = cat.iter().map(|g| (g.manufacturer.clone(), g.count)).collect();
    assert_eq!(
        makers,
        vec![("Alpha".to_string(), 1), ("Zeta".to_string(), 3), ("Без бренда".to_string(), 1)]
    );
    assert_eq!(cat[1].models, vec![("M2".to_string(), 2), ("Общее".to_string(), 1)]);
    assert_eq!(cat[2].models, vec![("M1".to_string(), 1)]);
}

#[test]
fn query_hits_any_field() {
    let fields: Vec<String> = vec!["pump".to_string(), "acme".to_string()];
    assert!(algo_builder::archive::query_hits(&fields, ""));
    assert!(algo_builder::archive::query_hits(&fields, "cm"));
    assert!(!algo_builder::archive::query_hits(&fields, "x"));
    assert!(!algo_builder::archive::query_hits(&Vec::new(), "x"));
}

#[test]
fn group_labels_trim_unicode_white_space() {
    assert_eq!(group_label_of(&"\u{a0}\u{2003} Щит ВРУ\t\n".to_string(), "—"), "Щит ВРУ");
    assert_eq!(group_label_of(&"\u{3000}\u{85}".to_string(), "—"), "—");
    assert_eq!(group_label_of(&"a b".to_string(), "—"), "a b");
}

#[test]
fn query_hits_match_runs_of_characters() {
    let fields = vec!["щит вру-0,4".to_string(), "abcabd".to_string()];
    assert!(query_hits(&fields, "вру"));
    assert!(query_hits(&fields, "abd"));
    assert!(query_hits(&fields, "щит вру-0,4"));
    assert!(!query_hits(&fields, "abda"));
    assert!(!query_hits(&fields, "щит вру-0,45"));
    assert!(query_hits(&fields, ""));
}
