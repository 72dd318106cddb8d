use wakalog::rank::{rank, ItemType, RankingItem};
use wakalog::{Date, RangeData, Store, Summaries, SummariesAll, SummariesData, SummariesDetail};

fn detail(name: &str, total_seconds_milli: u64) -> SummariesDetail {
    SummariesDetail {
        digital: String::new(),
        hours: 0,
        minutes: 0,
        seconds: 0,
        name: name.to_string(),
        percent_milli: 0,
        text: String::new(),
        total_seconds_milli,
        machine_name_id: None,
    }
}

fn range_data(date: &str) -> RangeData {
    RangeData {
        date: date.to_string(),
        start: format!("{}T00:00:00Z", date),
        end: format!("{}T23:59:59Z", date),
        text: date.to_string(),
        timezone: None,
    }
}

fn ingest_day(
    store: &mut Store,
    date: &str,
    editors: Vec<SummariesDetail>,
    languages: Vec<SummariesDetail>,
    projects: Vec<SummariesDetail>,
) {
    let day = Date::parse_iso(date).unwrap();
    let data = SummariesData::from_parts(
        None,
        None,
        None,
        None,
        Some(editors),
        Some(languages),
        None,
        None,
        Some(projects),
        None,
        range_data(date),
    );
    let all = SummariesAll::new(Summaries {
        data: vec![data],
        start: format!("{}T00:00:00Z", date),
        end: format!("{}T23:59:59Z", date),
    });
    wakalog::register_wakatime(store, &day, all);
}

fn hours(item: &RankingItem) -> f64 {
    item.total_seconds_milli as f64 / 3_600_000.0
}

#[test]
fn single_editor_one_hour() {
    let mut store = Store::new();
    ingest_day(&mut store, "2024-03-01", vec![detail("VSCode", 3_600_000)], vec![], vec![]);
    let from = Date::parse_iso("2024-03-01").unwrap();
    let to = Date::parse_iso("2024-03-01").unwrap();
    let r = rank(&store, ItemType::Editors, &from, &to).unwrap();
    assert_eq!(r.len(), 1);
    assert_eq!(r[0].title, "VSCode");
    assert_eq!(hours(&r[0]), 1.0);
}

#[test]
fn empty_store_gives_empty_ranking() {
    let store = Store::new();
    let from = Date::parse_iso("2024-03-01").unwrap();
    let to = Date::parse_iso("2024-03-31").unwrap();
    let r = rank(&store, ItemType::Editors, &from, &to).unwrap();
    assert!(r.is_empty());
}

#[test]
fn sums_across_days_and_sorts_descending() {
    let mut store = Store::new();
    ingest_day(
        &mut store,
        "2024-03-01",
        vec![detail("VSCode", 3_600_000), detail("Vim", 1_800_000)],
        vec![],
        vec![],
    );
    ingest_day(
        &mut store,
        "2024-03-02",
        vec![detail("Vim", 7_200_000), detail("VSCode", 1_800_000)],
        vec![],
        vec![],
    );
    let from = Date::parse_iso("2024-03-01").unwrap();
    let to = Date::parse_iso("2024-03-02").unwrap();
    let r = rank(&store, ItemType::Editors, &from, &to).unwrap();
    assert_eq!(r.len(), 2);
    assert_eq!(r[0].title, "Vim");
    assert_eq!(hours(&r[0]), 2.5);
    assert_eq!(r[1].title, "VSCode");
    assert_eq!(hours(&r[1]), 1.5);
}

#[test]
fn range_filter_is_inclusive() {
    let mut store = Store::new();
    ingest_day(&mut store, "2024-03-01", vec![detail("A", 1_000)], vec![], vec![]);
    ingest_day(&mut store, "2024-03-02", vec![detail("A", 2_000)], vec![], vec![]);
    ingest_day(&mut store, "2024-03-03", vec![detail("A", 4_000)], vec![], vec![]);
    let from = Date::parse_iso("2024-03-02").unwrap();
    let to = Date::parse_iso("2024-03-02").unwrap();
    let r = rank(&store, ItemType::Editors, &from, &to).unwrap();
    assert_eq!(r.len(), 1);
    assert_eq!(r[0].total_seconds_milli, 2_000);
}

#[test]
fn duplicate_names_within_one_row_are_summed() {
    let mut store = Store::new();
    ingest_day(
        &mut store,
        "2024-03-01",
        vec![detail("A", 1_000), detail("A", 2_000)],
        vec![],
        vec![],
    );
    let from = Date::parse_iso("2024-03-01").unwrap();
    let to = Date::parse_iso("2024-03-01").unwrap();
    let r = rank(&store, ItemType::Editors, &from, &to).unwrap();
    assert_eq!(r.len(), 1);
    assert_eq!(r[0].total_seconds_milli, 3_000);
}

#[test]
fn language_ranking_excludes_other() {
    let mut store = Store::new();
    ingest_day(
        &mut store,
        "2024-03-01",
        vec![],
        vec![detail("Rust", 2_000), detail("Other", 9_000)],
        vec![],
    );
    let from = Date::parse_iso("2024-03-01").unwrap();
    let to = Date::parse_iso("2024-03-01").unwrap();
    let r = RankingItem::get_lang_ranking(&from, &to, &store).unwrap();
    assert_eq!(r.len(), 1);
    assert_eq!(r[0].title, "Rust");
}

#[test]
fn project_ranking_excludes_unknown_project() {
    let mut store = Store::new();
    ingest_day(
        &mut store,
        "2024-03-01",
        vec![],
        vec![],
        vec![detail("site", 2_000), detail("Unknown Project", 9_000)],
    );
    let from = Date::parse_iso("2024-03-01").unwrap();
    let to = Date::parse_iso("2024-03-01").unwrap();
    let r = RankingItem::get_projects_ranking(&from, &to, &store).unwrap();
    assert_eq!(r.len(), 1);
    assert_eq!(r[0].title, "site");
}

#[test]
fn editor_ranking_keeps_other() {
    let mut store = Store::new();
    ingest_day(&mut store, "2024-03-01", vec![detail("Other", 5_000)], vec![], vec![]);
    let from = Date::parse_iso("2024-03-01").unwrap();
    let to = Date::parse_iso("2024-03-01").unwrap();
    let r = RankingItem::get_editors_ranking(&from, &to, &store).unwrap();
    assert_eq!(r.len(), 1);
    assert_eq!(r[0].title, "Other");
}

#[test]
fn rows_outside_the_range_do_not_count() {
    let mut store = Store::new();
    ingest_day(&mut store, "2024-02-29", vec![detail("A", 1_000)], vec![], vec![]);
    let from = Date::parse_iso("2024-03-01").unwrap();
    let to = Date::parse_iso("2024-03-31").unwrap();
    let r = rank(&store, ItemType::Editors, &from, &to).unwrap();
    assert!(r.is_empty());
}

#[test]
fn item_type_path_segments() {
    assert_eq!(ItemType::from_path_segment("editors"), Some(ItemType::Editors));
    assert_eq!(ItemType::from_path_segment("langs"), Some(ItemType::Langs));
    assert_eq!(ItemType::from_path_segment("projects"), Some(ItemType::Projects));
    assert_eq!(ItemType::from_path_segment("languages"), None);
    assert_eq!(ItemType::from_path_segment("stats"), None);
    assert_eq!(ItemType::Editors.path_segment(), "editors");
    assert_eq!(ItemType::Langs.path_segment(), "langs");
    assert_eq!(ItemType::Projects.path_segment(), "projects");
}

#[test]
fn item_type_parse_and_text() {
    assert_eq!(ItemType::parse("editors"), Some(ItemType::Editors));
    assert_eq!(ItemType::parse("languages"), Some(ItemType::Langs));
    assert_eq!(ItemType::parse("projects"), Some(ItemType::Projects));
    assert_eq!(ItemType::parse("branches"), None);
    assert_eq!(ItemType::parse(""), None);
    assert_eq!(ItemType::Editors.text(), "editors");
    assert_eq!(ItemType::Langs.text(), "languages");
    assert_eq!(ItemType::Projects.text(), "projects");
}
