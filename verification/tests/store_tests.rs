use wakalog::{Date, RangeData, Store, Summaries, SummariesAll, SummariesData, SummariesDetail};

fn detail(name: &str, total_seconds_milli: u64) -> SummariesDetail {
    SummariesDetail {
        digital: String::new(),
        hours: 0,
        minutes: 0,
        seconds: 0,
        name: name.to_string(),
        percent_milli: 0,
        text: String::new(),
        total_seconds_milli,
        machine_name_id: None,
    }
}

fn range_data(date: &str) -> RangeData {
    RangeData {
        date: date.to_string(),
        start: format!("{}T00:00:00Z", date),
        end: format!("{}T23:59:59Z", date),
        text: date.to_string(),
        timezone: None,
    }
}

fn bucket(
    editors: Vec<SummariesDetail>,
    languages: Vec<SummariesDetail>,
    projects: Vec<SummariesDetail>,
    grand_total: Option<SummariesDetail>,
    date: &str,
) -> SummariesData {
    SummariesData::from_parts(
        None,
        None,
        None,
        None,
        Some(editors),
        Some(languages),
        None,
        None,
        Some(projects),
        grand_total,
        range_data(date),
    )
}

fn composite(data: Vec<SummariesData>, date: &str) -> SummariesAll {
    SummariesAll::new(Summaries {
        data,
        start: format!("{}T00:00:00Z", date),
        end: format!("{}T23:59:59Z", date),
    })
}

#[test]
fn it_works() {
    assert_eq!(2 + 2, 4);
}

#[test]
fn upsert_new_date_inserts_row() {
    let mut store = Store::new();
    let date = Date::new(2024, 3, 1).unwrap();
    let all = composite(
        vec![bucket(vec![detail("VSCode", 3_600_000)], vec![], vec![], None, "2024-03-01")],
        "2024-03-01",
    );
    wakalog::register_wakatime(&mut store, &date, all);
    assert_eq!(store.len(), 1);
    assert_eq!(store.rows[0].date, date);
    assert_eq!(store.rows[0].editors.len(), 1);
    assert_eq!(store.rows[0].editors[0].name, "VSCode");
    assert_eq!(store.rows[0].editors[0].total_seconds_milli, 3_600_000);
}

#[test]
fn reingest_same_date_keeps_one_row_with_latest_grand_total() {
    let mut store = Store::new();
    let date = Date::new(2024, 3, 1).unwrap();
    let first = composite(
        vec![bucket(vec![], vec![], vec![], Some(detail("", 100_000)), "2024-03-01")],
        "2024-03-01",
    );
    let second = composite(
        vec![bucket(vec![], vec![], vec![], Some(detail("", 200_000)), "2024-03-01")],
        "2024-03-01",
    );
    wakalog::register_wakatime(&mut store, &date, first);
    assert_eq!(store.rows[0].grand_total_sec_milli, 100_000);
    wakalog::register_wakatime(&mut store, &date, second);
    assert_eq!(store.len(), 1);
    assert_eq!(store.rows[0].grand_total_sec_milli, 200_000);
}

#[test]
fn reingest_identical_payload_is_idempotent() {
    let mut store = Store::new();
    let date = Date::new(2024, 3, 1).unwrap();
    for _ in 0..2 {
        let all = composite(
            vec![bucket(
                vec![detail("VSCode", 3_600_000)],
                vec![],
                vec![],
                Some(detail("", 3_600_000)),
                "2024-03-01",
            )],
            "2024-03-01",
        );
        wakalog::register_wakatime(&mut store, &date, all);
    }
    assert_eq!(store.len(), 1);
    assert_eq!(store.rows[0].editors.len(), 1);
    assert_eq!(store.rows[0].editors[0].name, "VSCode");
    assert_eq!(store.rows[0].grand_total_sec_milli, 3_600_000);
}

#[test]
fn different_dates_keep_separate_rows() {
    let mut store = Store::new();
    let d1 = Date::new(2024, 3, 1).unwrap();
    let d2 = Date::new(2024, 3, 2).unwrap();
    let a1 = composite(
        vec![bucket(vec![], vec![], vec![], Some(detail("", 1_000)), "2024-03-01")],
        "2024-03-01",
    );
    let a2 = composite(
        vec![bucket(vec![], vec![], vec![], Some(detail("", 2_000)), "2024-03-02")],
        "2024-03-02",
    );
    wakalog::register_wakatime(&mut store, &d1, a1);
    wakalog::register_wakatime(&mut store, &d2, a2);
    assert_eq!(store.len(), 2);
}

#[test]
fn missing_fields_default_empty() {
    let data = SummariesData::from_parts(
        None,
        None,
        None,
        None,
        None,
        None,
        None,
        None,
        None,
        None,
        range_data("2024-03-01"),
    );
    assert!(data.branches.is_empty());
    assert!(data.entities.is_empty());
    assert!(data.categories.is_empty());
    assert!(data.dependencies.is_empty());
    assert!(data.editors.is_empty());
    assert!(data.languages.is_empty());
    assert!(data.machines.is_empty());
    assert!(data.operating_system.is_empty());
    assert!(data.projects.is_empty());
    assert_eq!(data.grand_total.total_seconds_milli, 0);
}

#[test]
fn empty_envelope_stores_empty_row() {
    let mut store = Store::new();
    let date = Date::new(2024, 3, 1).unwrap();
    let all = composite(vec![], "2024-03-01");
    wakalog::register_wakatime(&mut store, &date, all);
    assert_eq!(store.len(), 1);
    assert!(store.rows[0].editors.is_empty());
    assert!(store.rows[0].langs.is_empty());
    assert!(store.rows[0].machine.is_empty());
    assert!(store.rows[0].projects.is_empty());
    assert!(store.rows[0].depends.is_empty());
    assert_eq!(store.rows[0].grand_total_sec_milli, 0);
}

#[test]
fn default_detail_has_zero_duration_and_empty_machine_id() {
    let d = SummariesDetail::default();
    assert_eq!(d.digital, "");
    assert_eq!(d.hours, 0);
    assert_eq!(d.minutes, 0);
    assert_eq!(d.seconds, 0);
    assert_eq!(d.name, "");
    assert_eq!(d.percent_milli, 0);
    assert_eq!(d.text, "");
    assert_eq!(d.total_seconds_milli, 0);
    assert_eq!(d.machine_name_id, Some(String::new()));
}

#[test]
fn project_names_lists_first_bucket_projects() {
    let all = composite(
        vec![bucket(
            vec![],
            vec![],
            vec![detail("alpha", 10), detail("beta", 20)],
            None,
            "2024-03-01",
        )],
        "2024-03-01",
    );
    let names = wakalog::project_names(&all.summaries);
    assert_eq!(names, vec!["alpha".to_string(), "beta".to_string()]);
}

#[test]
fn add_project_replaces_same_name() {
    let mut all = composite(vec![], "2024-03-01");
    let s1 = Summaries { data: vec![], start: "a".to_string(), end: "b".to_string() };
    let s2 = Summaries { data: vec![], start: "c".to_string(), end: "d".to_string() };
    all.add_project("alpha".to_string(), s1);
    all.add_project("alpha".to_string(), s2);
    assert_eq!(all.projects.len(), 1);
    assert_eq!(all.projects[0].0, "alpha");
    assert_eq!(all.projects[0].1.start, "c");
}
