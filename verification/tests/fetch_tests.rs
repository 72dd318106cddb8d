use wakalog::{archive_file_name, auth_header, encode, summaries_request_url, Date};

#[test]
fn encode_passes_unreserved_bytes_through() {
    assert_eq!(encode("abcXYZ019-._~"), "abcXYZ019-._~");
    assert_eq!(encode(""), "");
}

#[test]
fn encode_escapes_reserved_bytes() {
    assert_eq!(encode("a b"), "a%20b");
    assert_eq!(encode("a&b=c"), "a%26b%3Dc");
    assert_eq!(encode("100%"), "100%25");
    assert_eq!(encode("/path?q"), "%2Fpath%3Fq");
}

#[test]
fn encode_expands_multibyte_characters_bytewise() {
    assert_eq!(encode("\u{e9}"), "%C3%A9");
    assert_eq!(encode("a\u{3042}"), "a%E3%81%82");
}

#[test]
fn auth_header_wraps_base64_of_the_key() {
    assert_eq!(auth_header("abc"), "Basic YWJj");
    assert_eq!(auth_header(""), "Basic ");
    assert_eq!(auth_header("ab"), "Basic YWI=");
}

#[test]
fn request_url_without_project() {
    let start = Date::new(2024, 3, 1).unwrap();
    let end = Date::new(2024, 3, 2).unwrap();
    let url = summaries_request_url(&start, &end, None);
    assert_eq!(
        url,
        "https://wakatime.com/api/v1/users/current/summaries?start=2024-03-01&end=2024-03-02"
    );
}

#[test]
fn request_url_encodes_the_project_name() {
    let day = Date::new(2024, 3, 1).unwrap();
    let url = summaries_request_url(&day, &day, Some("my app"));
    assert_eq!(
        url,
        "https://wakatime.com/api/v1/users/current/summaries?start=2024-03-01&end=2024-03-01&project=my%20app"
    );
}

#[test]
fn archive_file_name_for_one_day_and_for_a_range() {
    let start = Date::new(2024, 3, 1).unwrap();
    let end = Date::new(2024, 3, 5).unwrap();
    assert_eq!(archive_file_name(&start, &start), "res_20240301.json");
    assert_eq!(archive_file_name(&start, &end), "res_20240301-20240305.json");
}
