use business_value::credentials::{basic_auth_header, env_file_contents};
use business_value::group::group_tickets;
use business_value::query::{jql_for_date_range, jql_for_sprint, parse_date_range};

#[test]
fn sprint_query_names_the_sprint_field() {
    assert_eq!(jql_for_sprint("42"), "\"cf[10010]\"=42 ORDER BY created DESC");
}

#[test]
fn date_range_query_names_project_and_dates() {
    let q = jql_for_date_range("PROJ", "2024/01/01", "2024/02/01");
    assert_eq!(
        q,
        "project = \"PROJ\" AND status CHANGED TO \"Done\" DURING (\"2024/01/01\", \"2024/02/01\") ORDER BY created DESC"
    );
}

#[test]
fn date_range_splits_on_the_comma_and_trims() {
    let r = parse_date_range(" 2024/01/01 , 2024/02/01 ").unwrap();
    assert_eq!(r.0, "2024/01/01");
    assert_eq!(r.1, "2024/02/01");
}

#[test]
fn date_range_without_comma_is_rejected() {
    assert!(parse_date_range("2024/01/01").is_none());
}

#[test]
fn date_range_with_two_commas_is_rejected() {
    assert!(parse_date_range("a,b,c").is_none());
}

#[test]
fn auth_header_is_basic_base64_of_email_colon_token() {
    assert_eq!(basic_auth_header("user", "pass"), "Basic dXNlcjpwYXNz");
}

#[test]
fn auth_header_agrees_with_the_encoder() {
    let header = basic_auth_header("user@example.com", "token123");
    let expected = format!("Basic {}", base64::encode("user@example.com:token123"));
    assert_eq!(header, expected);
}

#[test]
fn credential_file_has_one_line_per_value() {
    let contents = env_file_contents("https://tickets.example.com", "me@example.com", "tok");
    assert_eq!(
        contents,
        "JIRA_BASE_URL=https://tickets.example.com\nJIRA_EMAIL=me@example.com\nJIRA_API_TOKEN=tok\n"
    );
}

#[test]
fn grouping_keeps_first_seen_order_and_row_order() {
    let rows = vec![
        ("Improve retention".to_string(), "T-1".to_string()),
        ("Reduce churn".to_string(), "T-2".to_string()),
        ("Improve retention".to_string(), "T-3".to_string()),
    ];
    let groups = group_tickets(&rows);
    assert_eq!(groups.len(), 2);
    assert_eq!(groups[0].0, "Improve retention");
    assert_eq!(groups[0].1, vec!["T-1".to_string(), "T-3".to_string()]);
    assert_eq!(groups[1].0, "Reduce churn");
    assert_eq!(groups[1].1, vec!["T-2".to_string()]);
}

#[test]
fn grouping_of_no_rows_is_empty() {
    let rows: Vec<(String, String)> = vec![];
    assert!(group_tickets(&rows).is_empty());
}
