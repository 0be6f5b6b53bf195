use business_value::doc::{DocError, RichNode};
use business_value::extract::{
    business_value_display, business_value_of_document, extract_business_value,
    BusinessValueResult,
};

#[test]
fn round_trip_through_flattened_text() {
    let text = "intro Business value\n  Improves retention  \nCustomer value\n more text";
    let r = extract_business_value(text);
    assert_eq!(r, BusinessValueResult::Found("Improves retention".to_string()));
}

#[test]
fn placeholder_alone_is_not_found() {
    let r = extract_business_value("Business value <> Customer value");
    assert_eq!(r, BusinessValueResult::NotFound);
}

#[test]
fn placeholder_inside_content_is_not_found() {
    let r = extract_business_value("Business value foo <> bar Customer value");
    assert_eq!(r, BusinessValueResult::NotFound);
}

#[test]
fn text_without_opening_label_is_not_found() {
    let r = extract_business_value("no labels anywhere in this text");
    assert_eq!(r, BusinessValueResult::NotFound);
}

#[test]
fn text_without_closing_label_is_not_found() {
    let r = extract_business_value("Business value left open forever");
    assert_eq!(r, BusinessValueResult::NotFound);
}

#[test]
fn first_bounded_span_wins_over_a_greedy_match() {
    let text = "Business value X Customer value Business value Y Customer value";
    let r = extract_business_value(text);
    assert_eq!(r, BusinessValueResult::Found("X".to_string()));
}

#[test]
fn adjacent_labels_give_empty_content() {
    let r = extract_business_value("Business valueCustomer value");
    assert_eq!(r, BusinessValueResult::Found("".to_string()));
}

#[test]
fn unicode_white_space_is_trimmed() {
    let text = "Business value\u{00A0}stuff\u{2003}Customer value";
    let r = extract_business_value(text);
    assert_eq!(r, BusinessValueResult::Found("stuff".to_string()));
}

#[test]
fn inner_line_breaks_are_preserved() {
    let text = "Business value\n first\nsecond \nCustomer value";
    let r = extract_business_value(text);
    assert_eq!(r, BusinessValueResult::Found("first\nsecond".to_string()));
}

#[test]
fn display_shows_content_or_sentinel() {
    let found = BusinessValueResult::Found("keeps users".to_string());
    assert_eq!(business_value_display(&found), "keeps users");
    assert_eq!(business_value_display(&BusinessValueResult::NotFound), "No content found");
}

#[test]
fn extraction_from_a_document_tree() {
    let nodes = vec![
        RichNode::Text("Business value".to_string()),
        RichNode::Container(vec![
            RichNode::Text(" Boost ".to_string()),
            RichNode::Text("revenue ".to_string()),
        ]),
        RichNode::Text("Customer value".to_string()),
    ];
    let r = business_value_of_document(&nodes).unwrap();
    assert_eq!(r, BusinessValueResult::Found("Boost revenue".to_string()));
}

#[test]
fn malformed_document_is_an_error_not_a_sentinel() {
    let mut n = RichNode::Text("Business value x Customer value".to_string());
    for _ in 0..1500 {
        n = RichNode::Container(vec![n]);
    }
    let r = business_value_of_document(&vec![n]);
    assert_eq!(r, Err(DocError::MalformedDocument));
}
