use business_value::doc::{flatten, flatten_node, DocError, RichNode};

#[test]
fn empty_node_yields_empty_string() {
    let r = flatten_node(&RichNode::Empty);
    assert_eq!(r.unwrap(), "");
}

#[test]
fn empty_document_yields_empty_string() {
    let nodes: Vec<RichNode> = vec![];
    assert_eq!(flatten(&nodes).unwrap(), "");
}

#[test]
fn empty_container_yields_empty_string() {
    let nodes = vec![RichNode::Container(vec![])];
    assert_eq!(flatten(&nodes).unwrap(), "");
}

#[test]
fn single_text_node_is_returned_unmodified() {
    let nodes = vec![RichNode::Text("  hello world ".to_string())];
    assert_eq!(flatten(&nodes).unwrap(), "  hello world ");
}

#[test]
fn single_text_node_rooted_at_node() {
    let r = flatten_node(&RichNode::Text("payload".to_string()));
    assert_eq!(r.unwrap(), "payload");
}

#[test]
fn top_level_items_joined_by_newline_nested_concatenated() {
    let nodes = vec![
        RichNode::Text("A".to_string()),
        RichNode::Container(vec![
            RichNode::Text("B".to_string()),
            RichNode::Text("C".to_string()),
        ]),
    ];
    assert_eq!(flatten(&nodes).unwrap(), "A\nBC");
}

#[test]
fn empty_top_level_item_still_takes_part_in_the_join() {
    let nodes = vec![RichNode::Empty, RichNode::Text("A".to_string())];
    assert_eq!(flatten(&nodes).unwrap(), "\nA");
}

#[test]
fn deeply_nested_containers_concatenate() {
    let inner = RichNode::Container(vec![
        RichNode::Text("x".to_string()),
        RichNode::Container(vec![RichNode::Text("y".to_string()), RichNode::Empty]),
        RichNode::Text("z".to_string()),
    ]);
    let nodes = vec![RichNode::Text("head".to_string()), inner];
    assert_eq!(flatten(&nodes).unwrap(), "head\nxyz");
}

#[test]
fn flattening_twice_gives_identical_output() {
    let nodes = vec![
        RichNode::Container(vec![
            RichNode::Text("one ".to_string()),
            RichNode::Text("two".to_string()),
        ]),
        RichNode::Text("three".to_string()),
    ];
    let first = flatten(&nodes).unwrap();
    let second = flatten(&nodes).unwrap();
    assert_eq!(first, second);
}

fn nested(levels: usize) -> RichNode {
    let mut n = RichNode::Text("deep".to_string());
    for _ in 0..levels {
        n = RichNode::Container(vec![n]);
    }
    n
}

#[test]
fn tree_at_the_depth_limit_still_flattens() {
    // a leaf has depth 1; 999 wrappers make depth 1000, the limit
    let n = nested(999);
    assert_eq!(flatten_node(&n).unwrap(), "deep");
}

#[test]
fn tree_beyond_the_depth_limit_is_malformed() {
    let n = nested(1000);
    assert_eq!(flatten_node(&n), Err(DocError::MalformedDocument));
}

#[test]
fn document_beyond_the_depth_limit_is_malformed() {
    let nodes = vec![RichNode::Text("ok".to_string()), nested(1200)];
    assert_eq!(flatten(&nodes), Err(DocError::MalformedDocument));
}
