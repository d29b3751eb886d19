use neptune::parse_commit_dag;
use neptune::parse_dag_line;
use neptune::parse_u64;
use neptune::split_tokens;

#[test]
fn parse_line_full_fields() {
    let n = parse_dag_line("abc123|def456|Alice|alice@x.com|1700000000|Fix bug");
    assert_eq!(n.id, "abc123");
    assert_eq!(n.parents, vec!["def456".to_string()]);
    assert_eq!(n.author, "Alice");
    assert_eq!(n.email, "alice@x.com");
    assert_eq!(n.timestamp, 1700000000);
    assert_eq!(n.message, "Fix bug");
}

#[test]
fn parse_line_empty_parent_field() {
    let n = parse_dag_line("root1||Bob|bob@x.com|1600000000|Initial commit");
    assert_eq!(n.id, "root1");
    assert!(n.parents.is_empty());
    assert_eq!(n.author, "Bob");
    assert_eq!(n.email, "bob@x.com");
    assert_eq!(n.timestamp, 1600000000);
    assert_eq!(n.message, "Initial commit");
}

#[test]
fn parse_line_non_numeric_timestamp() {
    let n = parse_dag_line("x1|y1|C|c@x.com|notanumber|msg");
    assert_eq!(n.id, "x1");
    assert_eq!(n.parents, vec!["y1".to_string()]);
    assert_eq!(n.timestamp, 0);
    assert_eq!(n.message, "msg");
}

#[test]
fn parse_line_merge_keeps_parent_order() {
    let n = parse_dag_line("m1|p2 p1|A|a@x.com|5|Merge");
    assert_eq!(n.parents, vec!["p2".to_string(), "p1".to_string()]);
}

#[test]
fn parse_line_missing_fields_default_empty() {
    let n = parse_dag_line("onlyhash|p1");
    assert_eq!(n.id, "onlyhash");
    assert_eq!(n.parents, vec!["p1".to_string()]);
    assert_eq!(n.author, "");
    assert_eq!(n.email, "");
    assert_eq!(n.timestamp, 0);
    assert_eq!(n.message, "");
}

#[test]
fn parse_line_message_keeps_delimiters() {
    let n = parse_dag_line("h|p|A|a@x.com|7|fix: a|b|c");
    assert_eq!(n.message, "fix: a|b|c");
}

#[test]
fn parse_line_overflowing_timestamp_is_zero() {
    let n = parse_dag_line("h|p|A|a@x.com|99999999999999999999|m");
    assert_eq!(n.timestamp, 0);
}

#[test]
fn parse_stream_one_node_per_nonempty_line() {
    let text = "a1||A|a@x|1|first\nb2|a1|B|b@x|2|second\n\nc3|b2 a1|C|c@x|3|third\n";
    let nodes = parse_commit_dag(text);
    assert_eq!(nodes.len(), 3);
    assert_eq!(nodes[0].id, "a1");
    assert!(nodes[0].parents.is_empty());
    assert_eq!(nodes[1].id, "b2");
    assert_eq!(nodes[1].parents, vec!["a1".to_string()]);
    assert_eq!(nodes[2].id, "c3");
    assert_eq!(nodes[2].parents, vec!["b2".to_string(), "a1".to_string()]);
    assert_eq!(nodes[2].message, "third");
}

#[test]
fn parse_stream_empty_text_yields_no_nodes() {
    let nodes = parse_commit_dag("");
    assert!(nodes.is_empty());
}

#[test]
fn parse_u64_accepts_plain_decimals_only() {
    assert_eq!(parse_u64("0"), Some(0));
    assert_eq!(parse_u64("1700000000"), Some(1700000000));
    assert_eq!(parse_u64("18446744073709551615"), Some(u64::MAX));
    assert_eq!(parse_u64("18446744073709551616"), None);
    assert_eq!(parse_u64(""), None);
    assert_eq!(parse_u64("+12"), None);
    assert_eq!(parse_u64("12a"), None);
}

#[test]
fn split_tokens_separates_on_whitespace() {
    let t = split_tokens("  a1  b2\tc3 ");
    assert_eq!(t, vec!["a1".to_string(), "b2".to_string(), "c3".to_string()]);
    assert!(split_tokens("").is_empty());
    assert!(split_tokens("   ").is_empty());
}
