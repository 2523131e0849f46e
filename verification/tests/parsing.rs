use tg_graphviz::{number_of_lines, true_len, Graph, GraphSyntaxError};

fn fresh_graph(directed: bool) -> Graph {
    Graph::new(
        directed,
        String::from("circo"),
        String::from(""),
        String::from("width=0.5 height=0.5 fontname=\"Arial\""),
    )
}

#[test]
fn single_token_line_becomes_node() {
    let mut g = fresh_graph(false);
    assert!(g.try_parse("A").is_ok());
    assert_eq!(g.node_list.len(), 1);
    assert_eq!(g.edge_list.len(), 0);
    assert_eq!(g.node_list[0].label, "A");
}

#[test]
fn two_token_line_becomes_edge_with_empty_label() {
    let mut g = fresh_graph(false);
    assert!(g.try_parse("A B").is_ok());
    assert_eq!(g.node_list.len(), 0);
    assert_eq!(g.edge_list.len(), 1);
    assert_eq!(g.edge_list[0].from, "A");
    assert_eq!(g.edge_list[0].to, "B");
    assert_eq!(g.edge_list[0].label, "");
}

#[test]
fn three_token_line_becomes_labeled_edge() {
    let mut g = fresh_graph(true);
    assert!(g.try_parse("A B Edge1").is_ok());
    assert_eq!(g.edge_list.len(), 1);
    assert_eq!(g.edge_list[0].from, "A");
    assert_eq!(g.edge_list[0].to, "B");
    assert_eq!(g.edge_list[0].label, "Edge1");
}

#[test]
fn third_token_greedily_takes_rest_of_line() {
    let mut g = fresh_graph(true);
    assert!(g.try_parse("A B a b c").is_ok());
    assert_eq!(g.edge_list.len(), 1);
    assert_eq!(g.edge_list[0].label, "a b c");
}

#[test]
fn entities_appear_in_input_order() {
    let mut g = fresh_graph(false);
    assert!(g.try_parse("A\nB C\n\n  \nD E lbl\nF").is_ok());
    assert_eq!(g.node_list.len(), 2);
    assert_eq!(g.node_list[0].label, "A");
    assert_eq!(g.node_list[1].label, "F");
    assert_eq!(g.edge_list.len(), 2);
    assert_eq!(g.edge_list[0].from, "B");
    assert_eq!(g.edge_list[0].to, "C");
    assert_eq!(g.edge_list[0].label, "");
    assert_eq!(g.edge_list[1].from, "D");
    assert_eq!(g.edge_list[1].to, "E");
    assert_eq!(g.edge_list[1].label, "lbl");
}

#[test]
fn blank_lines_produce_no_entities() {
    let mut g = fresh_graph(false);
    assert!(g.try_parse("\n\n\n").is_ok());
    assert_eq!(g.node_list.len(), 0);
    assert_eq!(g.edge_list.len(), 0);
}

#[test]
fn whitespace_only_line_is_blank_not_a_node() {
    let mut g = fresh_graph(false);
    assert!(g.try_parse("   \t  ").is_ok());
    assert_eq!(g.node_list.len(), 0);
    assert_eq!(g.edge_list.len(), 0);
}

#[test]
fn lines_are_trimmed_before_splitting() {
    let mut g = fresh_graph(false);
    assert!(g.try_parse("  A   B  ").is_ok());
    assert_eq!(g.edge_list.len(), 1);
    assert_eq!(g.edge_list[0].from, "A");
    assert_eq!(g.edge_list[0].to, "B");
}

#[test]
fn fifty_lines_are_accepted() {
    let text = vec!["A"; 50].join("\n");
    assert_eq!(number_of_lines(&text), 50);
    let mut g = fresh_graph(false);
    assert!(g.try_parse(&text).is_ok());
    assert_eq!(g.node_list.len(), 50);
}

#[test]
fn fifty_one_lines_are_rejected() {
    let text = vec!["A"; 51].join("\n");
    assert_eq!(number_of_lines(&text), 51);
    let mut g = fresh_graph(false);
    let res = g.try_parse(&text);
    assert!(matches!(res, Err(GraphSyntaxError::ListTooLargeError)));
    assert_eq!(g.node_list.len(), 0);
    assert_eq!(g.edge_list.len(), 0);
}

#[test]
fn line_count_limit_ignores_content() {
    let long_token = "x".repeat(100);
    let text = vec![long_token.as_str(); 51].join("\n");
    let res = fresh_graph(false).try_parse(&text);
    assert!(matches!(res, Err(GraphSyntaxError::ListTooLargeError)));
}

#[test]
fn eleven_grapheme_node_label_is_rejected() {
    let mut g = fresh_graph(false);
    let res = g.try_parse("abcdefghijk");
    assert!(matches!(res, Err(GraphSyntaxError::LabelTooLargeError)));
    assert_eq!(g.node_list.len(), 0);
    assert_eq!(g.edge_list.len(), 0);
}

#[test]
fn ten_grapheme_node_label_is_accepted() {
    let mut g = fresh_graph(false);
    assert!(g.try_parse("abcdefghij").is_ok());
    assert_eq!(g.node_list.len(), 1);
}

#[test]
fn long_edge_endpoint_is_rejected() {
    let res = fresh_graph(false).try_parse("A abcdefghijk");
    assert!(matches!(res, Err(GraphSyntaxError::LabelTooLargeError)));
    let res = fresh_graph(false).try_parse("abcdefghijk B");
    assert!(matches!(res, Err(GraphSyntaxError::LabelTooLargeError)));
}

#[test]
fn long_edge_label_is_rejected() {
    let res = fresh_graph(false).try_parse("A B abcdefghijk");
    assert!(matches!(res, Err(GraphSyntaxError::LabelTooLargeError)));
}

#[test]
fn length_violation_on_later_line_rejects_input() {
    let mut g = fresh_graph(false);
    let res = g.try_parse("A\nB C\nabcdefghijk");
    assert!(matches!(res, Err(GraphSyntaxError::LabelTooLargeError)));
    assert_eq!(g.node_list.len(), 0);
    assert_eq!(g.edge_list.len(), 0);
}

#[test]
fn ten_clusters_of_combining_marks_are_accepted() {
    // Each cluster is a base letter plus a combining acute accent: two code
    // points but one user-perceived character.
    let cluster = "e\u{0301}";
    let token = cluster.repeat(10);
    assert_eq!(token.chars().count(), 20);
    assert_eq!(true_len(&token), 10);
    let mut g = fresh_graph(false);
    assert!(g.try_parse(&token).is_ok());
    assert_eq!(g.node_list.len(), 1);
    assert_eq!(g.node_list[0].label, token);
}

#[test]
fn eleven_clusters_of_combining_marks_are_rejected() {
    let token = "e\u{0301}".repeat(11);
    let res = fresh_graph(false).try_parse(&token);
    assert!(matches!(res, Err(GraphSyntaxError::LabelTooLargeError)));
}

#[test]
fn reparsing_discards_previous_entities() {
    let mut g = fresh_graph(false);
    assert!(g.try_parse("A\nB\nC").is_ok());
    assert_eq!(g.node_list.len(), 3);
    assert!(g.try_parse("X Y").is_ok());
    assert_eq!(g.node_list.len(), 0);
    assert_eq!(g.edge_list.len(), 1);
    assert_eq!(g.edge_list[0].from, "X");
}

#[test]
fn failed_parse_leaves_graph_empty() {
    let mut g = fresh_graph(false);
    assert!(g.try_parse("A\nB\nC").is_ok());
    let res = g.try_parse("abcdefghijk");
    assert!(res.is_err());
    assert_eq!(g.node_list.len(), 0);
    assert_eq!(g.edge_list.len(), 0);
}

#[test]
fn number_of_lines_counts_newline_separated_segments() {
    assert_eq!(number_of_lines(""), 1);
    assert_eq!(number_of_lines("a"), 1);
    assert_eq!(number_of_lines("a\nb"), 2);
    assert_eq!(number_of_lines("\n\n\n"), 4);
    assert_eq!(number_of_lines("a\n"), 2);
}

#[test]
fn true_len_counts_grapheme_clusters_not_code_points() {
    assert_eq!(true_len(""), 0);
    assert_eq!(true_len("hello"), 5);
    assert_eq!(true_len("e\u{0301}e\u{0301}"), 2);
    assert_eq!(true_len("\u{1F1FA}\u{1F1F8}"), 1);
}
