use tg_graphviz::Graph;

#[test]
fn undirected_edges_use_double_dash_in_input_order() {
    let mut g = Graph::new(
        false,
        String::from("circo"),
        String::from(""),
        String::from("shape=box"),
    );
    assert!(g.try_parse("A B\nB C\nC D").is_ok());
    let dot = g.to_dot();
    assert!(dot.starts_with("graph {\n"));
    let ab = dot.find("\"A\" -- \"B\" [label=\"\"]").unwrap();
    let bc = dot.find("\"B\" -- \"C\" [label=\"\"]").unwrap();
    let cd = dot.find("\"C\" -- \"D\" [label=\"\"]").unwrap();
    assert!(ab < bc && bc < cd);
    assert!(!dot.contains("->"));
}

#[test]
fn directed_edges_use_arrow_and_keep_labels() {
    let mut g = Graph::new(
        true,
        String::from("neato"),
        String::from(""),
        String::from("shape=box"),
    );
    assert!(g.try_parse("A B Edge1\nB C Edge2").is_ok());
    let dot = g.to_dot();
    assert!(dot.starts_with("digraph {\n"));
    let ab = dot.find("\"A\" -> \"B\" [label=\"Edge1\"]").unwrap();
    let bc = dot.find("\"B\" -> \"C\" [label=\"Edge2\"]").unwrap();
    assert!(ab < bc);
    assert!(!dot.contains("--"));
}

#[test]
fn single_token_lines_serialize_as_node_lines_only() {
    let mut g = Graph::new(
        false,
        String::from("circo"),
        String::from(""),
        String::from("shape=box"),
    );
    assert!(g.try_parse("A\nB\nC").is_ok());
    let dot = g.to_dot();
    let a = dot.find("\t\"A\"\n").unwrap();
    let b = dot.find("\t\"B\"\n").unwrap();
    let c = dot.find("\t\"C\"\n").unwrap();
    assert!(a < b && b < c);
    assert!(!dot.contains("--"));
    assert!(!dot.contains("->"));
    assert!(!dot.contains("label"));
}

#[test]
fn blank_input_serializes_to_minimal_document() {
    let mut g = Graph::new(
        false,
        String::from("circo"),
        String::from(""),
        String::from("shape=box"),
    );
    assert!(g.try_parse("\n\n\n").is_ok());
    let dot = g.to_dot();
    assert_eq!(dot, "graph {\n\tlayout =\"circo\"\n\tnode [shape=box]\n}");
}

#[test]
fn full_document_matches_exactly() {
    let mut g = Graph::new(
        true,
        String::from("dot"),
        String::from("overlap=false\n"),
        String::from("shape=box"),
    );
    assert!(g.try_parse("A\nA B lbl").is_ok());
    let dot = g.to_dot();
    assert_eq!(
        dot,
        "digraph {\n\tlayout =\"dot\"\n\tnode [shape=box]\noverlap=false\n\t\"A\"\n\"A\" -> \"B\" [label=\"lbl\"]\n}"
    );
}

#[test]
fn layout_settings_are_injected_verbatim() {
    let mut g = Graph::new(
        false,
        String::from("circo"),
        String::from("splines=true\n"),
        String::from(""),
    );
    assert!(g.try_parse("").is_ok());
    let dot = g.to_dot();
    assert_eq!(dot, "graph {\n\tlayout =\"circo\"\n\tnode []\nsplines=true\n}");
}

#[test]
fn configuration_survives_parsing() {
    let mut g = Graph::new(
        true,
        String::from("neato"),
        String::from(""),
        String::from("shape=oval"),
    );
    assert!(g.try_parse("A").is_ok());
    let dot = g.to_dot();
    assert!(dot.starts_with("digraph {\n\tlayout =\"neato\"\n\tnode [shape=oval]\n"));
}
