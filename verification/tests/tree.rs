use pagerduty_cli::output::tree::{Graph, TreePrinter};

#[test]
fn two_roots_with_two_children_each() {
    let mut tree = TreePrinter::default();
    let first = tree.add_line("a".to_string());
    first.add_line(&mut tree, "a1".to_string());
    first.add_line(&mut tree, "a2".to_string());
    let second = tree.add_line("b".to_string());
    second.add_line(&mut tree, "b1".to_string());
    second.add_line(&mut tree, "b2".to_string());
    let expected = " ├─ a\n │  ├─ a1\n │  └─ a2\n └─ b\n    ├─ b1\n    └─ b2\n";
    assert_eq!(tree.render(), expected);
}

#[test]
fn empty_forest_renders_nothing() {
    let tree = TreePrinter::default();
    assert_eq!(tree.render(), "");
}

#[test]
fn single_root_is_last() {
    let mut tree = TreePrinter::default();
    tree.add_line("only".to_string());
    assert_eq!(tree.render(), " └─ only\n");
}

#[test]
fn children_may_be_added_after_younger_siblings_got_theirs() {
    let mut tree = TreePrinter::default();
    let root = tree.add_line("root".to_string());
    let first = root.add_line(&mut tree, "first".to_string());
    let second = root.add_line(&mut tree, "second".to_string());
    second.add_line(&mut tree, "second.1".to_string());
    first.add_line(&mut tree, "first.1".to_string());
    first.add_line(&mut tree, "first.2".to_string());
    let expected = concat_lines(&[
        " └─ root",
        "    ├─ first",
        "    │  ├─ first.1",
        "    │  └─ first.2",
        "    └─ second",
        "       └─ second.1",
    ]);
    assert_eq!(tree.render(), expected);
}

#[test]
fn bars_continue_under_every_ancestor_that_is_not_last() {
    let mut tree = TreePrinter::default();
    let a = tree.add_line("a".to_string());
    let a1 = a.add_line(&mut tree, "a1".to_string());
    let a11 = a1.add_line(&mut tree, "a11".to_string());
    a11.add_line(&mut tree, "a111".to_string());
    a.add_line(&mut tree, "a2".to_string());
    tree.add_line("b".to_string());
    let expected = concat_lines(&[
        " ├─ a",
        " │  ├─ a1",
        " │  │  └─ a11",
        " │  │     └─ a111",
        " │  └─ a2",
        " └─ b",
    ]);
    assert_eq!(tree.render(), expected);
}

#[test]
fn handles_belong_to_their_forest() {
    let mut tree = TreePrinter::default();
    let root = tree.add_line("root".to_string());
    let child = root.add_line(&mut tree, "child".to_string());
    assert!(tree.owns(&root));
    assert!(tree.owns(&child));
    let other = TreePrinter::default();
    assert!(!other.owns(&root));
}

#[test]
fn graph_draws_a_line_with_what_is_below_it() {
    let mut graph = Graph::new();
    let top = graph.add_line("top".to_string());
    let left = graph.add_line("left".to_string());
    let right = graph.add_line("right".to_string());
    graph.connect_edges(top, left);
    graph.connect_edges(top, right);
    let line = graph.get_line(top);
    assert_eq!(line.print(">", false, &graph), "> ├─ top\n> │  ├─ left\n> │  └─ right\n");
    assert_eq!(line.print(">", true, &graph), "> └─ top\n>    ├─ left\n>    └─ right\n");
}

fn concat_lines(lines: &[&str]) -> String {
    let mut text = String::new();
    for line in lines {
        text.push_str(line);
        text.push('\n');
    }
    text
}
