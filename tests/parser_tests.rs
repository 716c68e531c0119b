use boolean_search::parser::{parse_query, tokenize};
use boolean_search::tree::TreeNodeQuery;

fn render(node: &TreeNodeQuery) -> String {
    match (node.left_child(), node.right_child()) {
        (Some(l), Some(r)) => format!("({} {} {})", render(l), node.label(), render(r)),
        _ => node.label(),
    }
}

fn token_texts(query: &str) -> Vec<String> {
    tokenize(query).iter().map(|t| t.text()).collect()
}

#[test]
fn does_tokenize() {
    let test_string = String::from(" (Word 1 + word2 )  * and maybe *   (  this is + asds ) ");
    let test_list_string = token_texts(&test_string);
    assert_eq!(
        vec![
            "(",
            "Word 1",
            "+",
            "word2",
            ")",
            "*",
            "and maybe",
            "*",
            "(",
            "this is",
            "+",
            "asds",
            ")"
        ],
        test_list_string
    );
}

#[test]
fn tokenize_edges() {
    assert_eq!(token_texts(""), Vec::<String>::new());
    assert_eq!(token_texts("   "), Vec::<String>::new());
    assert_eq!(token_texts("a+b"), vec!["a", "+", "b"]);
    assert_eq!(token_texts("  x  y  "), vec!["x  y"]);
    assert_eq!(token_texts("(+)"), vec!["(", "+", ")"]);
}

#[test]
fn update_tree_not_found() {
    let mut tree = parse_query(" (A + B) * ( C+F) *  (D  + E)  ");
    assert_eq!(render(&tree), "(((A + B) * (C + F)) * (D + E))");
    while tree.update_tree("A", false) {}
    assert_eq!(render(&tree), "((B * (C + F)) * (D + E))");
}

#[test]
fn update_tree_found() {
    let mut tree = parse_query(" (A + B) +( C * E)  ");
    assert!(tree.update_tree("A", true));
    assert_eq!(render(&tree), "(A + (C * E))");
    assert!(tree.update_tree("A", true));
    assert_eq!(render(&tree), "A");
    assert!(tree.is_leaf());
    assert!(!tree.update_tree("A", true));
}

#[test]
fn update_tree_and_table() {
    let mut tree = parse_query("A * B");
    assert!(tree.update_tree("A", true));
    assert_eq!(render(&tree), "B");
    let mut tree = parse_query("A * B");
    assert!(tree.update_tree("A", false));
    assert_eq!(render(&tree), "A");
    let mut tree = parse_query("A * B");
    assert!(tree.update_tree("B", true));
    assert_eq!(render(&tree), "A");
    let mut tree = parse_query("A * B");
    assert!(tree.update_tree("B", false));
    assert_eq!(render(&tree), "B");
    let mut tree = parse_query("A + B");
    assert!(tree.update_tree("B", true));
    assert_eq!(render(&tree), "B");
    let mut tree = parse_query("A + B");
    assert!(tree.update_tree("B", false));
    assert_eq!(render(&tree), "A");
}

#[test]
fn settled_term_is_not_absorbed_again() {
    let mut tree = parse_query("(A + B) * (C + A)");
    while tree.update_tree("A", false) {}
    let settled = render(&tree);
    assert_eq!(settled, "(B * C)");
    assert!(!tree.update_tree("A", false));
    assert!(!tree.update_tree("A", true));
    assert_eq!(render(&tree), settled);
}

#[test]
fn print_tree() {
    let tree = parse_query(" ((A + B) + ( A*C)) +  ((A+C) *B)  ");
    assert_eq!(render(&tree), "(((A + B) + (A * C)) + ((A + C) * B))");
}

#[test]
fn find_first_leaf() {
    let tree = parse_query(" (A + B) *( C+F) *  (D  + E) ");
    let first_node = tree.breadth_first_node().unwrap();
    assert_eq!(first_node, "D");
}

#[test]
fn precedence_and_associativity() {
    assert_eq!(render(&parse_query("A + B * C")), "(A + (B * C))");
    assert_eq!(render(&parse_query("A * B + C")), "((A * B) + C)");
    assert_eq!(render(&parse_query("A + B + C")), "((A + B) + C)");
    assert_eq!(render(&parse_query("A * B * C")), "((A * B) * C)");
}

#[test]
fn lenient_parsing() {
    assert_eq!(render(&parse_query("(A + B")), "(A + B)");
    assert_eq!(render(&parse_query("A B) + C")), "A B");
    assert_eq!(render(&parse_query("")), "");
    assert_eq!(render(&parse_query("A +")), "(A + )");
    assert_eq!(render(&parse_query("EOF")), "EOF");
}
