use std::cell::RefCell;
use std::collections::HashMap;

use boolean_search::evaluator::{evaluate, evaluate_query, evaluate_with};
use boolean_search::parser::parse_query;
use boolean_search::tree::TreeNodeQuery;

fn full_eval(node: &TreeNodeQuery, truth: &HashMap<String, bool>) -> bool {
    match (node.left_child(), node.right_child()) {
        (Some(l), Some(r)) => {
            if node.label() == "+" {
                full_eval(l, truth) || full_eval(r, truth)
            } else {
                full_eval(l, truth) && full_eval(r, truth)
            }
        }
        _ => *truth.get(&node.label()).unwrap_or(&false),
    }
}

/// The document of each query test holds the letters that the test names.
#[test]
fn test_cli_a() {
    assert!(!evaluate_query("A * (B + C)", "A", false).0);
}

#[test]
fn test_cli_ab() {
    assert!(evaluate_query("A * (B + C)", "A\nB\n", false).0);
}

#[test]
fn test_cli_c() {
    assert!(!evaluate_query("A * (B + C)", "C", false).0);
}

#[test]
fn and_short_circuit() {
    assert!(!evaluate_query("A * (B + C)", "nothing", false).0);
    assert!(evaluate_query("A * (B + C)", "A and B", false).0);
    assert!(!evaluate_query("A * (B + C)", "only C", false).0);
}

#[test]
fn or_short_circuit() {
    let asked = RefCell::new(Vec::new());
    let (verdict, _) = evaluate_with(parse_query("A + B"), |term: &str| {
        asked.borrow_mut().push(term.to_string());
        "B".contains(term)
    });
    assert!(verdict);
    assert_eq!(*asked.borrow(), vec!["A".to_string(), "B".to_string()]);
}

fn lookups_over(query: &str, document: &str) -> (bool, Vec<String>) {
    let asked = RefCell::new(Vec::new());
    let (verdict, _) = evaluate_with(parse_query(query), |term: &str| {
        asked.borrow_mut().push(term.to_string());
        document.contains(term)
    });
    (verdict, asked.into_inner())
}

#[test]
fn lookups_in_order() {
    assert_eq!(lookups_over("A * (B + C)", "x"), (false, vec!["A".to_string()]));
    assert_eq!(lookups_over("A * (B + C)", "C"), (false, vec!["A".to_string()]));
    assert_eq!(lookups_over("A * (B + C)", "A B"), (true, vec!["A".to_string(), "B".to_string()]));
    assert_eq!(
        lookups_over("A * (B + C)", "A"),
        (false, vec!["A".to_string(), "B".to_string(), "C".to_string()])
    );
    assert_eq!(lookups_over("(A + B) * (C + F) * (D + E)", "D").1[0], "D");
    assert_eq!(lookups_over("A + A", "").1, vec!["A".to_string()]);
}

#[test]
fn resolved_leaf_is_not_asked_again() {
    let asked = RefCell::new(Vec::new());
    let (verdict, _) = evaluate_with(parse_query("A * B"), |term: &str| {
        asked.borrow_mut().push(term.to_string());
        false
    });
    assert!(!verdict);
    assert_eq!(*asked.borrow(), vec!["A".to_string()]);
}

#[test]
fn case_folding_in_queries() {
    assert!(evaluate_query("rust * TRUST", "Rust: Trust me.", true).0);
    assert!(!evaluate_query("rust * TRUST", "Rust: Trust me.", false).0);
}

#[test]
fn empty_query_is_fulfilled() {
    assert!(evaluate_query("", "", false).0);
    assert!(evaluate_query("   ", "text", false).0);
}

#[test]
fn evaluate_parsed_tree() {
    let tree = parse_query("(x + y) * z");
    assert!(evaluate(tree, "z then y", false).0);
    let tree = parse_query("(x + y) * z");
    assert!(!evaluate(tree, "x and y", false).0);
}

struct Lcg(u64);

impl Lcg {
    fn next(&mut self, bound: u64) -> u64 {
        self.0 = self.0.wrapping_mul(6364136223846793005).wrapping_add(1442695040888963407);
        (self.0 >> 33) % bound
    }
}

fn random_query(rng: &mut Lcg, depth: u32) -> String {
    if depth == 0 || rng.next(3) == 0 {
        return format!("t{}", rng.next(5));
    }
    let op = if rng.next(2) == 0 { "+" } else { "*" };
    format!("({} {} {})", random_query(rng, depth - 1), op, random_query(rng, depth - 1))
}

#[test]
fn incremental_equals_full_evaluation() {
    let mut rng = Lcg(7);
    for _ in 0..300 {
        let query = random_query(&mut rng, 5);
        let mut truth: HashMap<String, bool> = HashMap::new();
        for i in 0..5 {
            truth.insert(format!("t{}", i), rng.next(2) == 1);
        }
        let expected = full_eval(&parse_query(&query), &truth);
        let asked = RefCell::new(Vec::new());
        let (verdict, _) = evaluate_with(parse_query(&query), |term: &str| {
            asked.borrow_mut().push(term.to_string());
            *truth.get(term).unwrap_or(&false)
        });
        assert_eq!(verdict, expected, "query {}", query);
        let asked = asked.into_inner();
        let mut distinct = asked.clone();
        distinct.sort();
        distinct.dedup();
        assert_eq!(distinct.len(), asked.len(), "query {}", query);
        assert_eq!(asked[0], parse_query(&query).breadth_first_node().unwrap());
        let document: String = truth
            .iter()
            .filter(|(_, v)| **v)
            .map(|(k, _)| format!("[{}]", k))
            .collect();
        let bracketed = query.replace("t", "[t").replace("0", "0]").replace("1", "1]").replace("2", "2]")
            .replace("3", "3]").replace("4", "4]");
        assert_eq!(evaluate_query(&bracketed, &document, false).0, expected, "query {}", bracketed);
    }
}
