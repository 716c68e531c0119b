use boolean_search::searcher_functions::{pages_containing, search};
use boolean_search::Config;

#[test]
fn case_sensitive() {
    let query = "duct";
    let contents = "\
Rust:
safe, fast, productive.
Pick three.
Duct tape.";

    assert_eq!(true, search(query, contents, false));
}

#[test]
fn case_insensitive() {
    let query = "rUsT";
    let contents = "\
Rust:
safe, fast, productive.
Pick three.
Trust me.";

    assert_eq!(true, search(query, contents, true));
}

#[test]
fn case_sensitive_misses_other_case() {
    assert!(!search("rUsT", "Rust: Trust me.", false));
    assert!(!search("DUCT", "Duct tape.", false));
    assert!(search("DUCT", "Duct tape.", true));
}

#[test]
fn empty_term_is_always_found() {
    assert!(search("", "", false));
    assert!(search("", "anything", true));
    assert!(!search("a", "", false));
}

#[test]
fn pages_in_order() {
    let pages = vec![
        String::from("attention is all"),
        String::from("nothing here"),
        String::from("more attention"),
    ];
    assert_eq!(pages_containing("attention", &pages), vec![1, 3]);
    assert_eq!(pages_containing("absent", &pages), Vec::<u32>::new());
    assert_eq!(pages_containing("x", &Vec::new()), Vec::<u32>::new());
}

#[test]
fn config_from_arguments() {
    let args = vec![String::from("prog"), String::from("A * B"), String::from("doc.txt")];
    let config = Config::build(args, true, false).ok().unwrap();
    assert_eq!(config.query, "A * B");
    assert_eq!(config.file_path, "doc.txt");
    assert!(config.ignore_case);
    assert!(!config.display_tree);
}

#[test]
fn config_missing_arguments() {
    assert_eq!(Config::build(vec![String::from("prog")], false, false).err(), Some("Didn't get a query string"));
    assert_eq!(Config::build(Vec::new(), false, false).err(), Some("Didn't get a query string"));
    let args = vec![String::from("prog"), String::from("A")];
    assert_eq!(Config::build(args, false, false).err(), Some("Didn't get a file path"));
}
