//! Boolean membership queries over a document: a query such as `A * (B + C)`
//! is parsed into an expression tree and evaluated with as few term lookups
//! as the absorption laws allow.

pub mod evaluator;
pub mod parser;
pub mod searcher_functions;
pub mod tree;

use vstd::prelude::*;

verus! {

/// What a run is asked to do.
pub struct Config {
    pub query: String,
    pub file_path: String,
    /// Fold case before matching terms.
    pub ignore_case: bool,
    /// Show the parsed tree before evaluating it.
    pub display_tree: bool,
}

impl Config {
    /// Builds a configuration from the command line, where `args[0]` is the
    /// program, `args[1]` the query and `args[2]` the document's path; further
    /// arguments are ignored.
    pub fn build(args: Vec<String>, ignore_case: bool, display_tree: bool) -> (r: Result<
        Config,
        &'static str,
    >)
        ensures
            args@.len() < 2 ==> r == Err::<Config, &'static str>("Didn't get a query string"),
            args@.len() == 2 ==> r == Err::<Config, &'static str>("Didn't get a file path"),
            args@.len() > 2 ==> (r matches Ok(c) && c.query@ == args@[1]@ && c.file_path@ == args@[2]@
                && c.ignore_case == ignore_case && c.display_tree == display_tree),
    {
        if args.len() < 2 {
            return Err("Didn't get a query string");
        }
        if args.len() < 3 {
            return Err("Didn't get a file path");
        }
        let query = args[1].clone();
        let file_path = args[2].clone();
        Ok(Config { query, file_path, ignore_case, display_tree })
    }
}

} // verus!
