//! Incremental evaluation: select a term breadth-first, look it up, absorb
//! it everywhere, and repeat until a single literal is left.

use vstd::prelude::*;
use crate::parser::{parse_query, parse_spec};
use crate::searcher_functions::{matches_term, search};
use crate::tree::{
    bfs, lemma_absorb_eval, lemma_absorb_size, lemma_bfs_term_resolvable, lemma_literals_finite,
    lemma_resolvable_literal, lemma_settle, lemma_settled_term_gone, settle, Expr, TreeNodeQuery,
};

verus! {

/// Every answer of `oracle` is the value that `truth` gives the term asked.
pub open spec fn answers_by<F: Fn(&str) -> bool>(oracle: F, truth: spec_fn(Seq<char>) -> bool) -> bool {
    forall|s: &str, b: bool| #[trigger] oracle.ensures((s,), b) ==> b == truth(s@)
}

/// The assignment that a document gives to terms.
pub open spec fn document_truth(contents: Seq<char>, case_insensitive: bool) -> spec_fn(Seq<char>) -> bool {
    |t: Seq<char>| matches_term(t, contents, case_insensitive)
}

/// The terms that evaluation looks up, in order, when each term `t` has the
/// value `truth(t)`: the term that breadth-first search selects, then, once
/// that term is settled, the terms of what is left; where a single literal is
/// left that is not the term just looked up, that literal last.
pub open spec fn lookups(e: Expr, truth: spec_fn(Seq<char>) -> bool) -> Seq<Seq<char>>
    decreases e.size(),
    via lookups_decreases
{
    let term = bfs(seq![e])->0;
    let rest = settle(e, term, truth(term));
    match rest {
        Expr::Lit(x) => if x == term {
            seq![term]
        } else {
            seq![term, x]
        },
        _ => seq![term] + lookups(rest, truth),
    }
}

#[via_fn]
proof fn lookups_decreases(e: Expr, truth: spec_fn(Seq<char>) -> bool) {
    let term = bfs(seq![e])->0;
    if !(e is Lit) {
        lemma_bfs_term_resolvable(e);
        lemma_settle(e, term, truth(term));
    }
}

/// A sequence without repeats whose items lie in a finite set is no longer
/// than the set.
proof fn lemma_unique_within(s: Seq<Seq<char>>, items: Set<Seq<char>>)
    requires
        s.no_duplicates(),
        items.finite(),
        forall|i: int| 0 <= i < s.len() ==> items.contains(#[trigger] s[i]),
    ensures
        s.len() <= items.len(),
{
    s.unique_seq_to_set();
    assert(s.to_set().subset_of(items));
    vstd::set_lib::lemma_len_subset(s.to_set(), items);
}

/// Evaluation first looks up the term that breadth-first search selects,
/// never looks up a term twice, looks up only texts of the tree's literals,
/// and so makes at most as many lookups as the tree has distinct literal
/// texts.
pub proof fn lemma_lookups(e: Expr, truth: spec_fn(Seq<char>) -> bool)
    ensures
        lookups(e, truth).len() >= 1,
        bfs(seq![e]) == Some(lookups(e, truth)[0]),
        lookups(e, truth).no_duplicates(),
        forall|i: int| 0 <= i < lookups(e, truth).len() ==>
            e.literals().contains(#[trigger] lookups(e, truth)[i]),
        lookups(e, truth).len() <= e.literals().len(),
    decreases e.size(),
{
    let term = bfs(seq![e])->0;
    let found = truth(term);
    let rest = settle(e, term, found);
    let l = lookups(e, truth);
    lemma_settle(e, term, found);
    lemma_literals_finite(e);
    if e is Lit {
        assert(e.literals().contains(term));
    } else {
        lemma_bfs_term_resolvable(e);
        lemma_resolvable_literal(e, term);
    }
    match rest {
        Expr::Lit(x) => {
            assert(rest.literals().contains(x));
        },
        _ => {
            lemma_lookups(rest, truth);
            lemma_settled_term_gone(rest, term);
            let tail = lookups(rest, truth);
            assert(l == seq![term] + tail);
            assert forall|i: int| 0 <= i < l.len() implies e.literals().contains(#[trigger] l[i]) by {
                if i > 0 {
                    assert(l[i] == tail[i - 1]);
                }
            }
            assert forall|i: int, j: int| 0 <= i < l.len() && 0 <= j < l.len() && i != j implies l[i]
                != l[j] by {
                if i > 0 {
                    assert(l[i] == tail[i - 1]);
                    assert(rest.literals().contains(tail[i - 1]));
                }
                if j > 0 {
                    assert(l[j] == tail[j - 1]);
                    assert(rest.literals().contains(tail[j - 1]));
                }
            }
        },
    }
    lemma_unique_within(l, e.literals());
}

/// Evaluates `tree`, asking `oracle` for the value of one term at a time.
/// Returns the verdict and the terms asked, in order. Whatever assignment
/// the oracle answers by, the verdict is the value of the whole tree under
/// it, and the terms asked are exactly `lookups` of the tree under it.
pub fn evaluate_with<F: Fn(&str) -> bool>(tree: TreeNodeQuery, oracle: F) -> (r: (
    bool,
    Ghost<Seq<Seq<char>>>,
))
    requires
        tree.wf(),
        forall|s: &str| #[trigger] oracle.requires((s,)),
    ensures
        forall|truth: spec_fn(Seq<char>) -> bool|
            #[trigger] answers_by(oracle, truth) ==> r.0 == tree.model().eval(truth) && r.1@ == lookups(
                tree.model(),
                truth,
            ),
        forall|truth: spec_fn(Seq<char>) -> bool|
            #[trigger] answers_by(oracle, truth) ==> bfs(seq![tree.model()]) == Some(r.1@[0])
                && r.1@.no_duplicates() && r.1@.len() <= tree.model().literals().len(),
{
    let ghost original = tree.model();
    let ghost mut asked: Seq<Seq<char>> = seq![];
    let mut current = tree;
    loop
        invariant
            current.wf(),
            original == tree.model(),
            forall|s: &str| #[trigger] oracle.requires((s,)),
            forall|truth: spec_fn(Seq<char>) -> bool|
                #[trigger] answers_by(oracle, truth) ==> current.model().eval(truth) == original.eval(truth)
                    && asked + lookups(current.model(), truth) == lookups(original, truth),
        decreases current.model().size(),
    {
        let term = current.breadth_first_node().unwrap();
        let found = oracle(term.as_str());
        let ghost start = current.model();
        let ghost before = asked;
        proof {
            asked = asked.push(term@);
        }
        loop
            invariant
                current.wf(),
                forall|s: &str| #[trigger] oracle.requires((s,)),
                forall|truth: spec_fn(Seq<char>) -> bool|
                    #[trigger] answers_by(oracle, truth) ==> truth(term@) == found
                        && current.model().eval(truth) == start.eval(truth),
                settle(current.model(), term@, found) == settle(start, term@, found),
            ensures
                current.model() == settle(start, term@, found),
            decreases current.model().size(),
        {
            let ghost prev = current.model();
            let changed = current.update_tree(term.as_str(), found);
            proof {
                lemma_absorb_size(prev, term@, found);
                assert forall|truth: spec_fn(Seq<char>) -> bool|
                    #[trigger] answers_by(oracle, truth) implies current.model().eval(truth) == start.eval(truth) by {
                    lemma_absorb_eval(prev, term@, found, truth);
                }
            }
            if !changed {
                break;
            }
        }
        proof {
            lemma_settle(start, term@, found);
            if !(start is Lit) {
                lemma_bfs_term_resolvable(start);
            }
        }
        if current.is_leaf() {
            let last = current.breadth_first_node().unwrap();
            if last == term {
                proof {
                    assert forall|truth: spec_fn(Seq<char>) -> bool|
                        #[trigger] answers_by(oracle, truth) implies found == original.eval(truth) && asked
                            == lookups(original, truth) by {
                        assert(current.model() == Expr::Lit(last@));
                        assert(lookups(start, truth) == seq![term@]);
                        assert(before + seq![term@] =~= asked);
                    }
                    assert forall|truth: spec_fn(Seq<char>) -> bool| #[trigger] answers_by(oracle, truth) implies bfs(
                        seq![original],
                    ) == Some(asked[0]) && asked.no_duplicates() && asked.len() <= original.literals().len() by {
                        lemma_lookups(original, truth);
                    }
                }
                return (found, Ghost(asked));
            } else {
                let last_text = last.as_str();
                let verdict = oracle(last_text);
                proof {
                    asked = asked.push(last@);
                    assert forall|truth: spec_fn(Seq<char>) -> bool|
                        #[trigger] answers_by(oracle, truth) implies verdict == original.eval(truth) && asked
                            == lookups(original, truth) by {
                        assert(oracle.ensures((last_text,), verdict));
                        assert(current.model() == Expr::Lit(last@));
                        assert(lookups(start, truth) == seq![term@, last@]);
                        assert(before + seq![term@, last@] =~= asked);
                    }
                    assert forall|truth: spec_fn(Seq<char>) -> bool| #[trigger] answers_by(oracle, truth) implies bfs(
                        seq![original],
                    ) == Some(asked[0]) && asked.no_duplicates() && asked.len() <= original.literals().len() by {
                        lemma_lookups(original, truth);
                    }
                }
                return (verdict, Ghost(asked));
            }
        }
        proof {
            assert forall|truth: spec_fn(Seq<char>) -> bool|
                #[trigger] answers_by(oracle, truth) implies asked + lookups(current.model(), truth)
                    == lookups(original, truth) by {
                assert(lookups(start, truth) == seq![term@] + lookups(current.model(), truth));
                assert(before + (seq![term@] + lookups(current.model(), truth)) =~= asked + lookups(
                    current.model(),
                    truth,
                ));
            }
        }
    }
}

/// Evaluates `tree` against a document. Returns the verdict and the terms
/// searched for, in order.
pub fn evaluate(tree: TreeNodeQuery, contents: &str, ignore_case: bool) -> (r: (
    bool,
    Ghost<Seq<Seq<char>>>,
))
    requires
        tree.wf(),
    ensures
        r.0 == tree.model().eval(document_truth(contents@, ignore_case)),
        r.1@ == lookups(tree.model(), document_truth(contents@, ignore_case)),
{
    let oracle = |term: &str| -> (b: bool)
        ensures
            b == matches_term(term@, contents@, ignore_case),
        { search(term, contents, ignore_case) };
    let r = evaluate_with(tree, oracle);
    assert(answers_by(oracle, document_truth(contents@, ignore_case)));
    r
}

/// Whether a document fulfils a query, and the terms searched for, in order.
pub fn evaluate_query(query: &str, contents: &str, ignore_case: bool) -> (r: (
    bool,
    Ghost<Seq<Seq<char>>>,
))
    ensures
        r.0 == parse_spec(query@).eval(document_truth(contents@, ignore_case)),
        r.1@ == lookups(parse_spec(query@), document_truth(contents@, ignore_case)),
{
    let tree = parse_query(query);
    evaluate(tree, contents, ignore_case)
}

} // verus!
