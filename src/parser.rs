//! Tokenizer and recursive-descent parser for queries such as
//! `(A + B) * C`, where `*` binds tighter than `+`.

use vstd::prelude::*;
use crate::tree::{Expr, TreeNodeQuery};

verus! {

/// An atom of a query.
pub enum Token {
    Plus,
    Star,
    Open,
    Close,
    Literal(String),
}

/// Abstract value of a token.
pub enum Atom {
    Plus,
    Star,
    Open,
    Close,
    Literal(Seq<char>),
}

impl View for Token {
    type V = Atom;

    open spec fn view(&self) -> Atom {
        match self {
            Token::Plus => Atom::Plus,
            Token::Star => Atom::Star,
            Token::Open => Atom::Open,
            Token::Close => Atom::Close,
            Token::Literal(t) => Atom::Literal(t@),
        }
    }
}

impl Atom {
    /// The text that a token stands for.
    pub open spec fn text(self) -> Seq<char> {
        match self {
            Atom::Plus => "+"@,
            Atom::Star => "*"@,
            Atom::Open => "("@,
            Atom::Close => ")"@,
            Atom::Literal(t) => t,
        }
    }
}

impl Token {
    /// The text that this token stands for.
    pub fn text(&self) -> (r: String)
        ensures
            r@ == self@.text(),
    {
        match self {
            Token::Plus => "+".to_owned(),
            Token::Star => "*".to_owned(),
            Token::Open => "(".to_owned(),
            Token::Close => ")".to_owned(),
            Token::Literal(t) => t.clone(),
        }
    }
}

pub open spec fn atoms(tokens: Seq<Token>) -> Seq<Atom> {
    tokens.map_values(|t: Token| t@)
}

pub open spec fn is_symbol(c: char) -> bool {
    c == '+' || c == '*' || c == '(' || c == ')'
}

pub open spec fn symbol_atom(c: char) -> Atom {
    if c == '+' {
        Atom::Plus
    } else if c == '*' {
        Atom::Star
    } else if c == '(' {
        Atom::Open
    } else {
        Atom::Close
    }
}

/// The characters with the Unicode property White_Space.
pub open spec fn is_white_space(c: char) -> bool {
    let u = c as u32;
    (0x09 <= u <= 0x0D) || u == 0x20 || u == 0x85 || u == 0xA0 || u == 0x1680 || (0x2000 <= u
        <= 0x200A) || u == 0x2028 || u == 0x2029 || u == 0x202F || u == 0x205F || u == 0x3000
}

/// `s` without its leading white space.
pub open spec fn trim_start(s: Seq<char>) -> Seq<char>
    decreases s.len(),
{
    if s.len() > 0 && is_white_space(s[0]) {
        trim_start(s.drop_first())
    } else {
        s
    }
}

/// `s` without its trailing white space.
pub open spec fn trim_end(s: Seq<char>) -> Seq<char>
    decreases s.len(),
{
    if s.len() > 0 && is_white_space(s.last()) {
        trim_end(s.drop_last())
    } else {
        s
    }
}

pub open spec fn trimmed(s: Seq<char>) -> Seq<char> {
    trim_end(trim_start(s))
}

/// Relies on `str::trim`: leading and trailing characters with the Unicode
/// property White_Space removed.
#[verifier::external_body]
fn trim(s: &str) -> (r: &str)
    ensures
        r@ == trimmed(s@),
{
    s.trim()
}

/// The literal that a run of non-symbol characters contributes: the run
/// trimmed, or nothing where that leaves it empty.
pub open spec fn flush(run: Seq<char>) -> Seq<Atom> {
    if trimmed(run).len() > 0 {
        seq![Atom::Literal(trimmed(run))]
    } else {
        seq![]
    }
}

/// Atoms of `s`, where `run` holds the characters read since the last symbol.
pub open spec fn atoms_from(s: Seq<char>, run: Seq<char>) -> Seq<Atom>
    decreases s.len(),
{
    if s.len() == 0 {
        flush(run)
    } else if is_symbol(s[0]) {
        flush(run) + seq![symbol_atom(s[0])] + atoms_from(s.drop_first(), seq![])
    } else {
        atoms_from(s.drop_first(), run.push(s[0]))
    }
}

pub open spec fn atoms_of(s: Seq<char>) -> Seq<Atom> {
    atoms_from(s, seq![])
}

/// Appends the trimmed run to `tokens` unless it is empty.
fn trim_whitespace(tokens: &mut Vec<Token>, run: &str)
    ensures
        atoms(final(tokens)@) == atoms(old(tokens)@) + flush(run@),
{
    let t = trim(run);
    let ghost before = tokens@;
    if t.unicode_len() > 0 {
        tokens.push(Token::Literal(t.to_owned()));
        assert(atoms(tokens@) =~= atoms(before) + flush(run@));
    } else {
        assert(atoms(tokens@) =~= atoms(before) + flush(run@));
    }
}

/// Splits a query into atoms: each of `+ * ( )` is one, and each maximal run
/// of other characters, trimmed, is a literal unless it is empty.
pub fn tokenize(args: &str) -> (r: Vec<Token>)
    ensures
        atoms(r@) == atoms_of(args@),
{
    let n = args.unicode_len();
    let mut output: Vec<Token> = Vec::new();
    let mut start: usize = 0;
    let mut i: usize = 0;
    assert(args@.subrange(0, n as int) =~= args@);
    assert(args@.subrange(0, 0) =~= Seq::<char>::empty());
    assert(atoms(output@) =~= Seq::<Atom>::empty());
    assert(atoms(output@) + atoms_of(args@) =~= atoms_of(args@));
    while i < n
        invariant
            n == args@.len(),
            start <= i <= n,
            atoms(output@) + atoms_from(args@.subrange(i as int, n as int), args@.subrange(start as int, i as int))
                == atoms_of(args@),
        decreases n - i,
    {
        let c = args.get_char(i);
        let ghost rest = args@.subrange(i as int, n as int);
        let ghost run = args@.subrange(start as int, i as int);
        assert(rest.drop_first() =~= args@.subrange(i + 1, n as int));
        if c == '+' || c == '*' || c == '(' || c == ')' {
            let before = args.substring_char(start, i);
            let ghost prior = atoms(output@);
            trim_whitespace(&mut output, before);
            let symbol = if c == '+' {
                Token::Plus
            } else if c == '*' {
                Token::Star
            } else if c == '(' {
                Token::Open
            } else {
                Token::Close
            };
            output.push(symbol);
            i = i + 1;
            start = i;
            assert(atoms(output@) =~= prior + flush(run) + seq![symbol_atom(c)]);
            assert(args@.subrange(start as int, i as int) =~= Seq::<char>::empty());
            assert(atoms(output@) + atoms_from(args@.subrange(i as int, n as int), seq![])
                =~= prior + (flush(run) + seq![symbol_atom(c)] + atoms_from(rest.drop_first(), seq![])));
        } else {
            i = i + 1;
            assert(run.push(c) =~= args@.subrange(start as int, i as int));
        }
    }
    let last = args.substring_char(start, n);
    assert(args@.subrange(n as int, n as int) =~= Seq::<char>::empty());
    trim_whitespace(&mut output, last);
    output
}

/// The value of the operand that stands where the query ends, or where an
/// operator or a closing parenthesis comes instead: the parser builds a
/// `NodeContent::Absent` node there, whose value is the empty term. No query
/// text yields an empty literal, since the tokenizer drops them, and every
/// document contains the empty text, so an absent operand counts as true.
pub open spec fn absent() -> Expr {
    Expr::Lit(Seq::empty())
}

/// `Query := AndExpr ('+' AndExpr)*`, from position `p`; returns the tree and
/// the position after it.
pub open spec fn parse_or(t: Seq<Atom>, p: int) -> (Expr, int)
    decreases t.len() - p, 3int,
{
    let (e, p1) = parse_and(t, p);
    if p <= p1 <= t.len() {
        or_rest(t, p1, e)
    } else {
        (e, p1)
    }
}

/// The `('+' AndExpr)*` tail, with `acc` as the left operand so far.
pub open spec fn or_rest(t: Seq<Atom>, p: int, acc: Expr) -> (Expr, int)
    decreases t.len() - p, 2int,
{
    if 0 <= p < t.len() && t[p] is Plus {
        let (r, p2) = parse_and(t, p + 1);
        let joined = Expr::Or(Box::new(acc), Box::new(r));
        if p < p2 <= t.len() {
            or_rest(t, p2, joined)
        } else {
            (joined, p2)
        }
    } else {
        (acc, p)
    }
}

/// `AndExpr := Atomic ('*' Atomic)*`.
pub open spec fn parse_and(t: Seq<Atom>, p: int) -> (Expr, int)
    decreases t.len() - p, 2int,
{
    let (e, p1) = parse_atomic(t, p);
    if p <= p1 <= t.len() {
        and_rest(t, p1, e)
    } else {
        (e, p1)
    }
}

pub open spec fn and_rest(t: Seq<Atom>, p: int, acc: Expr) -> (Expr, int)
    decreases t.len() - p, 1int,
{
    if 0 <= p < t.len() && t[p] is Star {
        let (r, p2) = parse_atomic(t, p + 1);
        let joined = Expr::And(Box::new(acc), Box::new(r));
        if p < p2 <= t.len() {
            and_rest(t, p2, joined)
        } else {
            (joined, p2)
        }
    } else {
        (acc, p)
    }
}

/// `Atomic := Literal | '(' Query ')'`. The token after a parenthesised query
/// is consumed as its closing parenthesis; a missing one is taken as closed
/// by the end of the query.
pub open spec fn parse_atomic(t: Seq<Atom>, p: int) -> (Expr, int)
    decreases t.len() - p, 0int,
{
    if 0 <= p < t.len() {
        match t[p] {
            Atom::Literal(text) => (Expr::Lit(text), p + 1),
            Atom::Open => {
                let (e, p1) = parse_or(t, p + 1);
                if p1 < t.len() {
                    (e, p1 + 1)
                } else {
                    (e, p1)
                }
            },
            _ => (absent(), p),
        }
    } else {
        (absent(), p)
    }
}

/// The tree of a query; atoms left over after the first complete query are
/// ignored.
pub open spec fn parse_spec(s: Seq<char>) -> Expr {
    parse_or(atoms_of(s), 0).0
}

fn is_plus(tokens: &Vec<Token>, pos: usize) -> (r: bool)
    ensures
        r == (pos < tokens@.len() && tokens@[pos as int]@ is Plus),
{
    pos < tokens.len() && matches!(tokens[pos], Token::Plus)
}

fn is_star(tokens: &Vec<Token>, pos: usize) -> (r: bool)
    ensures
        r == (pos < tokens@.len() && tokens@[pos as int]@ is Star),
{
    pos < tokens.len() && matches!(tokens[pos], Token::Star)
}

fn parser_or(tokens: &Vec<Token>, pos: usize) -> (r: (TreeNodeQuery, usize))
    requires
        pos <= tokens@.len(),
    ensures
        r.0.wf(),
        pos <= r.1 <= tokens@.len(),
        (r.0.model(), r.1 as int) == parse_or(atoms(tokens@), pos as int),
    decreases tokens@.len() - pos, 3int,
{
    let ghost t = atoms(tokens@);
    let (mut root, mut p) = parser_and(tokens, pos);
    while p < tokens.len() && is_plus(tokens, p)
        invariant
            t == atoms(tokens@),
            pos <= p <= tokens@.len(),
            root.wf(),
            or_rest(t, p as int, root.model()) == parse_or(t, pos as int),
        decreases tokens@.len() - p,
    {
        let (right, next) = parser_and(tokens, p + 1);
        root = TreeNodeQuery::new_operator(false, root, right);
        p = next;
    }
    (root, p)
}

fn parser_and(tokens: &Vec<Token>, pos: usize) -> (r: (TreeNodeQuery, usize))
    requires
        pos <= tokens@.len(),
    ensures
        r.0.wf(),
        pos <= r.1 <= tokens@.len(),
        (r.0.model(), r.1 as int) == parse_and(atoms(tokens@), pos as int),
    decreases tokens@.len() - pos, 2int,
{
    let ghost t = atoms(tokens@);
    let (mut root, mut p) = parser_atomic(tokens, pos);
    while p < tokens.len() && is_star(tokens, p)
        invariant
            t == atoms(tokens@),
            pos <= p <= tokens@.len(),
            root.wf(),
            and_rest(t, p as int, root.model()) == parse_and(t, pos as int),
        decreases tokens@.len() - p,
    {
        let (right, next) = parser_atomic(tokens, p + 1);
        root = TreeNodeQuery::new_operator(true, root, right);
        p = next;
    }
    (root, p)
}

fn parser_atomic(tokens: &Vec<Token>, pos: usize) -> (r: (TreeNodeQuery, usize))
    requires
        pos <= tokens@.len(),
    ensures
        r.0.wf(),
        pos <= r.1 <= tokens@.len(),
        (r.0.model(), r.1 as int) == parse_atomic(atoms(tokens@), pos as int),
    decreases tokens@.len() - pos, 0int,
{
    if pos >= tokens.len() {
        return (TreeNodeQuery::absent(), pos);
    }
    match &tokens[pos] {
        Token::Literal(text) => (TreeNodeQuery::new(text.clone()), pos + 1),
        Token::Open => {
            let (expression, p) = parser_or(tokens, pos + 1);
            if p < tokens.len() {
                (expression, p + 1)
            } else {
                (expression, p)
            }
        },
        _ => (TreeNodeQuery::absent(), pos),
    }
}

/// Parses a query into its expression tree.
pub fn parse_query(args: &str) -> (r: TreeNodeQuery)
    ensures
        r.wf(),
        r.model() == parse_spec(args@),
{
    let tokens = tokenize(args);
    let (tree, _) = parser_or(&tokens, 0);
    tree
}

} // verus!
