//! The expression tree, its mathematical model, breadth-first term selection
//! and the absorption rewrite.

use vstd::prelude::*;

verus! {

/// The tagged value held by a node.
pub enum NodeContent {
    Or,
    And,
    Literal(String),
    /// An operand missing from the query, where it ends early or where an
    /// operator or a closing parenthesis stands instead. It stands for the
    /// empty term, which every document contains, so it counts as true.
    Absent,
}

/// A node of the expression tree. An operator node has both children, a
/// literal node has none.
pub struct TreeNodeQuery {
    content: NodeContent,
    left: Option<Box<TreeNodeQuery>>,
    right: Option<Box<TreeNodeQuery>>,
}

/// Abstract value of an expression tree.
pub enum Expr {
    Lit(Seq<char>),
    Or(Box<Expr>, Box<Expr>),
    And(Box<Expr>, Box<Expr>),
}

impl Expr {
    /// Number of nodes.
    pub open spec fn size(self) -> nat
        decreases self,
    {
        match self {
            Expr::Lit(_) => 1,
            Expr::Or(l, r) => 1 + l.size() + r.size(),
            Expr::And(l, r) => 1 + l.size() + r.size(),
        }
    }

    /// Full boolean evaluation under an assignment of truth values to terms.
    pub open spec fn eval(self, truth: spec_fn(Seq<char>) -> bool) -> bool
        decreases self,
    {
        match self {
            Expr::Lit(t) => truth(t),
            Expr::Or(l, r) => l.eval(truth) || r.eval(truth),
            Expr::And(l, r) => l.eval(truth) && r.eval(truth),
        }
    }

    /// The two operands of an operator node.
    pub open spec fn children(self) -> Option<(Expr, Expr)> {
        match self {
            Expr::Lit(_) => None,
            Expr::Or(l, r) => Some((*l, *r)),
            Expr::And(l, r) => Some((*l, *r)),
        }
    }

    pub open spec fn is_lit_of(self, term: Seq<char>) -> bool {
        self matches Expr::Lit(t) && t == term
    }

    /// Some operator node has a literal child whose text is `term`.
    pub open spec fn resolvable(self, term: Seq<char>) -> bool
        decreases self,
    {
        match self {
            Expr::Lit(_) => false,
            Expr::Or(l, r) => l.is_lit_of(term) || r.is_lit_of(term) || l.resolvable(term)
                || r.resolvable(term),
            Expr::And(l, r) => l.is_lit_of(term) || r.is_lit_of(term) || l.resolvable(term)
                || r.resolvable(term),
        }
    }

    /// One pass of absorption for `term`, whose truth value is `found`: every
    /// shallowest operator node with a literal child `term` collapses to one
    /// of its children; other operator nodes are searched below.
    pub open spec fn absorb(self, term: Seq<char>, found: bool) -> Expr
        decreases self,
    {
        match self {
            Expr::Lit(_) => self,
            Expr::Or(l, r) => if l.is_lit_of(term) {
                if found { *l } else { *r }
            } else if r.is_lit_of(term) {
                if found { *r } else { *l }
            } else {
                Expr::Or(Box::new(l.absorb(term, found)), Box::new(r.absorb(term, found)))
            },
            Expr::And(l, r) => if l.is_lit_of(term) {
                if found { *r } else { *l }
            } else if r.is_lit_of(term) {
                if found { *l } else { *r }
            } else {
                Expr::And(Box::new(l.absorb(term, found)), Box::new(r.absorb(term, found)))
            },
        }
    }
}

impl Expr {
    /// The texts of the literals of the tree.
    pub open spec fn literals(self) -> Set<Seq<char>>
        decreases self,
    {
        match self {
            Expr::Lit(t) => set![t],
            Expr::Or(l, r) => l.literals().union(r.literals()),
            Expr::And(l, r) => l.literals().union(r.literals()),
        }
    }
}

/// Absorption of `term` repeated until nothing is left to absorb.
pub open spec fn settle(e: Expr, term: Seq<char>, found: bool) -> Expr
    decreases e.size(),
    via settle_decreases
{
    if e.resolvable(term) {
        settle(e.absorb(term, found), term, found)
    } else {
        e
    }
}

#[via_fn]
proof fn settle_decreases(e: Expr, term: Seq<char>, found: bool) {
    lemma_absorb_size(e, term, found);
}

/// Total number of nodes of the trees in a queue.
pub open spec fn queue_size(queue: Seq<Expr>) -> nat
    decreases queue.len(),
{
    if queue.len() == 0 {
        0
    } else {
        queue_size(queue.drop_last()) + queue.last().size()
    }
}

/// Breadth-first search over a queue of trees: the text of the first literal
/// dequeued, where an operator node enqueues its left child, then its right.
pub open spec fn bfs(queue: Seq<Expr>) -> Option<Seq<char>>
    decreases queue_size(queue),
    via bfs_decreases
{
    if queue.len() == 0 {
        None
    } else {
        match queue[0] {
            Expr::Lit(t) => Some(t),
            Expr::Or(l, r) => bfs(queue.drop_first().push(*l).push(*r)),
            Expr::And(l, r) => bfs(queue.drop_first().push(*l).push(*r)),
        }
    }
}

proof fn lemma_queue_size_drop_first(queue: Seq<Expr>)
    requires
        queue.len() > 0,
    ensures
        queue_size(queue) == queue[0].size() + queue_size(queue.drop_first()),
    decreases queue.len(),
{
    if queue.len() > 1 {
        lemma_queue_size_drop_first(queue.drop_last());
        assert(queue.drop_last().drop_first() =~= queue.drop_first().drop_last());
    } else {
        assert(queue.drop_last() =~= Seq::<Expr>::empty());
        assert(queue.drop_first() =~= Seq::<Expr>::empty());
    }
}

/// Dequeuing an operator node and enqueuing its children shrinks the queue.
proof fn lemma_queue_step(queue: Seq<Expr>, l: Expr, r: Expr)
    requires
        queue.len() > 0,
        queue[0].children() == Some((l, r)),
    ensures
        queue_size(queue.drop_first().push(l).push(r)) < queue_size(queue),
{
    lemma_queue_size_drop_first(queue);
    let q = queue.drop_first().push(l).push(r);
    assert(q.drop_last() =~= queue.drop_first().push(l));
    assert(q.drop_last().drop_last() =~= queue.drop_first());
    assert(queue_size(q) == queue_size(q.drop_last()) + r.size());
    assert(queue_size(q.drop_last()) == queue_size(queue.drop_first()) + l.size());
}

#[via_fn]
proof fn bfs_decreases(queue: Seq<Expr>) {
    if queue.len() > 0 {
        if let Some((l, r)) = queue[0].children() {
            lemma_queue_step(queue, l, r);
        }
    }
}

/// One step of breadth-first search on an operator node.
proof fn lemma_bfs_step(queue: Seq<Expr>, l: Expr, r: Expr)
    requires
        queue.len() > 0,
        queue[0].children() == Some((l, r)),
    ensures
        queue_size(queue.drop_first().push(l).push(r)) < queue_size(queue),
        bfs(queue) == bfs(queue.drop_first().push(l).push(r)),
{
    lemma_queue_step(queue, l, r);
}

/// A non-empty queue always yields a literal.
pub proof fn lemma_bfs_some(queue: Seq<Expr>)
    requires
        queue.len() > 0,
    ensures
        bfs(queue) is Some,
    decreases queue_size(queue),
{
    if let Some((l, r)) = queue[0].children() {
        lemma_bfs_step(queue, l, r);
        lemma_bfs_some(queue.drop_first().push(l).push(r));
    }
}

spec fn holds_term(e: Expr, x: Seq<char>) -> bool {
    e.is_lit_of(x) || e.resolvable(x)
}

/// The literal that breadth-first search selects is a tree of the queue, or
/// the child of an operator node within one.
proof fn lemma_bfs_origin(queue: Seq<Expr>)
    ensures
        bfs(queue) is Some ==> exists|i: int|
            0 <= i < queue.len() && #[trigger] holds_term(queue[i], bfs(queue)->0),
    decreases queue_size(queue),
{
    if queue.len() > 0 {
        if let Some((l, r)) = queue[0].children() {
            let q = queue.drop_first().push(l).push(r);
            lemma_bfs_step(queue, l, r);
            lemma_bfs_origin(q);
            if let Some(x) = bfs(queue) {
                let j = choose|j: int| 0 <= j < q.len() && #[trigger] holds_term(q[j], x);
                if j < queue.len() - 1 {
                    assert(q[j] == queue[j + 1]);
                    assert(holds_term(queue[j + 1], bfs(queue)->0));
                } else {
                    assert(holds_term(queue[0], bfs(queue)->0));
                }
            }
        } else {
            assert(holds_term(queue[0], bfs(queue)->0));
        }
    }
}

/// In a tree that is not a single literal, the term that breadth-first
/// search selects can be absorbed.
pub proof fn lemma_bfs_term_resolvable(e: Expr)
    requires
        !(e is Lit),
    ensures
        bfs(seq![e]) matches Some(x) && e.resolvable(x),
{
    lemma_bfs_some(seq![e]);
    let (l, r) = e.children()->0;
    let q = seq![e].drop_first().push(l).push(r);
    lemma_bfs_step(seq![e], l, r);
    lemma_bfs_origin(q);
    assert(q[0] == l && q[1] == r);
}

/// One pass of absorption never grows the tree, shrinks it whenever the term
/// can be absorbed, and changes nothing otherwise.
pub proof fn lemma_absorb_size(e: Expr, term: Seq<char>, found: bool)
    ensures
        e.absorb(term, found).size() <= e.size(),
        e.resolvable(term) ==> e.absorb(term, found).size() < e.size(),
        !e.resolvable(term) ==> e.absorb(term, found) == e,
    decreases e,
{
    match e {
        Expr::Lit(_) => {},
        Expr::Or(l, r) => {
            lemma_absorb_size(*l, term, found);
            lemma_absorb_size(*r, term, found);
        },
        Expr::And(l, r) => {
            lemma_absorb_size(*l, term, found);
            lemma_absorb_size(*r, term, found);
        },
    }
}

/// Absorption keeps the value of the tree under every assignment that gives
/// `term` the value `found`.
pub proof fn lemma_absorb_eval(e: Expr, term: Seq<char>, found: bool, truth: spec_fn(Seq<char>) -> bool)
    requires
        truth(term) == found,
    ensures
        e.absorb(term, found).eval(truth) == e.eval(truth),
    decreases e,
{
    match e {
        Expr::Lit(_) => {},
        Expr::Or(l, r) => {
            lemma_absorb_eval(*l, term, found, truth);
            lemma_absorb_eval(*r, term, found, truth);
        },
        Expr::And(l, r) => {
            lemma_absorb_eval(*l, term, found, truth);
            lemma_absorb_eval(*r, term, found, truth);
        },
    }
}

/// The operator symbol at the root, or the literal's text.
pub open spec fn label_of(e: Expr) -> Seq<char> {
    match e {
        Expr::Lit(t) => t,
        Expr::Or(_, _) => "+"@,
        Expr::And(_, _) => "*"@,
    }
}

/// Once no operator node has the literal `term` as a child, absorbing `term`
/// again changes nothing, and still finds nothing to absorb.
pub proof fn lemma_absorb_settled(e: Expr, term: Seq<char>, found: bool)
    requires
        !e.resolvable(term),
    ensures
        e.absorb(term, found) == e,
        !e.absorb(term, found).resolvable(term),
{
    lemma_absorb_size(e, term, found);
}

/// The literal texts of a tree form a finite set.
pub proof fn lemma_literals_finite(e: Expr)
    ensures
        e.literals().finite(),
    decreases e,
{
    match e {
        Expr::Lit(_) => {},
        Expr::Or(l, r) => {
            lemma_literals_finite(*l);
            lemma_literals_finite(*r);
        },
        Expr::And(l, r) => {
            lemma_literals_finite(*l);
            lemma_literals_finite(*r);
        },
    }
}

/// Absorption adds no literal.
pub proof fn lemma_absorb_literals(e: Expr, term: Seq<char>, found: bool)
    ensures
        e.absorb(term, found).literals().subset_of(e.literals()),
    decreases e,
{
    match e {
        Expr::Lit(_) => {},
        Expr::Or(l, r) => {
            lemma_absorb_literals(*l, term, found);
            lemma_absorb_literals(*r, term, found);
        },
        Expr::And(l, r) => {
            lemma_absorb_literals(*l, term, found);
            lemma_absorb_literals(*r, term, found);
        },
    }
}

/// Settling a term adds no literal, never grows the tree, and shrinks it
/// whenever the term can be absorbed; afterwards the term cannot be absorbed.
pub proof fn lemma_settle(e: Expr, term: Seq<char>, found: bool)
    ensures
        settle(e, term, found).literals().subset_of(e.literals()),
        settle(e, term, found).size() <= e.size(),
        e.resolvable(term) ==> settle(e, term, found).size() < e.size(),
        !settle(e, term, found).resolvable(term),
        forall|truth: spec_fn(Seq<char>) -> bool| truth(term) == found ==>
            #[trigger] settle(e, term, found).eval(truth) == e.eval(truth),
    decreases e.size(),
{
    lemma_absorb_size(e, term, found);
    if e.resolvable(term) {
        let next = e.absorb(term, found);
        lemma_absorb_literals(e, term, found);
        lemma_settle(next, term, found);
        assert forall|truth: spec_fn(Seq<char>) -> bool| truth(term) == found implies
            #[trigger] settle(e, term, found).eval(truth) == e.eval(truth) by {
            lemma_absorb_eval(e, term, found, truth);
            assert(settle(next, term, found).eval(truth) == next.eval(truth));
        }
    }
}

/// In a tree that is not a single literal every literal is the child of an
/// operator node, so a term that cannot be absorbed does not occur.
pub proof fn lemma_settled_term_gone(e: Expr, term: Seq<char>)
    requires
        !(e is Lit),
        !e.resolvable(term),
    ensures
        !e.literals().contains(term),
    decreases e, 0nat,
{
    match e {
        Expr::Lit(_) => {},
        Expr::Or(l, r) => {
            lemma_child_lacks_term(*l, term);
            lemma_child_lacks_term(*r, term);
        },
        Expr::And(l, r) => {
            lemma_child_lacks_term(*l, term);
            lemma_child_lacks_term(*r, term);
        },
    }
}

proof fn lemma_child_lacks_term(c: Expr, term: Seq<char>)
    requires
        !c.is_lit_of(term),
        !c.resolvable(term),
    ensures
        !c.literals().contains(term),
    decreases c, 1nat,
{
    match c {
        Expr::Lit(t) => {
            assert(t != term);
            assert(!set![t].contains(term));
        },
        _ => lemma_settled_term_gone(c, term),
    }
}

/// A term that can be absorbed is the text of a literal of the tree.
pub proof fn lemma_resolvable_literal(e: Expr, term: Seq<char>)
    requires
        e.resolvable(term),
    ensures
        e.literals().contains(term),
    decreases e,
{
    match e {
        Expr::Lit(_) => {},
        Expr::Or(l, r) => {
            if l.resolvable(term) {
                lemma_resolvable_literal(*l, term);
            }
            if l.is_lit_of(term) {
                assert(l.literals().contains(term));
            }
            if r.resolvable(term) {
                lemma_resolvable_literal(*r, term);
            }
            if r.is_lit_of(term) {
                assert(r.literals().contains(term));
            }
        },
        Expr::And(l, r) => {
            if l.resolvable(term) {
                lemma_resolvable_literal(*l, term);
            }
            if l.is_lit_of(term) {
                assert(l.literals().contains(term));
            }
            if r.resolvable(term) {
                lemma_resolvable_literal(*r, term);
            }
            if r.is_lit_of(term) {
                assert(r.literals().contains(term));
            }
        },
    }
}

/// The text held by an optional string.
pub open spec fn text_of(o: Option<String>) -> Option<Seq<char>> {
    match o {
        Some(s) => Some(s@),
        None => None,
    }
}

spec fn models(queue: Seq<&TreeNodeQuery>) -> Seq<Expr> {
    queue.map_values(|t: &TreeNodeQuery| t.model())
}

impl TreeNodeQuery {
    /// Operator nodes have two well-formed children, literal nodes none.
    pub closed spec fn wf(self) -> bool
        decreases self,
    {
        match self.content {
            NodeContent::Literal(_) | NodeContent::Absent => self.left is None && self.right is None,
            _ => match (self.left, self.right) {
                (Some(l), Some(r)) => l.wf() && r.wf(),
                _ => false,
            },
        }
    }

    pub closed spec fn model(self) -> Expr
        decreases self,
    {
        match (self.content, self.left, self.right) {
            (NodeContent::Or, Some(l), Some(r)) => Expr::Or(Box::new(l.model()), Box::new(r.model())),
            (NodeContent::And, Some(l), Some(r)) => Expr::And(Box::new(l.model()), Box::new(r.model())),
            (NodeContent::Literal(t), _, _) => Expr::Lit(t@),
            (NodeContent::Absent, _, _) => Expr::Lit(Seq::empty()),
            _ => Expr::Lit(Seq::empty()),
        }
    }

    /// A missing operand, the empty term.
    pub fn absent() -> (r: Self)
        ensures
            r.wf(),
            r.model() == Expr::Lit(Seq::empty()),
    {
        TreeNodeQuery { content: NodeContent::Absent, left: None, right: None }
    }

    /// A literal node.
    pub fn new(content: String) -> (r: Self)
        ensures
            r.wf(),
            r.model() == Expr::Lit(content@),
    {
        TreeNodeQuery { content: NodeContent::Literal(content), left: None, right: None }
    }

    /// An operator node over two subtrees; `and` picks the operator.
    pub fn new_operator(and: bool, left: TreeNodeQuery, right: TreeNodeQuery) -> (r: Self)
        requires
            left.wf(),
            right.wf(),
        ensures
            r.wf(),
            r.model() == (if and {
                Expr::And(Box::new(left.model()), Box::new(right.model()))
            } else {
                Expr::Or(Box::new(left.model()), Box::new(right.model()))
            }),
    {
        let content = if and { NodeContent::And } else { NodeContent::Or };
        TreeNodeQuery { content, left: Some(Box::new(left)), right: Some(Box::new(right)) }
    }

    pub fn is_leaf(&self) -> (r: bool)
        requires
            self.wf(),
        ensures
            r == self.model() is Lit,
    {
        self.left.is_none() && self.right.is_none()
    }

    /// The operator symbol of an operator node, or the text of a literal.
    pub fn label(&self) -> (r: String)
        requires
            self.wf(),
        ensures
            r@ == label_of(self.model()),
    {
        match &self.content {
            NodeContent::Or => "+".to_owned(),
            NodeContent::And => "*".to_owned(),
            NodeContent::Literal(t) => t.clone(),
            NodeContent::Absent => String::new(),
        }
    }

    pub fn left_child(&self) -> (r: Option<&TreeNodeQuery>)
        requires
            self.wf(),
        ensures
            self.model() is Lit ==> r is None,
            self.model() matches Expr::Or(l, _) ==> (r matches Some(c) && c.wf() && c.model() == *l),
            self.model() matches Expr::And(l, _) ==> (r matches Some(c) && c.wf() && c.model() == *l),
    {
        match &self.left {
            Some(l) => Some(&**l),
            None => None,
        }
    }

    pub fn right_child(&self) -> (r: Option<&TreeNodeQuery>)
        requires
            self.wf(),
        ensures
            self.model() is Lit ==> r is None,
            self.model() matches Expr::Or(_, rt) ==> (r matches Some(c) && c.wf() && c.model() == *rt),
            self.model() matches Expr::And(_, rt) ==> (r matches Some(c) && c.wf() && c.model() == *rt),
    {
        match &self.right {
            Some(r) => Some(&**r),
            None => None,
        }
    }

    /// Whether this node is a literal whose text is `term`.
    fn is_literal_of(&self, term: &String) -> (r: bool)
        requires
            self.wf(),
        ensures
            r == self.model().is_lit_of(term@),
    {
        match &self.content {
            NodeContent::Literal(t) => *t == *term,
            NodeContent::Absent => {
                let empty = term.as_str().is_empty();
                assert(empty ==> term@ =~= Seq::<char>::empty());
                empty
            },
            _ => false,
        }
    }

    /// The text of the first literal met in breadth-first order, the left
    /// child before the right one.
    pub fn breadth_first_node(&self) -> (r: Option<String>)
        requires
            self.wf(),
        ensures
            text_of(r) == bfs(seq![self.model()]),
            r is Some,
    {
        proof {
            lemma_bfs_some(seq![self.model()]);
        }
        let mut queue: Vec<&TreeNodeQuery> = Vec::new();
        queue.push(self);
        let mut head: usize = 0;
        assert(models(queue@.subrange(0, 1)) =~= seq![self.model()]);
        while head < queue.len()
            invariant
                head <= queue.len(),
                forall|i: int| 0 <= i < queue.len() ==> (#[trigger] queue@[i]).wf(),
                bfs(models(queue@.subrange(head as int, queue.len() as int))) == bfs(seq![self.model()]),
            decreases queue_size(models(queue@.subrange(head as int, queue.len() as int))),
        {
            let ghost pending = models(queue@.subrange(head as int, queue.len() as int));
            let current = queue[head];
            head = head + 1;
            assert(pending[0] == current.model());
            match &current.content {
                NodeContent::Literal(t) => {
                    return Some(t.clone());
                },
                NodeContent::Absent => {
                    return Some(String::new());
                },
                _ => {},
            }
            match (&current.left, &current.right) {
                (Some(l), Some(r)) => {
                    queue.push(&**l);
                    queue.push(&**r);
                    proof {
                        let next = models(queue@.subrange(head as int, queue.len() as int));
                        assert(next =~= pending.drop_first().push(l.model()).push(r.model()));
                        lemma_bfs_step(pending, l.model(), r.model());
                    }
                },
                _ => {},
            }
        }
        None
    }

    /// One pass of absorption for `query`, whose truth value is `found`.
    /// Returns whether anything was rewritten.
    pub fn update_tree(&mut self, query: &str, found: bool) -> (changed: bool)
        requires
            old(self).wf(),
        ensures
            final(self).wf(),
            final(self).model() == old(self).model().absorb(query@, found),
            changed == old(self).model().resolvable(query@),
    {
        let term = query.to_owned();
        self.update_with(&term, found)
    }

    fn update_with(&mut self, term: &String, found: bool) -> (changed: bool)
        requires
            old(self).wf(),
        ensures
            final(self).wf(),
            final(self).model() == old(self).model().absorb(term@, found),
            changed == old(self).model().resolvable(term@),
        decreases *old(self),
    {
        if self.is_leaf() {
            return false;
        }
        let hit = match (&self.left, &self.right) {
            (Some(l), Some(r)) => l.is_literal_of(term) || r.is_literal_of(term),
            _ => false,
        };
        if hit {
            self.update_atomic(term, found);
            true
        } else {
            let mut l = self.left.take().unwrap();
            let mut r = self.right.take().unwrap();
            let changed_left = l.update_with(term, found);
            let changed_right = r.update_with(term, found);
            self.left = Some(l);
            self.right = Some(r);
            changed_left || changed_right
        }
    }

    /// Collapses an operator node one of whose children is the literal
    /// `term`, by the absorption laws.
    fn update_atomic(&mut self, term: &String, found: bool)
        requires
            old(self).wf(),
            !(old(self).model() is Lit),
            old(self).left.unwrap().model().is_lit_of(term@)
                || old(self).right.unwrap().model().is_lit_of(term@),
        ensures
            final(self).wf(),
            final(self).model() == old(self).model().absorb(term@, found),
    {
        let left = self.left.take().unwrap();
        let right = self.right.take().unwrap();
        let left_hit = left.is_literal_of(term);
        let keep_left = match &self.content {
            NodeContent::Or => if left_hit { found } else { !found },
            NodeContent::And => if left_hit { !found } else { found },
            NodeContent::Literal(_) | NodeContent::Absent => true,
        };
        *self = if keep_left { *left } else { *right };
    }
}

} // verus!
