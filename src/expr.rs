//! Scalar expressions stored in an arena, and the column names they read.
use vstd::prelude::*;
use crate::arena::{Arena, Node};

verus! {

/// The names held by a list of strings.
pub open spec fn names_of(v: Seq<String>) -> Seq<Seq<char>> {
    v.map_values(|s: String| s@)
}

/// Whether `v` holds a string equal to `n`.
pub fn contains_name(v: &Vec<String>, n: &String) -> (res: bool)
    ensures
        res == names_of(v@).contains(n@),
{
    let mut i: usize = 0;
    while i < v.len()
        invariant
            i <= v@.len(),
            forall|j: int| 0 <= j < i ==> v@[j]@ != n@,
        decreases v@.len() - i,
    {
        if v[i] == *n {
            assert(names_of(v@)[i as int] == n@);
            return true;
        }
        i = i + 1;
    }
    assert forall|j: int| 0 <= j < names_of(v@).len() implies names_of(v@)[j] != n@ by {
        assert(names_of(v@)[j] == v@[j]@);
    }
    false
}

/// Appends `n` unless `v` already holds it.
pub fn push_unique(v: &mut Vec<String>, n: String)
    ensures
        names_of(old(v)@).contains(n@) ==> final(v)@ == old(v)@,
        !names_of(old(v)@).contains(n@) ==> final(v)@ == old(v)@.push(n),
        forall|m: Seq<char>| names_of(final(v)@).contains(m) <==> (names_of(old(v)@).contains(m) || m == n@),
{
    let ghost before = v@;
    if !contains_name(v, &n) {
        v.push(n);
        proof {
            lemma_names_push(before, n);
        }
    }
}

pub proof fn lemma_names_push(v: Seq<String>, s: String)
    ensures
        names_of(v.push(s)) == names_of(v).push(s@),
        forall|m: Seq<char>| names_of(v.push(s)).contains(m) <==> (names_of(v).contains(m) || m == s@),
{
    assert(names_of(v.push(s)) =~= names_of(v).push(s@));
    assert forall|m: Seq<char>| names_of(v.push(s)).contains(m) <==> (names_of(v).contains(m) || m == s@) by {
        if names_of(v).contains(m) {
            let j = choose|j: int| 0 <= j < names_of(v).len() && names_of(v)[j] == m;
            assert(names_of(v.push(s))[j] == m);
        }
        if m == s@ {
            assert(names_of(v.push(s))[v.len() as int] == m);
        }
        if names_of(v.push(s)).contains(m) {
            let j = choose|j: int| 0 <= j < names_of(v.push(s)).len() && names_of(v.push(s))[j] == m;
            if j < v.len() {
                assert(names_of(v)[j] == m);
            }
        }
    }
}

/// A copy of a list of strings.
pub fn clone_names(v: &Vec<String>) -> (res: Vec<String>)
    ensures
        res@ == v@,
{
    let mut out: Vec<String> = Vec::new();
    let mut i: usize = 0;
    while i < v.len()
        invariant
            i <= v@.len(),
            out@ == v@.subrange(0, i as int),
        decreases v@.len() - i,
    {
        out.push(v[i].clone());
        assert(out@ =~= v@.subrange(0, i + 1));
        i = i + 1;
    }
    assert(out@ =~= v@);
    out
}

#[derive(Clone, Copy, PartialEq, Eq, Structural, Debug)]
pub enum Operator {
    Plus,
    Minus,
    Multiply,
    Eq,
    Lt,
    And,
    Or,
}

/// A scalar expression; operands are handles into the same arena.
pub enum AExpr {
    Column(String),
    Literal(i64),
    BinaryExpr { left: Node, op: Operator, right: Node },
    Alias(Node, String),
}

/// An expression handle together with the name of the column it produces.
pub struct ExprIR {
    pub node: Node,
    pub output_name: String,
}

impl ExprIR {
    pub fn new(node: Node, output_name: String) -> (res: Self)
        ensures
            res.node == node,
            res.output_name == output_name,
    {
        ExprIR { node, output_name }
    }

    pub fn node(&self) -> (res: Node)
        ensures
            res == self.node,
    {
        self.node
    }

    pub fn output_name(&self) -> (res: &String)
        ensures
            *res == self.output_name,
    {
        &self.output_name
    }

    pub fn duplicate(&self) -> (res: Self)
        ensures
            res == *self,
    {
        ExprIR { node: self.node, output_name: self.output_name.clone() }
    }
}

/// The output names of a list of expressions, in order.
pub open spec fn expr_names(exprs: Seq<ExprIR>) -> Seq<Seq<char>> {
    exprs.map_values(|e: ExprIR| e.output_name@)
}

/// The input columns an expression reads: the names of the column references
/// reachable from it. Operands are followed only towards smaller handles, the
/// order in which an append-only arena creates them.
pub open spec fn expr_leaves(ea: Seq<AExpr>, h: nat) -> Set<Seq<char>>
    decreases h,
{
    if h < ea.len() {
        match ea[h as int] {
            AExpr::Column(n) => set![n@],
            AExpr::Literal(_) => Set::empty(),
            AExpr::BinaryExpr { left, op, right } => {
                let l = if (left.0 as nat) < h {
                    expr_leaves(ea, left.0 as nat)
                } else {
                    Set::empty()
                };
                let r = if (right.0 as nat) < h {
                    expr_leaves(ea, right.0 as nat)
                } else {
                    Set::empty()
                };
                l.union(r)
            },
            AExpr::Alias(input, _) => {
                if (input.0 as nat) < h {
                    expr_leaves(ea, input.0 as nat)
                } else {
                    Set::empty()
                }
            },
        }
    } else {
        Set::empty()
    }
}

/// The input columns read by any of `exprs`.
pub open spec fn exprs_leaves(ea: Seq<AExpr>, exprs: Seq<ExprIR>) -> Set<Seq<char>>
    decreases exprs.len(),
{
    if exprs.len() == 0 {
        Set::empty()
    } else {
        exprs_leaves(ea, exprs.drop_last()).union(expr_leaves(ea, exprs.last().node.0 as nat))
    }
}

/// Adds to `out` every column that the expression at `h` reads.
pub fn collect_leaves(ea: &Arena<AExpr>, h: Node, out: &mut Vec<String>)
    requires
        h.0 < ea@.len(),
    ensures
        forall|m: Seq<char>|
            names_of(final(out)@).contains(m) <==> (names_of(old(out)@).contains(m)
                || expr_leaves(ea@, h.0 as nat).contains(m)),
    decreases h.0,
{
    match ea.get(h) {
        AExpr::Column(n) => {
            push_unique(out, n.clone());
        },
        AExpr::Literal(_) => {},
        AExpr::BinaryExpr { left, op, right } => {
            if left.0 < h.0 {
                collect_leaves(ea, *left, out);
            }
            if right.0 < h.0 {
                collect_leaves(ea, *right, out);
            }
        },
        AExpr::Alias(input, _) => {
            if input.0 < h.0 {
                collect_leaves(ea, *input, out);
            }
        },
    }
}

/// `now` holds exactly the names of `before` and those of `added`.
pub open spec fn gathered(now: Seq<String>, before: Seq<String>, added: Set<Seq<char>>) -> bool {
    forall|m: Seq<char>|
        names_of(now).contains(m) <==> (names_of(before).contains(m) || added.contains(m))
}

pub proof fn lemma_gathered(now: Seq<String>, before: Seq<String>, added: Set<Seq<char>>, m: Seq<char>)
    requires
        gathered(now, before, added),
    ensures
        names_of(now).contains(m) <==> (names_of(before).contains(m) || added.contains(m)),
{
}

/// Adds to `out` every column that one of `exprs` reads.
pub fn collect_exprs_leaves(ea: &Arena<AExpr>, exprs: &Vec<ExprIR>, out: &mut Vec<String>)
    requires
        forall|i: int| 0 <= i < exprs@.len() ==> exprs@[i].node.0 < ea@.len(),
    ensures
        forall|m: Seq<char>|
            names_of(final(out)@).contains(m) <==> (names_of(old(out)@).contains(m)
                || exprs_leaves(ea@, exprs@).contains(m)),
{
    let ghost start = out@;
    assert(start == old(out)@);
    let mut i: usize = 0;
    while i < exprs.len()
        invariant
            i <= exprs@.len(),
            forall|k: int| 0 <= k < exprs@.len() ==> exprs@[k].node.0 < ea@.len(),
            gathered(out@, start, exprs_leaves(ea@, exprs@.subrange(0, i as int))),
        decreases exprs@.len() - i,
    {
        let ghost mid = out@;
        assert(gathered(mid, start, exprs_leaves(ea@, exprs@.subrange(0, i as int))));
        collect_leaves(ea, exprs[i].node, out);
        let ghost next = exprs@.subrange(0, i + 1);
        assert(next.drop_last() =~= exprs@.subrange(0, i as int));
        assert(next.last() == exprs@[i as int]);
        assert(exprs_leaves(ea@, next) == exprs_leaves(ea@, exprs@.subrange(0, i as int)).union(
            expr_leaves(ea@, exprs@[i as int].node.0 as nat),
        ));
        assert forall|m: Seq<char>|
            names_of(out@).contains(m) <==> (names_of(start).contains(m)
                || exprs_leaves(ea@, next).contains(m)) by {
            assert(names_of(out@).contains(m) <==> (names_of(mid).contains(m)
                || expr_leaves(ea@, exprs@[i as int].node.0 as nat).contains(m)));
            lemma_gathered(mid, start, exprs_leaves(ea@, exprs@.subrange(0, i as int)), m);
        }
        i = i + 1;
        assert(next == exprs@.subrange(0, i as int));
        assert(gathered(out@, start, exprs_leaves(ea@, next)));
    }
    assert(exprs@.subrange(0, exprs@.len() as int) =~= exprs@);
    assert(gathered(out@, start, exprs_leaves(ea@, exprs@)));
    assert forall|m: Seq<char>|
        names_of(out@).contains(m) <==> (names_of(start).contains(m)
            || exprs_leaves(ea@, exprs@).contains(m)) by {
        lemma_gathered(out@, start, exprs_leaves(ea@, exprs@), m);
    }
}

/// A column read by a list of expressions is read by one of them.
pub proof fn lemma_exprs_leaves_member(ea: Seq<AExpr>, exprs: Seq<ExprIR>, n: Seq<char>)
    ensures
        exprs_leaves(ea, exprs).contains(n) <==> exists|i: int|
            0 <= i < exprs.len() && #[trigger] expr_leaves(ea, exprs[i].node.0 as nat).contains(n),
    decreases exprs.len(),
{
    if exprs.len() > 0 {
        let init = exprs.drop_last();
        lemma_exprs_leaves_member(ea, init, n);
        if exists|i: int| 0 <= i < exprs.len() && #[trigger] expr_leaves(ea, exprs[i].node.0 as nat).contains(n) {
            let i = choose|i: int| 0 <= i < exprs.len() && #[trigger] expr_leaves(ea, exprs[i].node.0 as nat).contains(n);
            if i < exprs.len() - 1 {
                assert(init[i] == exprs[i]);
            }
        }
        if exists|i: int| 0 <= i < init.len() && #[trigger] expr_leaves(ea, init[i].node.0 as nat).contains(n) {
            let i = choose|i: int| 0 <= i < init.len() && #[trigger] expr_leaves(ea, init[i].node.0 as nat).contains(n);
            assert(exprs[i] == init[i]);
            assert(expr_leaves(ea, exprs[i].node.0 as nat).contains(n));
        }
        if expr_leaves(ea, exprs.last().node.0 as nat).contains(n) {
            assert(expr_leaves(ea, exprs[exprs.len() - 1].node.0 as nat).contains(n));
        }
    }
}

/// Expressions drawn from a list read no column that the list does not.
pub proof fn lemma_exprs_leaves_within(ea: Seq<AExpr>, sub: Seq<ExprIR>, sup: Seq<ExprIR>)
    requires
        forall|j: int| 0 <= j < sub.len() ==> sup.contains(#[trigger] sub[j]),
    ensures
        forall|n: Seq<char>| #[trigger] exprs_leaves(ea, sub).contains(n) ==> exprs_leaves(ea, sup).contains(n),
{
    assert forall|n: Seq<char>| #[trigger] exprs_leaves(ea, sub).contains(n) implies exprs_leaves(ea, sup).contains(n) by {
        lemma_exprs_leaves_member(ea, sub, n);
        lemma_exprs_leaves_member(ea, sup, n);
        let i = choose|i: int| 0 <= i < sub.len() && #[trigger] expr_leaves(ea, sub[i].node.0 as nat).contains(n);
        assert(sup.contains(sub[i]));
        let k = choose|k: int| 0 <= k < sup.len() && sup[k] == sub[i];
        assert(expr_leaves(ea, sup[k].node.0 as nat).contains(n));
    }
}

} // verus!
