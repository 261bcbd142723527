//! Which expressions of an add-columns node stay alive, and what its input
//! must still supply.
use vstd::prelude::*;
use crate::arena::{Arena, Node};
use crate::context::ProjectionContext;
use crate::expr::{
    collect_exprs_leaves, contains_name, expr_names, exprs_leaves, lemma_names_push, names_of,
    push_unique, AExpr, ExprIR,
};

verus! {

/// The expressions of an add-columns node that survive pruning against the
/// required names `acc`: an expression stays when its output name is required
/// and no later expression of the node writes that name again (the last
/// writer is the live producer). Order is kept.
pub open spec fn prune_hstack(exprs: Seq<ExprIR>, acc: Seq<Seq<char>>) -> Seq<ExprIR>
    decreases exprs.len(),
{
    if exprs.len() == 0 {
        Seq::empty()
    } else {
        let first = exprs[0];
        let tail = exprs.subrange(1, exprs.len() as int);
        let rest = prune_hstack(tail, acc);
        if acc.contains(first.output_name@) && !expr_names(tail).contains(first.output_name@) {
            seq![first] + rest
        } else {
            rest
        }
    }
}

proof fn lemma_names_tail(exprs: Seq<ExprIR>, n: Seq<char>)
    requires
        exprs.len() > 0,
    ensures
        expr_names(exprs).contains(n) <==> (exprs[0].output_name@ == n
            || expr_names(exprs.subrange(1, exprs.len() as int)).contains(n)),
{
    let tail = exprs.subrange(1, exprs.len() as int);
    if expr_names(exprs).contains(n) {
        let j = choose|j: int| 0 <= j < expr_names(exprs).len() && expr_names(exprs)[j] == n;
        if j > 0 {
            assert(expr_names(tail)[j - 1] == n);
        }
    }
    if expr_names(tail).contains(n) {
        let j = choose|j: int| 0 <= j < expr_names(tail).len() && expr_names(tail)[j] == n;
        assert(expr_names(exprs)[j + 1] == n);
    }
    if exprs[0].output_name@ == n {
        assert(expr_names(exprs)[0] == n);
    }
}

/// What pruning keeps: expressions of the node, each with a required name,
/// and among them every required name that the node writes.
pub proof fn lemma_prune_hstack(exprs: Seq<ExprIR>, acc: Seq<Seq<char>>)
    ensures
        forall|j: int| 0 <= j < prune_hstack(exprs, acc).len()
            ==> exprs.contains(#[trigger] prune_hstack(exprs, acc)[j]),
        forall|j: int| 0 <= j < prune_hstack(exprs, acc).len()
            ==> acc.contains(#[trigger] prune_hstack(exprs, acc)[j].output_name@),
        forall|n: Seq<char>| acc.contains(n) && expr_names(exprs).contains(n)
            ==> #[trigger] expr_names(prune_hstack(exprs, acc)).contains(n),
        forall|n: Seq<char>| #[trigger] expr_names(prune_hstack(exprs, acc)).contains(n)
            ==> acc.contains(n) && expr_names(exprs).contains(n),
        prune_hstack(exprs, acc).len() <= exprs.len(),
    decreases exprs.len(),
{
    if exprs.len() > 0 {
        let first = exprs[0];
        let tail = exprs.subrange(1, exprs.len() as int);
        let rest = prune_hstack(tail, acc);
        let out = prune_hstack(exprs, acc);
        lemma_prune_hstack(tail, acc);
        let keep = acc.contains(first.output_name@) && !expr_names(tail).contains(first.output_name@);
        assert forall|j: int| 0 <= j < out.len() implies exprs.contains(#[trigger] out[j]) && acc.contains(out[j].output_name@) by {
            if keep {
                if j == 0 {
                    assert(exprs[0] == out[j]);
                } else {
                    assert(out[j] == rest[j - 1]);
                    let k = choose|k: int| 0 <= k < tail.len() && tail[k] == rest[j - 1];
                    assert(exprs[k + 1] == out[j]);
                }
            } else {
                let k = choose|k: int| 0 <= k < tail.len() && tail[k] == rest[j];
                assert(exprs[k + 1] == out[j]);
            }
        }
        assert forall|n: Seq<char>| acc.contains(n) && expr_names(exprs).contains(n)
            implies #[trigger] expr_names(out).contains(n) by {
            lemma_names_tail(exprs, n);
            if keep {
                if first.output_name@ == n {
                    assert(expr_names(out)[0] == n);
                } else {
                    assert(expr_names(rest).contains(n));
                    let k = choose|k: int| 0 <= k < expr_names(rest).len() && expr_names(rest)[k] == n;
                    assert(expr_names(out)[k + 1] == n);
                }
            } else {
                if first.output_name@ == n {
                    assert(expr_names(tail).contains(n));
                }
                assert(expr_names(out) == expr_names(rest));
            }
        }
        assert forall|n: Seq<char>| #[trigger] expr_names(out).contains(n)
            implies acc.contains(n) && expr_names(exprs).contains(n) by {
            lemma_names_tail(exprs, n);
            let k = choose|k: int| 0 <= k < expr_names(out).len() && expr_names(out)[k] == n;
            assert(out[k].output_name@ == n);
            assert(exprs.contains(out[k]));
            let m = choose|m: int| 0 <= m < exprs.len() && exprs[m] == out[k];
            assert(expr_names(exprs)[m] == n);
        }
    }
}

/// Whether a later expression than the one at `i` writes the same name.
fn written_later(exprs: &Vec<ExprIR>, i: usize) -> (res: bool)
    requires
        i < exprs@.len(),
    ensures
        res == expr_names(exprs@.subrange(i + 1, exprs@.len() as int)).contains(
            exprs@[i as int].output_name@,
        ),
{
    let ghost tail = exprs@.subrange(i + 1, exprs@.len() as int);
    let len = exprs.len();
    let mut j: usize = i + 1;
    while j < len
        invariant
            len == exprs@.len(),
            i < j <= exprs@.len(),
            tail == exprs@.subrange(i + 1, exprs@.len() as int),
            forall|k: int| i < k < j ==> exprs@[k].output_name@ != exprs@[i as int].output_name@,
        decreases exprs@.len() - j,
    {
        if exprs[j].output_name == exprs[i].output_name {
            assert(expr_names(tail)[j - i - 1] == exprs@[i as int].output_name@);
            return true;
        }
        j = j + 1;
    }
    assert forall|k: int| 0 <= k < expr_names(tail).len()
        implies expr_names(tail)[k] != exprs@[i as int].output_name@ by {
        assert(expr_names(tail)[k] == exprs@[i + 1 + k].output_name@);
    }
    false
}

/// The surviving expressions, as [`prune_hstack`] states them.
pub fn prune_exprs(exprs: &Vec<ExprIR>, ctx: &ProjectionContext) -> (res: Vec<ExprIR>)
    ensures
        res@ == prune_hstack(exprs@, ctx.names()),
{
    let ghost acc = ctx.names();
    let mut out: Vec<ExprIR> = Vec::new();
    let mut i: usize = 0;
    assert(exprs@.subrange(0, exprs@.len() as int) =~= exprs@);
    while i < exprs.len()
        invariant
            i <= exprs@.len(),
            acc == ctx.names(),
            out@ + prune_hstack(exprs@.subrange(i as int, exprs@.len() as int), acc)
                == prune_hstack(exprs@, acc),
        decreases exprs@.len() - i,
    {
        let ghost s = exprs@.subrange(i as int, exprs@.len() as int);
        let ghost rest = prune_hstack(exprs@.subrange(i + 1, exprs@.len() as int), acc);
        assert(s.subrange(1, s.len() as int) =~= exprs@.subrange(i + 1, exprs@.len() as int));
        assert(s[0] == exprs@[i as int]);
        let used = ctx.is_projected(&exprs[i].output_name);
        let later = written_later(exprs, i);
        if used && !later {
            let ghost before = out@;
            out.push(exprs[i].duplicate());
            assert(before + (seq![exprs@[i as int]] + rest) =~= out@ + rest);
        }
        i = i + 1;
    }
    assert(exprs@.subrange(exprs@.len() as int, exprs@.len() as int) =~= Seq::<ExprIR>::empty());
    assert(out@ + Seq::<ExprIR>::empty() =~= out@);
    out
}

/// Whether the input of an add-columns node is asked for `m`: `m` is
/// required above, exists in the input and is not written by the node (the
/// node's own definition shadows the input's), or it is read by a surviving
/// expression.
pub open spec fn hstack_forwards(
    acc: Seq<Seq<char>>,
    written: Seq<Seq<char>>,
    input_schema: Seq<Seq<char>>,
    reads: Set<Seq<char>>,
    m: Seq<char>,
) -> bool {
    (acc.contains(m) && input_schema.contains(m) && !written.contains(m)) || reads.contains(m)
}

/// The context handed to the input of an add-columns node whose surviving
/// expressions are `kept`, out of all its expressions `exprs`.
pub fn hstack_input_context(
    ctx: &ProjectionContext,
    exprs: &Vec<ExprIR>,
    kept: &Vec<ExprIR>,
    input_schema: &Vec<String>,
    ea: &Arena<AExpr>,
) -> (res: ProjectionContext)
    requires
        forall|i: int| 0 <= i < kept@.len() ==> kept@[i].node.0 < ea@.len(),
    ensures
        forall|m: Seq<char>|
            #[trigger] res.names().contains(m) <==> hstack_forwards(
                ctx.names(),
                expr_names(exprs@),
                names_of(input_schema@),
                exprs_leaves(ea@, kept@),
                m,
            ),
{
    let mut written: Vec<String> = Vec::new();
    let mut w: usize = 0;
    while w < exprs.len()
        invariant
            w <= exprs@.len(),
            names_of(written@) == expr_names(exprs@).subrange(0, w as int),
        decreases exprs@.len() - w,
    {
        let ghost before = written@;
        written.push(exprs[w].output_name.clone());
        proof {
            lemma_names_push(before, exprs@[w as int].output_name);
        }
        assert(names_of(written@) =~= expr_names(exprs@).subrange(0, w + 1));
        w = w + 1;
    }
    assert(names_of(written@) =~= expr_names(exprs@));
    let ghost acc = ctx.acc_projections@;
    let mut out: Vec<String> = Vec::new();
    let mut i: usize = 0;
    assert(names_of(acc.subrange(0, 0)) =~= Seq::<Seq<char>>::empty());
    while i < ctx.acc_projections.len()
        invariant
            i <= acc.len(),
            acc == ctx.acc_projections@,
            names_of(written@) == expr_names(exprs@),
            forall|m: Seq<char>|
                #[trigger] names_of(out@).contains(m) <==> (names_of(acc.subrange(0, i as int)).contains(m)
                    && names_of(input_schema@).contains(m) && !expr_names(exprs@).contains(m)),
        decreases acc.len() - i,
    {
        let name = &ctx.acc_projections[i];
        proof {
            assert(acc.subrange(0, i + 1) =~= acc.subrange(0, i as int).push(acc[i as int]));
            lemma_names_push(acc.subrange(0, i as int), acc[i as int]);
        }
        let ghost before = out@;
        if contains_name(input_schema, name) && !contains_name(&written, name) {
            push_unique(&mut out, name.clone());
        }
        assert forall|m: Seq<char>|
            #[trigger] names_of(out@).contains(m) <==> (names_of(acc.subrange(0, i + 1)).contains(m)
                && names_of(input_schema@).contains(m) && !expr_names(exprs@).contains(m)) by {
            assert(names_of(before).contains(m) <==> (names_of(acc.subrange(0, i as int)).contains(m)
                && names_of(input_schema@).contains(m) && !expr_names(exprs@).contains(m)));
        }
        i = i + 1;
    }
    assert(acc.subrange(0, acc.len() as int) =~= acc);
    let ghost filtered = out@;
    collect_exprs_leaves(ea, kept, &mut out);
    let res = ProjectionContext::new(out);
    assert forall|m: Seq<char>|
        #[trigger] res.names().contains(m) <==> hstack_forwards(
            ctx.names(),
            expr_names(exprs@),
            names_of(input_schema@),
            exprs_leaves(ea@, kept@),
            m,
        ) by {
        assert(names_of(filtered).contains(m) <==> (names_of(acc).contains(m)
            && names_of(input_schema@).contains(m) && !expr_names(exprs@).contains(m)));
    }
    res
}

} // verus!
