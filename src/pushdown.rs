//! The projection-pushdown pass: one rule per operator, driven top-down from
//! the root with the columns that consumers above still need.
use vstd::prelude::*;
use crate::arena::{Arena, Node};
use crate::context::ProjectionContext;
use crate::expr::{
    clone_names, collect_exprs_leaves, contains_name, expr_names, exprs_leaves, gathered,
    lemma_exprs_leaves_within, lemma_gathered, lemma_names_push, names_of, push_unique, AExpr, ExprIR,
};
use crate::plan::{
    hstack_schema, input_of, lemma_hstack_schema_contains, lemma_schema_moved, lemma_refs_moved, lemma_refs_prefix, lemma_schema_prefix,
    node_wf, plan_wf, refs_ok, schema_at, schema_of, exprs_of, ProjectionOptions, IR,
};
use crate::prune::{
    hstack_forwards, hstack_input_context, lemma_prune_hstack, prune_exprs, prune_hstack,
};

verus! {

/// Why a plan was rejected.
#[derive(Debug, PartialEq, Eq)]
pub enum PlanError {
    /// An expression reads a column that its operator's input does not have.
    ColumnNotFound(String),
    /// A handle that the plan's structure forbids: an operator whose input
    /// does not precede it, or a slot whose node was moved out.
    InvalidNode,
}

/// Every column read by `exprs` is in `schema`.
pub open spec fn reads_within(ea: Seq<AExpr>, exprs: Seq<ExprIR>, schema: Seq<Seq<char>>) -> bool {
    forall|n: Seq<char>| #[trigger] exprs_leaves(ea, exprs).contains(n) ==> schema.contains(n)
}

/// The rewritten node keeps no column that nothing above needs: a scan reads
/// only required columns, an add-columns node computes only required ones.
pub open spec fn node_minimal(node: IR, acc: Seq<Seq<char>>) -> bool {
    match node {
        IR::Scan { projection, .. } => match projection {
            Some(p) => forall|j: int| 0 <= j < p@.len() ==> acc.contains(#[trigger] p@[j]@),
            None => false,
        },
        IR::HStack { exprs, .. } => forall|j: int|
            0 <= j < exprs@.len() ==> acc.contains(#[trigger] exprs@[j].output_name@),
        _ => true,
    }
}

/// What a rewrite owes: with nothing required above the schema is unchanged;
/// otherwise every required column the node had is still there, and the
/// node itself is minimal.
pub open spec fn pushdown_effect(
    before: Seq<Seq<char>>,
    after: Seq<Seq<char>>,
    node: IR,
    acc: Seq<Seq<char>>,
) -> bool {
    &&& acc.len() == 0 ==> after == before
    &&& acc.len() > 0 ==> (forall|n: Seq<char>|
        acc.contains(n) && before.contains(n) ==> #[trigger] after.contains(n))
    &&& acc.len() > 0 ==> node_minimal(node, acc)
}

/// The schema that `node` would have in a fresh slot after `lp`.
pub open spec fn placed_schema(lp: Seq<IR>, node: IR) -> Seq<Seq<char>> {
    schema_at(lp.push(node), lp.len())
}

/// The error that pushing down from slot `h` reports: an emptied slot is an
/// internal error; otherwise, when the node reads a column its input lacks,
/// the error names such a column; otherwise it is the error reported for the
/// input. A scan reports none.
pub open spec fn reported_error(lp: Seq<IR>, ea: Seq<AExpr>, h: nat, e: PlanError) -> bool
    decreases h,
{
    if h >= lp.len() {
        false
    } else {
        match lp[h as int] {
            IR::Scan { .. } => false,
            IR::Invalid => e == PlanError::InvalidNode,
            _ => {
                let input = input_of(lp[h as int]).unwrap();
                let schema = if (input.0 as nat) < h {
                    schema_at(lp, input.0 as nat)
                } else {
                    Seq::empty()
                };
                if !reads_within(ea, exprs_of(lp[h as int]), schema) {
                    e matches PlanError::ColumnNotFound(n) && exprs_leaves(ea, exprs_of(lp[h as int])).contains(n@)
                        && !schema.contains(n@)
                } else {
                    (input.0 as nat) < h && reported_error(lp, ea, input.0 as nat, e)
                }
            },
        }
    }
}

/// The error reported at `k` depends on the slots up to `k` alone.
pub proof fn lemma_reported_error_prefix(a: Seq<IR>, b: Seq<IR>, ea: Seq<AExpr>, k: nat, e: PlanError)
    requires
        k < a.len(),
        k < b.len(),
        forall|j: int| 0 <= j <= k ==> a[j] == b[j],
    ensures
        reported_error(a, ea, k, e) == reported_error(b, ea, k, e),
    decreases k,
{
    if let Some(i) = input_of(a[k as int]) {
        if (i.0 as nat) < k {
            lemma_schema_prefix(a, b, i.0 as nat);
            lemma_reported_error_prefix(a, b, ea, i.0 as nat, e);
        }
    }
}

/// Checks that every column read by `exprs` is in `schema`.
pub fn check_exprs_in_schema(ea: &Arena<AExpr>, exprs: &Vec<ExprIR>, schema: &Vec<String>) -> (res:
    Result<(), PlanError>)
    requires
        forall|i: int| 0 <= i < exprs@.len() ==> exprs@[i].node.0 < ea@.len(),
    ensures
        res.is_ok() <==> reads_within(ea@, exprs@, names_of(schema@)),
        res matches Err(e) ==> (e matches PlanError::ColumnNotFound(n) && exprs_leaves(ea@, exprs@).contains(n@)
            && !names_of(schema@).contains(n@)),
{
    let mut leaves: Vec<String> = Vec::new();
    collect_exprs_leaves(ea, exprs, &mut leaves);
    assert(names_of(Seq::<String>::empty()) =~= Seq::<Seq<char>>::empty());
    assert(gathered(leaves@, Seq::<String>::empty(), exprs_leaves(ea@, exprs@)));
    let mut i: usize = 0;
    while i < leaves.len()
        invariant
            i <= leaves@.len(),
            gathered(leaves@, Seq::<String>::empty(), exprs_leaves(ea@, exprs@)),
            forall|j: int| 0 <= j < i ==> names_of(schema@).contains(#[trigger] leaves@[j]@),
        decreases leaves@.len() - i,
    {
        if !contains_name(schema, &leaves[i]) {
            assert(names_of(leaves@)[i as int] == leaves@[i as int]@);
            proof {
                lemma_gathered(leaves@, Seq::<String>::empty(), exprs_leaves(ea@, exprs@), leaves@[i as int]@);
            }
            return Err(PlanError::ColumnNotFound(leaves[i].clone()));
        }
        i = i + 1;
    }
    assert forall|n: Seq<char>| #[trigger] exprs_leaves(ea@, exprs@).contains(n) implies names_of(
        schema@,
    ).contains(n) by {
        lemma_gathered(leaves@, Seq::<String>::empty(), exprs_leaves(ea@, exprs@), n);
        assert(names_of(leaves@).contains(n));
        let j = choose|j: int| 0 <= j < names_of(leaves@).len() && names_of(leaves@)[j] == n;
        assert(leaves@[j]@ == n);
    }
    Ok(())
}

/// The names of `cols` that `req` holds, in their order.
pub open spec fn keep_seq(cols: Seq<Seq<char>>, req: Seq<Seq<char>>) -> Seq<Seq<char>>
    decreases cols.len(),
{
    if cols.len() == 0 {
        Seq::empty()
    } else {
        let prev = keep_seq(cols.drop_last(), req);
        if req.contains(cols.last()) {
            prev.push(cols.last())
        } else {
            prev
        }
    }
}

/// The names of `columns` that `ctx` requires, in their order.
pub fn keep_required(columns: &Vec<String>, ctx: &ProjectionContext) -> (res: Vec<String>)
    ensures
        names_of(res@) == keep_seq(names_of(columns@), ctx.names()),
        forall|m: Seq<char>|
            #[trigger] names_of(res@).contains(m) <==> (names_of(columns@).contains(m)
                && ctx.names().contains(m)),
        forall|j: int| 0 <= j < res@.len() ==> ctx.names().contains(#[trigger] res@[j]@),
{
    let mut out: Vec<String> = Vec::new();
    let mut i: usize = 0;
    assert(names_of(columns@.subrange(0, 0)) =~= Seq::<Seq<char>>::empty());
    while i < columns.len()
        invariant
            i <= columns@.len(),
            forall|m: Seq<char>|
                #[trigger] names_of(out@).contains(m) <==> (names_of(columns@.subrange(0, i as int)).contains(m)
                    && ctx.names().contains(m)),
            forall|j: int| 0 <= j < out@.len() ==> ctx.names().contains(#[trigger] out@[j]@),
            names_of(out@) == keep_seq(names_of(columns@.subrange(0, i as int)), ctx.names()),
        decreases columns@.len() - i,
    {
        proof {
            assert(names_of(columns@.subrange(0, i + 1)).drop_last() =~= names_of(columns@.subrange(0, i as int)));
            assert(names_of(columns@.subrange(0, i + 1)).last() == columns@[i as int]@);
            assert(columns@.subrange(0, i + 1) =~= columns@.subrange(0, i as int).push(columns@[i as int]));
            lemma_names_push(columns@.subrange(0, i as int), columns@[i as int]);
        }
        let ghost before = out@;
        if ctx.is_projected(&columns[i]) {
            out.push(columns[i].clone());
            proof {
                lemma_names_push(before, columns@[i as int]);
            }
        }
        assert forall|m: Seq<char>|
            #[trigger] names_of(out@).contains(m) <==> (names_of(columns@.subrange(0, i + 1)).contains(m)
                && ctx.names().contains(m)) by {
            assert(names_of(before).contains(m) <==> (names_of(columns@.subrange(0, i as int)).contains(m)
                && ctx.names().contains(m)));
        }
        i = i + 1;
    }
    assert(columns@.subrange(0, columns@.len() as int) =~= columns@);
    out
}

/// The columns a scan offers: its projection if it has one, else all.
pub open spec fn scan_columns(file_schema: Vec<String>, projection: Option<Vec<String>>) -> Seq<Seq<char>> {
    match projection {
        Some(p) => names_of(p@),
        None => names_of(file_schema@),
    }
}

/// The context a filter hands its input: what is required above and the
/// columns its predicate reads, or nothing when nothing is required above.
pub open spec fn filter_requires(req: Seq<Seq<char>>, ea: Seq<AExpr>, predicate: ExprIR, m: Seq<char>) -> bool {
    req.len() > 0 && (req.contains(m) || exprs_leaves(ea, seq![predicate]).contains(m))
}

/// `new` is what pushing the required names `req` down from slot `h` makes
/// of the arena `old`. The node at `h` is moved out while its input is
/// rewritten, then:
/// - a scan reads only the required columns it offers (in its order);
/// - a filter or a select is put back as it was, over its rewritten input;
/// - an add-columns node keeps the expressions that survive
///   [`prune_hstack`], over an input asked for [`hstack_forwards`]; if none
///   survives, the rewritten input takes its slot and the input's own slot is
///   left empty.
/// With nothing required, nothing is pruned and inputs get nothing required
/// either, except below a select, which requires what it reads.
pub open spec fn rewrites(old: Seq<IR>, new: Seq<IR>, ea: Seq<AExpr>, h: nat, req: Seq<Seq<char>>) -> bool
    decreases h,
{
    if h >= old.len() {
        false
    } else {
        let below = old.update(h as int, IR::Invalid);
        new.len() == old.len() && match old[h as int] {
            IR::Scan { file_schema, projection } => {
                if req.len() == 0 {
                    new == old
                } else {
                    &&& new == old.update(h as int, new[h as int])
                    &&& new[h as int] matches IR::Scan { file_schema: f, projection: Some(p) }
                    &&& f == file_schema
                    &&& names_of(p@) == keep_seq(scan_columns(file_schema, projection), req)
                }
            },
            IR::Filter { input, predicate } => {
                &&& (input.0 as nat) < h
                &&& new[h as int] == old[h as int]
                &&& exists|fwd: Seq<Seq<char>>|
                    #![trigger fwd.len()]
                {
                    &&& forall|m: Seq<char>| #[trigger] fwd.contains(m) <==> filter_requires(req, ea, predicate, m)
                    &&& rewrites(below, new.update(h as int, IR::Invalid), ea, input.0 as nat, fwd)
                }
            },
            IR::Select { input, exprs } => {
                &&& (input.0 as nat) < h
                &&& new[h as int] == old[h as int]
                &&& exists|fwd: Seq<Seq<char>>|
                    #![trigger fwd.len()]
                {
                    &&& forall|m: Seq<char>| #[trigger] fwd.contains(m) <==> exprs_leaves(ea, exprs@).contains(m)
                    &&& rewrites(below, new.update(h as int, IR::Invalid), ea, input.0 as nat, fwd)
                }
            },
            IR::HStack { input, exprs, options } => {
                let kept = prune_hstack(exprs@, req);
                &&& (input.0 as nat) < h
                &&& if req.len() == 0 {
                    &&& new[h as int] matches IR::HStack { input: i, exprs: e, options: o }
                    &&& i == input && e@ == exprs@ && o == options
                    &&& rewrites(below, new.update(h as int, IR::Invalid), ea, input.0 as nat, Seq::empty())
                } else if kept.len() == 0 {
                    &&& new[input.0 as int] == IR::Invalid
                    &&& rewrites(
                        below,
                        new.update(input.0 as int, new[h as int]).update(h as int, IR::Invalid),
                        ea,
                        input.0 as nat,
                        req,
                    )
                } else {
                    &&& new[h as int] matches IR::HStack { input: i, exprs: e, options: o }
                    &&& i == input && e@ == kept && o == options
                    &&& exists|fwd: Seq<Seq<char>>|
                        #![trigger fwd.len()]
                    {
                        &&& forall|m: Seq<char>| #[trigger] fwd.contains(m) <==> hstack_forwards(
                            req,
                            expr_names(exprs@),
                            schema_at(below, input.0 as nat),
                            exprs_leaves(ea, kept),
                            m,
                        )
                        &&& rewrites(below, new.update(h as int, IR::Invalid), ea, input.0 as nat, fwd)
                    }
                }
            },
            IR::Invalid => false,
        }
    }
}


} // verus!

verus! {

/// The rewrite of the add-columns node whose input is `input`.
///
/// When some consumer above constrains the projection, expressions whose
/// output is not required (or is overwritten by a later expression of the
/// node) are pruned. If none survives, the node disappears: its input is
/// rewritten under the unchanged context and returned in its stead, and the
/// input's slot is left empty. Otherwise the input is asked for the required
/// names it has that the node does not overwrite, plus whatever the surviving
/// expressions read, and the node is rebuilt over it with the survivors.
pub fn process_hstack(
    input: Node,
    exprs: Vec<ExprIR>,
    options: ProjectionOptions,
    ctx: ProjectionContext,
    lp: &mut Arena<IR>,
    ea: &Arena<AExpr>,
) -> (res: Result<IR, PlanError>)
    requires
        input.0 < old(lp)@.len(),
        plan_wf(old(lp)@, ea@.len()),
        forall|j: int| 0 <= j < exprs@.len() ==> exprs@[j].node.0 < ea@.len(),
    ensures
        final(lp)@.len() == old(lp)@.len(),
        forall|k: int| input.0 < k < old(lp)@.len() ==> final(lp)@[k] == old(lp)@[k],
        res.is_ok() <==> (reads_within(ea@, exprs@, schema_at(old(lp)@, input.0 as nat))
            && refs_ok(old(lp)@, ea@, input.0 as nat)),
        res matches Err(e) ==> if !reads_within(ea@, exprs@, schema_at(old(lp)@, input.0 as nat)) {
            e matches PlanError::ColumnNotFound(n) && exprs_leaves(ea@, exprs@).contains(n@) && !schema_at(
                old(lp)@,
                input.0 as nat,
            ).contains(n@)
        } else {
            reported_error(old(lp)@, ea@, input.0 as nat, e)
        },
        res matches Ok(node) ==> refs_ok(final(lp)@.push(node), ea@, final(lp)@.len()),
        res matches Ok(node) ==> {
            &&& plan_wf(final(lp)@, ea@.len())
            &&& node_wf(node, input.0 as nat + 1, ea@.len())
            &&& pushdown_effect(
                hstack_schema(schema_at(old(lp)@, input.0 as nat), expr_names(exprs@)),
                placed_schema(final(lp)@, node),
                node,
                ctx.names(),
            )
        },
        res matches Ok(node) ==> {
            let kept = prune_hstack(exprs@, ctx.names());
            if ctx.pushed() && kept.len() == 0 {
                &&& final(lp)@[input.0 as int] == IR::Invalid
                &&& input_of(node) != Some(input)
            } else if ctx.pushed() {
                node == (IR::HStack { input, exprs: node->HStack_exprs, options })
                    && node->HStack_exprs@ == kept
            } else {
                node == (IR::HStack { input, exprs: node->HStack_exprs, options })
                    && node->HStack_exprs@ == exprs@
            }
        },
        res matches Ok(node) ==> {
            let kept = prune_hstack(exprs@, ctx.names());
            if !ctx.pushed() {
                rewrites(old(lp)@, final(lp)@, ea@, input.0 as nat, Seq::empty())
            } else if kept.len() == 0 {
                exists|mid: Seq<IR>| {
                    &&& rewrites(old(lp)@, mid, ea@, input.0 as nat, ctx.names())
                    &&& final(lp)@ == mid.update(input.0 as int, IR::Invalid)
                    &&& node == mid[input.0 as int]
                }
            } else {
                exists|fwd: Seq<Seq<char>>| {
                    &&& forall|m: Seq<char>| #[trigger] fwd.contains(m) <==> hstack_forwards(
                        ctx.names(),
                        expr_names(exprs@),
                        schema_at(old(lp)@, input.0 as nat),
                        exprs_leaves(ea@, kept),
                        m,
                    )
                    &&& rewrites(old(lp)@, final(lp)@, ea@, input.0 as nat, fwd)
                }
            }
        },
    decreases input.0, 2nat,
{
    let ghost lp0 = lp@;
    let input_schema = schema_of(lp, input);
    match check_exprs_in_schema(ea, &exprs, &input_schema) {
        Ok(()) => {},
        Err(e) => {
            return Err(e);
        },
    }
    proof {
        lemma_prune_hstack(exprs@, ctx.names());
    }
    if ctx.has_pushed_down() {
        let kept = prune_exprs(&exprs, &ctx);
        if kept.len() == 0 {
            let ghost acc = ctx.names();
            match pushdown_and_assign(input, ctx, lp, ea) {
                Ok(()) => {},
                Err(e) => {
                    return Err(e);
                },
            }
            let ghost lp1 = lp@;
            let node = lp.replace(input, IR::Invalid);
            proof {
                let fin = lp@;
                assert(node_wf(lp1[input.0 as int], input.0 as nat, ea@.len()));
                assert forall|k: int| 0 <= k < fin.len() implies node_wf(#[trigger] fin[k], k as nat, ea@.len()) by {
                    if k != input.0 {
                        assert(node_wf(lp1[k], k as nat, ea@.len()));
                    }
                }
                lemma_schema_moved(fin.push(node), lp1, fin.len(), input.0 as nat, input.0 as nat, ea@.len());
                lemma_refs_moved(fin.push(node), lp1, ea@, fin.len(), input.0 as nat, input.0 as nat, ea@.len());
                assert forall|n: Seq<char>|
                    acc.contains(n) && hstack_schema(schema_at(lp0, input.0 as nat), expr_names(exprs@)).contains(n)
                    implies #[trigger] placed_schema(fin, node).contains(n) by {
                    lemma_hstack_schema_contains(schema_at(lp0, input.0 as nat), expr_names(exprs@), n);
                    if expr_names(exprs@).contains(n) {
                        assert(expr_names(prune_hstack(exprs@, acc)).contains(n));
                    }
                }
                if let Some(c) = input_of(node) {
                    assert(c.0 < input.0);
                }
                assert(rewrites(lp0, lp1, ea@, input.0 as nat, acc) && fin == lp1.update(input.0 as int, IR::Invalid)
                    && node == lp1[input.0 as int]);
            }
            return Ok(node);
        }
        let new_ctx = hstack_input_context(&ctx, &exprs, &kept, &input_schema, ea);
        proof {
            assert forall|j: int| 0 <= j < kept@.len() implies kept@[j].node.0 < ea@.len() by {
                let k = choose|k: int| 0 <= k < exprs@.len() && exprs@[k] == kept@[j];
            }
        }
        let ghost acc = ctx.names();
        let ghost fwd = new_ctx.names();
        match pushdown_and_assign(input, new_ctx, lp, ea) {
            Ok(()) => {},
            Err(e) => {
                return Err(e);
            },
        }
        let ghost lp1 = lp@;
        let node = IR::HStack { input, exprs: kept, options };
        proof {
            assert forall|m: Seq<char>| #[trigger] fwd.contains(m) <==> hstack_forwards(
                acc,
                expr_names(exprs@),
                schema_at(lp0, input.0 as nat),
                exprs_leaves(ea@, prune_hstack(exprs@, acc)),
                m,
            ) by {}
            assert(rewrites(lp0, lp1, ea@, input.0 as nat, fwd));
            assert(kept@ == prune_hstack(exprs@, acc));
            let placed = lp1.push(node);
            lemma_schema_prefix(placed, lp1, input.0 as nat);
            lemma_refs_prefix(placed, lp1, ea@, input.0 as nat);
            assert(placed_schema(lp1, node) == hstack_schema(schema_at(lp1, input.0 as nat), expr_names(kept@)));
            lemma_exprs_leaves_within(ea@, kept@, exprs@);
            assert forall|n: Seq<char>| #[trigger] exprs_leaves(ea@, exprs_of(node)).contains(n) implies schema_at(
                placed,
                input.0 as nat,
            ).contains(n) by {
                assert(exprs_of(node) == kept@);
                assert(exprs_leaves(ea@, exprs@).contains(n));
                assert(schema_at(lp0, input.0 as nat).contains(n));
                assert(fwd.contains(n));
                assert(fwd.len() > 0);
            }
            assert(refs_ok(placed, ea@, lp1.len()));
            assert forall|n: Seq<char>|
                acc.contains(n) && hstack_schema(schema_at(lp0, input.0 as nat), expr_names(exprs@)).contains(n)
                implies #[trigger] placed_schema(lp1, node).contains(n) by {
                lemma_hstack_schema_contains(schema_at(lp0, input.0 as nat), expr_names(exprs@), n);
                lemma_hstack_schema_contains(schema_at(lp1, input.0 as nat), expr_names(kept@), n);
                if expr_names(exprs@).contains(n) {
                    assert(expr_names(prune_hstack(exprs@, acc)).contains(n));
                } else {
                    assert(hstack_forwards(acc, expr_names(exprs@), names_of(input_schema@), exprs_leaves(ea@, kept@), n));
                    assert(fwd.contains(n));
                    assert(schema_at(lp1, input.0 as nat).contains(n));
                }
            }
            assert forall|j: int| 0 <= j < exprs_of(node).len() implies (exprs_of(node)[j].node.0 as nat) < ea@.len() by {
                assert(kept@.contains(exprs_of(node)[j]));
                let k = choose|k: int| 0 <= k < exprs@.len() && exprs@[k] == kept@[j];
            }
        }
        Ok(node)
    } else {
        let ghost acc = ctx.names();
        let root = ProjectionContext::root();
        let ghost root_names = root.names();
        match pushdown_and_assign(input, root, lp, ea) {
            Ok(()) => {},
            Err(e) => {
                return Err(e);
            },
        }
        let ghost lp1 = lp@;
        let node = IR::HStack { input, exprs, options };
        proof {
            assert(root_names == Seq::<Seq<char>>::empty());
            assert(rewrites(lp0, lp1, ea@, input.0 as nat, Seq::empty()));

            let placed = lp1.push(node);
            lemma_schema_prefix(placed, lp1, input.0 as nat);
            lemma_refs_prefix(placed, lp1, ea@, input.0 as nat);
            assert(acc.len() == 0);
            assert(exprs_of(node) == exprs_of(IR::HStack { input, exprs: node->HStack_exprs, options }));
            assert(refs_ok(placed, ea@, lp1.len()));
        }
        Ok(node)
    }
}

/// Rewrites the node at `h` so that it supplies what `ctx` requires and, when
/// something is required, nothing more that it can drop; its input is
/// rewritten first. Fails when an expression reads a column that its input
/// does not have, anywhere below `h`.
pub fn pushdown_and_assign(h: Node, ctx: ProjectionContext, lp: &mut Arena<IR>, ea: &Arena<AExpr>) -> (res:
    Result<(), PlanError>)
    requires
        h.0 < old(lp)@.len(),
        plan_wf(old(lp)@, ea@.len()),
    ensures
        final(lp)@.len() == old(lp)@.len(),
        forall|k: int| h.0 < k < old(lp)@.len() ==> final(lp)@[k] == old(lp)@[k],
        res.is_ok() <==> refs_ok(old(lp)@, ea@, h.0 as nat),
        res matches Err(e) ==> reported_error(old(lp)@, ea@, h.0 as nat, e),
        res.is_ok() ==> plan_wf(final(lp)@, ea@.len()),
        res.is_ok() ==> refs_ok(final(lp)@, ea@, h.0 as nat),
        res.is_ok() ==> pushdown_effect(
            schema_at(old(lp)@, h.0 as nat),
            schema_at(final(lp)@, h.0 as nat),
            final(lp)@[h.0 as int],
            ctx.names(),
        ),
        res.is_ok() ==> rewrites(old(lp)@, final(lp)@, ea@, h.0 as nat, ctx.names()),
    decreases h.0, 1nat,
{
    let ghost lp0 = lp@;
    let node = lp.replace(h, IR::Invalid);
    let ghost lp1 = lp@;
    proof {
        assert forall|k: int| 0 <= k < lp1.len() implies node_wf(#[trigger] lp1[k], k as nat, ea@.len()) by {
            if k != h.0 {
                assert(node_wf(lp0[k], k as nat, ea@.len()));
            }
        }
        assert(node_wf(lp0[h.0 as int], h.0 as nat, ea@.len()));
        if let Some(c) = input_of(node) {
            lemma_schema_prefix(lp0, lp1, c.0 as nat);
            lemma_refs_prefix(lp0, lp1, ea@, c.0 as nat);
            assert forall|e: PlanError| #[trigger] reported_error(lp1, ea@, c.0 as nat, e) == reported_error(
                lp0,
                ea@,
                c.0 as nat,
                e,
            ) by {
                lemma_reported_error_prefix(lp0, lp1, ea@, c.0 as nat, e);
            }
        }
    }
    let ghost acc = ctx.names();
    let ghost mut mid: Seq<IR> = Seq::empty();
    let ghost mut fwd: Seq<Seq<char>> = Seq::empty();
    let new_node = match node {
        IR::Scan { file_schema, projection } => {
            if ctx.has_pushed_down() {
                let available = match &projection {
                    Some(p) => clone_names(p),
                    None => clone_names(&file_schema),
                };
                let kept = keep_required(&available, &ctx);
                assert(schema_at(lp0, h.0 as nat) == names_of(available@));
                assert(names_of(available@) == scan_columns(file_schema, projection));
                let n = IR::Scan { file_schema, projection: Some(kept) };
                assert(placed_schema(lp@, n) == names_of(kept@));
                n
            } else {
                let n = IR::Scan { file_schema, projection };
                assert(placed_schema(lp@, n) == schema_at(lp0, h.0 as nat));
                n
            }
        },
        IR::Filter { input, predicate } => {
            let preds = vec![predicate.duplicate()];
            assert(preds@ =~= exprs_of(lp0[h.0 as int]));
            let input_schema = schema_of(lp, input);
            match check_exprs_in_schema(ea, &preds, &input_schema) {
                Ok(()) => {},
                Err(e) => {
                    return Err(e);
                },
            }
            let new_ctx = if ctx.has_pushed_down() {
                let mut acc_projections = clone_names(&ctx.acc_projections);
                collect_exprs_leaves(ea, &preds, &mut acc_projections);
                ProjectionContext::new(acc_projections)
            } else {
                ProjectionContext::root()
            };
            proof {
                fwd = new_ctx.names();
                if acc.len() > 0 {
                    assert forall|m: Seq<char>| acc.contains(m) implies fwd.contains(m) by {
                        lemma_gathered(new_ctx.acc_projections@, ctx.acc_projections@, exprs_leaves(ea@, preds@), m);
                    }
                    let m0 = acc[0];
                    assert(acc.contains(m0));
                    assert(fwd.contains(m0));
                }
                assert forall|m: Seq<char>| #[trigger] fwd.contains(m) <==> filter_requires(acc, ea@, predicate, m) by {
                    if acc.len() > 0 {
                        lemma_gathered(new_ctx.acc_projections@, ctx.acc_projections@, exprs_leaves(ea@, preds@), m);
                    }
                }
            }
            match pushdown_and_assign(input, new_ctx, lp, ea) {
                Ok(()) => {},
                Err(e) => {
                    return Err(e);
                },
            }
            proof {
                mid = lp@;
            }
            let n = IR::Filter { input, predicate };
            proof {
                lemma_schema_prefix(lp@.push(n), lp@, input.0 as nat);
                lemma_refs_prefix(lp@.push(n), lp@, ea@, input.0 as nat);
                assert forall|m: Seq<char>| #[trigger] exprs_leaves(ea@, exprs_of(n)).contains(m) implies schema_at(
                    lp@.push(n),
                    input.0 as nat,
                ).contains(m) by {
                    assert(exprs_of(n) == preds@);
                    assert(schema_at(lp1, input.0 as nat).contains(m));
                    if acc.len() > 0 {
                        assert(fwd.contains(m));
                        assert(fwd.len() > 0);
                    }
                }
                assert(refs_ok(lp@.push(n), ea@, lp@.len()));
            }
            n
        },
        IR::Select { input, exprs } => {
            assert(exprs@ =~= exprs_of(lp0[h.0 as int]));
            let input_schema = schema_of(lp, input);
            match check_exprs_in_schema(ea, &exprs, &input_schema) {
                Ok(()) => {},
                Err(e) => {
                    return Err(e);
                },
            }
            let mut acc_projections: Vec<String> = Vec::new();
            collect_exprs_leaves(ea, &exprs, &mut acc_projections);
            let sel_ctx = ProjectionContext::new(acc_projections);
            proof {
                fwd = sel_ctx.names();
                assert forall|m: Seq<char>| #[trigger] fwd.contains(m) <==> exprs_leaves(ea@, exprs@).contains(m) by {
                    lemma_gathered(sel_ctx.acc_projections@, Seq::<String>::empty(), exprs_leaves(ea@, exprs@), m);
                    assert(names_of(Seq::<String>::empty()) =~= Seq::<Seq<char>>::empty());
                }
            }
            match pushdown_and_assign(input, sel_ctx, lp, ea) {
                Ok(()) => {},
                Err(e) => {
                    return Err(e);
                },
            }
            proof {
                mid = lp@;
            }
            let n = IR::Select { input, exprs };
            assert(placed_schema(lp@, n) == schema_at(lp0, h.0 as nat));
            proof {
                lemma_schema_prefix(lp@.push(n), lp@, input.0 as nat);
                lemma_refs_prefix(lp@.push(n), lp@, ea@, input.0 as nat);
                assert forall|m: Seq<char>| #[trigger] exprs_leaves(ea@, exprs_of(n)).contains(m) implies schema_at(
                    lp@.push(n),
                    input.0 as nat,
                ).contains(m) by {
                    assert(exprs_of(n) == exprs@);
                    assert(schema_at(lp1, input.0 as nat).contains(m));
                    assert(fwd.contains(m));
                    assert(fwd.len() > 0);
                }
                assert(refs_ok(lp@.push(n), ea@, lp@.len()));
            }
            n
        },
        IR::HStack { input, exprs, options } => {
            assert(exprs@ =~= exprs_of(lp0[h.0 as int]));
            match process_hstack(input, exprs, options, ctx, lp, ea) {
                Ok(n) => {
                    proof {
                        mid = lp@;
                    }
                    n
                },
                Err(e) => {
                    return Err(e);
                },
            }
        },
        IR::Invalid => {
            return Err(PlanError::InvalidNode);
        },
    };
    let ghost lp2 = lp@;
    assert(pushdown_effect(schema_at(lp0, h.0 as nat), placed_schema(lp2, new_node), new_node, acc));
    lp.replace(h, new_node);
    proof {
        let fin = lp@;
        match lp0[h.0 as int] {
            IR::Scan { .. } => {
                if acc.len() == 0 {
                    assert(fin =~= lp0);
                } else {
                    assert(fin =~= lp0.update(h.0 as int, fin[h.0 as int]));
                }
            },
            IR::Filter { input, predicate } => {
                assert(fin == mid.update(h.0 as int, lp0[h.0 as int]));
                assert(rewrites(lp1, mid, ea@, input.0 as nat, fwd));
                assert(fin.update(h.0 as int, IR::Invalid) =~= mid);
                assert(fwd.len() >= 0);
            },
            IR::Select { input, exprs } => {
                assert(fin == mid.update(h.0 as int, lp0[h.0 as int]));
                assert(rewrites(lp1, mid, ea@, input.0 as nat, fwd));
                assert(fin.update(h.0 as int, IR::Invalid) =~= mid);
                assert(fwd.len() >= 0);
            },
            IR::HStack { input, exprs, options } => {
                assert(fin == mid.update(h.0 as int, new_node));
                let kept = prune_hstack(exprs@, acc);
                if acc.len() > 0 && kept.len() == 0 {
                    let m2 = choose|m2: Seq<IR>| {
                        &&& rewrites(lp1, m2, ea@, input.0 as nat, acc)
                        &&& mid == m2.update(input.0 as int, IR::Invalid)
                        &&& new_node == m2[input.0 as int]
                    };
                    assert(fin =~= m2.update(input.0 as int, IR::Invalid).update(h.0 as int, m2[input.0 as int]));
                    assert(mid[h.0 as int] == lp1[h.0 as int]);
                    assert(m2[h.0 as int] == IR::Invalid);
                    assert(fin.update(input.0 as int, fin[h.0 as int]).update(h.0 as int, IR::Invalid) =~= m2);
                } else {
                    assert(fin.update(h.0 as int, IR::Invalid) =~= mid);
                    if acc.len() > 0 {
                        let f = choose|f: Seq<Seq<char>>| {
                            &&& forall|m: Seq<char>| #[trigger] f.contains(m) <==> hstack_forwards(
                                acc,
                                expr_names(exprs@),
                                schema_at(lp1, input.0 as nat),
                                exprs_leaves(ea@, kept),
                                m,
                            )
                            &&& rewrites(lp1, mid, ea@, input.0 as nat, f)
                        };
                        assert(f.len() >= 0);
                    }
                }
            },
            IR::Invalid => {},
        }
        assert(node_wf(new_node, h.0 as nat, ea@.len()));
        lemma_schema_moved(fin, lp2.push(new_node), h.0 as nat, lp2.len(), h.0 as nat, ea@.len());
        lemma_refs_moved(fin, lp2.push(new_node), ea@, h.0 as nat, lp2.len(), h.0 as nat, ea@.len());
        assert forall|k: int| 0 <= k < fin.len() implies node_wf(#[trigger] fin[k], k as nat, ea@.len()) by {
            if k != h.0 {
                assert(node_wf(lp2[k], k as nat, ea@.len()));
            }
        }
    }
    Ok(())
}

} // verus!

verus! {

/// Runs projection pushdown over the plan rooted at `root`, with nothing
/// required above the root. The root keeps its schema; the handle of the
/// rewritten root is returned.
pub fn optimize(root: Node, lp: &mut Arena<IR>, ea: &Arena<AExpr>) -> (res: Result<Node, PlanError>)
    requires
        root.0 < old(lp)@.len(),
        plan_wf(old(lp)@, ea@.len()),
    ensures
        res.is_ok() <==> refs_ok(old(lp)@, ea@, root.0 as nat),
        res matches Err(e) ==> reported_error(old(lp)@, ea@, root.0 as nat, e),
        res matches Ok(r) ==> r == root && plan_wf(final(lp)@, ea@.len()) && schema_at(
            final(lp)@,
            root.0 as nat,
        ) == schema_at(old(lp)@, root.0 as nat),
        res.is_ok() ==> rewrites(old(lp)@, final(lp)@, ea@, root.0 as nat, Seq::empty()),
        res.is_ok() ==> refs_ok(final(lp)@, ea@, root.0 as nat),
{
    let ctx = ProjectionContext::root();
    assert(ctx.names() == Seq::<Seq<char>>::empty());
    match pushdown_and_assign(root, ctx, lp, ea) {
        Ok(()) => Ok(root),
        Err(e) => Err(e),
    }
}

/// An add-columns node none of whose output names is required above keeps
/// no expression, so the rewrite removes it (see [`process_hstack`]).
pub proof fn law_unused_hstack_is_eliminated(exprs: Seq<ExprIR>, acc: Seq<Seq<char>>)
    requires
        forall|j: int| 0 <= j < exprs.len() ==> !acc.contains(#[trigger] exprs[j].output_name@),
    ensures
        prune_hstack(exprs, acc).len() == 0,
{
    lemma_prune_hstack(exprs, acc);
    if prune_hstack(exprs, acc).len() > 0 {
        let e = prune_hstack(exprs, acc)[0];
        assert(exprs.contains(e));
        assert(acc.contains(e.output_name@));
    }
}

/// A column that an add-columns node redefines is not requested from its
/// input unless a surviving expression itself reads it; every column a
/// surviving expression reads is requested.
pub proof fn law_shadowed_column_not_requested(
    acc: Seq<Seq<char>>,
    exprs: Seq<ExprIR>,
    input_schema: Seq<Seq<char>>,
    ea: Seq<AExpr>,
    x: Seq<char>,
)
    ensures
        expr_names(exprs).contains(x) && !exprs_leaves(ea, prune_hstack(exprs, acc)).contains(x)
            ==> !hstack_forwards(acc, expr_names(exprs), input_schema, exprs_leaves(ea, prune_hstack(exprs, acc)), x),
        exprs_leaves(ea, prune_hstack(exprs, acc)).contains(x) ==> hstack_forwards(
            acc,
            expr_names(exprs),
            input_schema,
            exprs_leaves(ea, prune_hstack(exprs, acc)),
            x,
        ),
{
}

/// No two expressions kept by pruning write the same name.
proof fn lemma_prune_distinct(exprs: Seq<ExprIR>, acc: Seq<Seq<char>>)
    ensures
        forall|i: int, j: int|
            0 <= i < j < prune_hstack(exprs, acc).len() ==> #[trigger] prune_hstack(exprs, acc)[i].output_name@
                != #[trigger] prune_hstack(exprs, acc)[j].output_name@,
    decreases exprs.len(),
{
    if exprs.len() > 0 {
        let tail = exprs.subrange(1, exprs.len() as int);
        let rest = prune_hstack(tail, acc);
        let out = prune_hstack(exprs, acc);
        lemma_prune_distinct(tail, acc);
        lemma_prune_hstack(tail, acc);
        if acc.contains(exprs[0].output_name@) && !expr_names(tail).contains(exprs[0].output_name@) {
            assert forall|i: int, j: int| 0 <= i < j < out.len() implies #[trigger] out[i].output_name@
                != #[trigger] out[j].output_name@ by {
                if i == 0 {
                    assert(out[j] == rest[j - 1]);
                    assert(expr_names(rest)[j - 1] == rest[j - 1].output_name@);
                    if out[i].output_name@ == out[j].output_name@ {
                        assert(expr_names(rest).contains(exprs[0].output_name@));
                    }
                } else {
                    assert(out[i] == rest[i - 1]);
                    assert(out[j] == rest[j - 1]);
                }
            }
        }
    }
}

/// Pruning leaves alone a list whose names are all required and distinct.
proof fn lemma_prune_keeps_minimal(exprs: Seq<ExprIR>, acc: Seq<Seq<char>>)
    requires
        forall|j: int| 0 <= j < exprs.len() ==> acc.contains(#[trigger] exprs[j].output_name@),
        forall|i: int, j: int|
            0 <= i < j < exprs.len() ==> #[trigger] exprs[i].output_name@ != #[trigger] exprs[j].output_name@,
    ensures
        prune_hstack(exprs, acc) == exprs,
    decreases exprs.len(),
{
    if exprs.len() > 0 {
        let tail = exprs.subrange(1, exprs.len() as int);
        assert forall|j: int| 0 <= j < tail.len() implies acc.contains(#[trigger] tail[j].output_name@) by {
            assert(tail[j] == exprs[j + 1]);
        }
        assert forall|i: int, j: int| 0 <= i < j < tail.len() implies #[trigger] tail[i].output_name@
            != #[trigger] tail[j].output_name@ by {
            assert(tail[i] == exprs[i + 1]);
            assert(tail[j] == exprs[j + 1]);
        }
        lemma_prune_keeps_minimal(tail, acc);
        if expr_names(tail).contains(exprs[0].output_name@) {
            let k = choose|k: int| 0 <= k < expr_names(tail).len() && expr_names(tail)[k] == exprs[0].output_name@;
            assert(exprs[k + 1].output_name@ == exprs[0].output_name@);
        }
        assert(acc.contains(exprs[0].output_name@));
        assert(seq![exprs[0]] + tail =~= exprs);
    }
}

/// Pruning an add-columns node a second time, against the same required
/// names, changes nothing.
pub proof fn law_prune_idempotent(exprs: Seq<ExprIR>, acc: Seq<Seq<char>>)
    ensures
        prune_hstack(prune_hstack(exprs, acc), acc) == prune_hstack(exprs, acc),
{
    lemma_prune_hstack(exprs, acc);
    lemma_prune_distinct(exprs, acc);
    lemma_prune_keeps_minimal(prune_hstack(exprs, acc), acc);
}

/// Pushdown removes an add-columns node none of whose outputs is required:
/// the node's slot then holds what its input was rewritten to, and the
/// input's slot is left empty.
pub proof fn law_unused_hstack_removed_by_pass(
    old: Seq<IR>,
    new: Seq<IR>,
    ea: Seq<AExpr>,
    h: nat,
    req: Seq<Seq<char>>,
)
    requires
        rewrites(old, new, ea, h, req),
        req.len() > 0,
        old[h as int] matches IR::HStack { exprs, .. } && forall|j: int|
            0 <= j < exprs@.len() ==> !req.contains(#[trigger] exprs@[j].output_name@),
    ensures
        old[h as int] matches IR::HStack { input, .. } && {
            &&& new[input.0 as int] == IR::Invalid
            &&& rewrites(
                old.update(h as int, IR::Invalid),
                new.update(input.0 as int, new[h as int]).update(h as int, IR::Invalid),
                ea,
                input.0 as nat,
                req,
            )
        },
{
    if let IR::HStack { exprs, .. } = old[h as int] {
        law_unused_hstack_is_eliminated(exprs@, req);
    }
}

} // verus!
