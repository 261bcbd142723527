//! Logical-plan operators and the schema each one produces.
use vstd::prelude::*;
use crate::arena::{Arena, Node};
use crate::expr::{clone_names, contains_name, expr_names, exprs_leaves, lemma_names_push, names_of, AExpr, ExprIR};

verus! {

/// How the expressions of an add-columns node are evaluated.
#[derive(Clone, Copy, PartialEq, Eq, Structural, Debug)]
pub struct ProjectionOptions {
    pub run_parallel: bool,
    pub duplicate_check: bool,
    pub should_broadcast: bool,
}

/// A logical-plan operator. Inputs are handles into the node arena.
pub enum IR {
    /// A data source with the given columns; `projection`, when set, is the
    /// subset of them that is read.
    Scan { file_schema: Vec<String>, projection: Option<Vec<String>> },
    /// Keeps the rows for which `predicate` holds.
    Filter { input: Node, predicate: ExprIR },
    /// Replaces the columns with exactly those computed by `exprs`.
    Select { input: Node, exprs: Vec<ExprIR> },
    /// Adds (or overwrites) the columns computed by `exprs`.
    HStack { input: Node, exprs: Vec<ExprIR>, options: ProjectionOptions },
    /// The state of a slot whose node has been moved out.
    Invalid,
}

/// The schema of an add-columns node: its input's columns, where a name that
/// is already there keeps its place and a new name is appended.
pub open spec fn hstack_schema(input: Seq<Seq<char>>, names: Seq<Seq<char>>) -> Seq<Seq<char>>
    decreases names.len(),
{
    if names.len() == 0 {
        input
    } else {
        let prev = hstack_schema(input, names.drop_last());
        if prev.contains(names.last()) {
            prev
        } else {
            prev.push(names.last())
        }
    }
}

pub proof fn lemma_hstack_schema_contains(input: Seq<Seq<char>>, names: Seq<Seq<char>>, n: Seq<char>)
    ensures
        hstack_schema(input, names).contains(n) <==> (input.contains(n) || names.contains(n)),
    decreases names.len(),
{
    if names.len() > 0 {
        let prev = hstack_schema(input, names.drop_last());
        lemma_hstack_schema_contains(input, names.drop_last(), n);
        if names.drop_last().contains(n) {
            let j = choose|j: int| 0 <= j < names.drop_last().len() && names.drop_last()[j] == n;
            assert(names[j] == n);
        }
        if names.contains(n) && n != names.last() {
            let j = choose|j: int| 0 <= j < names.len() && names[j] == n;
            assert(names.drop_last()[j] == n);
        }
        if prev.contains(n) || n == names.last() {
            if !prev.contains(names.last()) {
                assert(prev.push(names.last())[prev.len() as int] == names.last());
                if prev.contains(n) {
                    let j = choose|j: int| 0 <= j < prev.len() && prev[j] == n;
                    assert(prev.push(names.last())[j] == n);
                }
            }
        }
        if hstack_schema(input, names).contains(n) && !prev.contains(n) {
            let s = prev.push(names.last());
            let j = choose|j: int| 0 <= j < s.len() && s[j] == n;
            if j < prev.len() {
                assert(prev[j] == n);
            }
        }
        assert(names.last() == names[names.len() - 1]);
    }
}

/// The input of an operator, if it has one.
pub open spec fn input_of(lp: IR) -> Option<Node> {
    match lp {
        IR::Filter { input, .. } => Some(input),
        IR::Select { input, .. } => Some(input),
        IR::HStack { input, .. } => Some(input),
        _ => None,
    }
}

/// The expressions an operator owns.
pub open spec fn exprs_of(lp: IR) -> Seq<ExprIR> {
    match lp {
        IR::Filter { predicate, .. } => seq![predicate],
        IR::Select { exprs, .. } => exprs@,
        IR::HStack { exprs, .. } => exprs@,
        _ => Seq::empty(),
    }
}

/// The output columns of the node at `k`, in order.
pub open spec fn schema_at(lp: Seq<IR>, k: nat) -> Seq<Seq<char>>
    decreases k,
{
    if k < lp.len() {
        match lp[k as int] {
            IR::Scan { file_schema, projection } => match projection {
                Some(p) => names_of(p@),
                None => names_of(file_schema@),
            },
            IR::Filter { input, .. } => {
                if (input.0 as nat) < k {
                    schema_at(lp, input.0 as nat)
                } else {
                    Seq::empty()
                }
            },
            IR::Select { exprs, .. } => expr_names(exprs@),
            IR::HStack { input, exprs, .. } => {
                if (input.0 as nat) < k {
                    hstack_schema(schema_at(lp, input.0 as nat), expr_names(exprs@))
                } else {
                    Seq::empty()
                }
            },
            IR::Invalid => Seq::empty(),
        }
    } else {
        Seq::empty()
    }
}

/// Every column read by the expressions of the node at `k` exists in its
/// input's schema, all the way down to a scan.
pub open spec fn refs_ok(lp: Seq<IR>, ea: Seq<AExpr>, k: nat) -> bool
    decreases k,
{
    if k < lp.len() {
        match lp[k as int] {
            IR::Scan { .. } => true,
            IR::Invalid => false,
            _ => {
                let input = input_of(lp[k as int]).unwrap();
                &&& (input.0 as nat) < k
                &&& forall|n: Seq<char>|
                    #[trigger] exprs_leaves(ea, exprs_of(lp[k as int])).contains(n)
                        ==> schema_at(lp, input.0 as nat).contains(n)
                &&& refs_ok(lp, ea, input.0 as nat)
            },
        }
    } else {
        false
    }
}

/// A node refers only to earlier slots and to existing expressions.
pub open spec fn node_wf(node: IR, k: nat, ea_len: nat) -> bool {
    &&& (input_of(node) matches Some(i) ==> (i.0 as nat) < k)
    &&& forall|j: int| 0 <= j < exprs_of(node).len() ==> (exprs_of(node)[j].node.0 as nat) < ea_len
}

/// Every node of the arena is well formed.
pub open spec fn plan_wf(lp: Seq<IR>, ea_len: nat) -> bool {
    forall|k: int| 0 <= k < lp.len() ==> node_wf(#[trigger] lp[k], k as nat, ea_len)
}

/// The schema at `k` depends on the slots up to `k` alone.
pub proof fn lemma_schema_prefix(a: Seq<IR>, b: Seq<IR>, k: nat)
    requires
        k < a.len(),
        k < b.len(),
        forall|j: int| 0 <= j <= k ==> a[j] == b[j],
    ensures
        schema_at(a, k) == schema_at(b, k),
    decreases k,
{
    if let Some(i) = input_of(a[k as int]) {
        if (i.0 as nat) < k {
            lemma_schema_prefix(a, b, i.0 as nat);
        }
    }
}

/// Whether the columns read at `k` exist depends on the slots up to `k` alone.
pub proof fn lemma_refs_prefix(a: Seq<IR>, b: Seq<IR>, ea: Seq<AExpr>, k: nat)
    requires
        k < a.len(),
        k < b.len(),
        forall|j: int| 0 <= j <= k ==> a[j] == b[j],
    ensures
        refs_ok(a, ea, k) == refs_ok(b, ea, k),
    decreases k,
{
    if let Some(i) = input_of(a[k as int]) {
        if (i.0 as nat) < k {
            lemma_schema_prefix(a, b, i.0 as nat);
            lemma_refs_prefix(a, b, ea, i.0 as nat);
        }
    }
}

/// The same node, over the same slots below `m`, has the same schema
/// wherever it stands, as long as it refers only to slots below `m`.
pub proof fn lemma_schema_moved(a: Seq<IR>, b: Seq<IR>, h: nat, i: nat, m: nat, ea_len: nat)
    requires
        h < a.len(),
        i < b.len(),
        m <= h,
        m <= i,
        a[h as int] == b[i as int],
        node_wf(b[i as int], m, ea_len),
        forall|j: int| 0 <= j < m ==> a[j] == b[j],
    ensures
        schema_at(a, h) == schema_at(b, i),
{
    if let Some(c) = input_of(b[i as int]) {
        lemma_schema_prefix(a, b, c.0 as nat);
    }
}

/// The same node, over the same slots below `m`, passes [`refs_ok`]
/// wherever it stands, as long as it refers only to slots below `m`.
pub proof fn lemma_refs_moved(a: Seq<IR>, b: Seq<IR>, ea: Seq<AExpr>, h: nat, i: nat, m: nat, ea_len: nat)
    requires
        h < a.len(),
        i < b.len(),
        m <= h,
        m <= i,
        a[h as int] == b[i as int],
        node_wf(b[i as int], m, ea_len),
        forall|j: int| 0 <= j < m ==> a[j] == b[j],
    ensures
        refs_ok(a, ea, h) == refs_ok(b, ea, i),
{
    if let Some(c) = input_of(b[i as int]) {
        lemma_schema_prefix(a, b, c.0 as nat);
        lemma_refs_prefix(a, b, ea, c.0 as nat);
    }
}

/// The output names of `exprs`, in order.
pub fn output_names(exprs: &Vec<ExprIR>) -> (res: Vec<String>)
    ensures
        names_of(res@) == expr_names(exprs@),
{
    let mut out: Vec<String> = Vec::new();
    let mut i: usize = 0;
    while i < exprs.len()
        invariant
            i <= exprs@.len(),
            names_of(out@) == expr_names(exprs@).subrange(0, i as int),
        decreases exprs@.len() - i,
    {
        let ghost before = out@;
        out.push(exprs[i].output_name.clone());
        proof {
            lemma_names_push(before, exprs@[i as int].output_name);
        }
        assert(names_of(out@) =~= expr_names(exprs@).subrange(0, i + 1));
        i = i + 1;
    }
    assert(names_of(out@) =~= expr_names(exprs@));
    out
}

/// Appends to `schema` the columns `exprs` add, in the manner of
/// [`hstack_schema`].
pub fn extend_schema(schema: Vec<String>, exprs: &Vec<ExprIR>) -> (res: Vec<String>)
    ensures
        names_of(res@) == hstack_schema(names_of(schema@), expr_names(exprs@)),
{
    let mut out = schema;
    let ghost start = names_of(out@);
    let mut i: usize = 0;
    assert(expr_names(exprs@).subrange(0, 0) =~= Seq::<Seq<char>>::empty());
    while i < exprs.len()
        invariant
            i <= exprs@.len(),
            names_of(out@) == hstack_schema(start, expr_names(exprs@).subrange(0, i as int)),
        decreases exprs@.len() - i,
    {
        let ghost names = expr_names(exprs@).subrange(0, i + 1);
        assert(names.drop_last() =~= expr_names(exprs@).subrange(0, i as int));
        assert(names.last() == exprs@[i as int].output_name@);
        let ghost before = out@;
        if !contains_name(&out, &exprs[i].output_name) {
            out.push(exprs[i].output_name.clone());
            proof {
                lemma_names_push(before, exprs@[i as int].output_name);
            }
        }
        i = i + 1;
    }
    assert(expr_names(exprs@).subrange(0, exprs@.len() as int) =~= expr_names(exprs@));
    out
}

/// The output columns of the node at `h`, in order.
pub fn schema_of(lp: &Arena<IR>, h: Node) -> (res: Vec<String>)
    requires
        h.0 < lp@.len(),
    ensures
        names_of(res@) == schema_at(lp@, h.0 as nat),
    decreases h.0,
{
    match lp.get(h) {
        IR::Scan { file_schema, projection } => match projection {
            Some(p) => clone_names(p),
            None => clone_names(file_schema),
        },
        IR::Filter { input, .. } => {
            if input.0 < h.0 {
                schema_of(lp, *input)
            } else {
                Vec::new()
            }
        },
        IR::Select { exprs, .. } => output_names(exprs),
        IR::HStack { input, exprs, .. } => {
            if input.0 < h.0 {
                let s = schema_of(lp, *input);
                extend_schema(s, exprs)
            } else {
                Vec::new()
            }
        },
        IR::Invalid => Vec::new(),
    }
}

} // verus!
