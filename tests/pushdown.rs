use projection_pushdown::arena::{Arena, Node};
use projection_pushdown::context::ProjectionContext;
use projection_pushdown::expr::{AExpr, ExprIR, Operator};
use projection_pushdown::plan::{schema_of, ProjectionOptions, IR};
use projection_pushdown::prune::{hstack_input_context, prune_exprs};
use projection_pushdown::pushdown::{optimize, process_hstack, pushdown_and_assign, PlanError};

fn s(x: &str) -> String {
    x.to_string()
}

fn names(v: &[&str]) -> Vec<String> {
    v.iter().map(|x| x.to_string()).collect()
}

fn options() -> ProjectionOptions {
    ProjectionOptions { run_parallel: true, duplicate_check: true, should_broadcast: true }
}

fn scan_projection(lp: &Arena<IR>, h: usize) -> Option<Vec<String>> {
    match lp.get(Node(h)) {
        IR::Scan { projection, .. } => projection.clone(),
        _ => panic!("not a scan"),
    }
}

/// Scan(a, b, c) -> AddColumns([b + 1 as "d"]) -> Select(selected)
fn plan_with_select(selected: &[&str]) -> (Arena<IR>, Arena<AExpr>) {
    let mut ea = Arena::new();
    let b = ea.add(AExpr::Column(s("b")));
    let one = ea.add(AExpr::Literal(1));
    let b_plus_1 = ea.add(AExpr::BinaryExpr { left: b, op: Operator::Plus, right: one });
    let mut select = Vec::new();
    for name in selected {
        let c = ea.add(AExpr::Column(s(name)));
        select.push(ExprIR::new(c, s(name)));
    }
    let mut lp = Arena::new();
    let scan = lp.add(IR::Scan { file_schema: names(&["a", "b", "c"]), projection: None });
    let hstack = lp.add(IR::HStack {
        input: scan,
        exprs: vec![ExprIR::new(b_plus_1, s("d"))],
        options: options(),
    });
    lp.add(IR::Select { input: hstack, exprs: select });
    (lp, ea)
}

#[test]
fn used_added_column_keeps_node_and_prunes_scan() {
    let (mut lp, ea) = plan_with_select(&["a", "d"]);
    let root = optimize(Node(2), &mut lp, &ea).unwrap();
    assert_eq!(root, Node(2));
    assert_eq!(scan_projection(&lp, 0), Some(names(&["a", "b"])));
    match lp.get(Node(1)) {
        IR::HStack { input, exprs, options: o } => {
            assert_eq!(*input, Node(0));
            assert_eq!(exprs.len(), 1);
            assert_eq!(exprs[0].output_name, s("d"));
            assert_eq!(*o, options());
        },
        _ => panic!("add-columns node was removed"),
    }
    match lp.get(Node(2)) {
        IR::Select { input, exprs } => {
            assert_eq!(*input, Node(1));
            let out: Vec<String> = exprs.iter().map(|e| e.output_name.clone()).collect();
            assert_eq!(out, names(&["a", "d"]));
        },
        _ => panic!("select changed"),
    }
    assert_eq!(schema_of(&lp, Node(2)), names(&["a", "d"]));
}

#[test]
fn unused_added_column_removes_node() {
    let (mut lp, ea) = plan_with_select(&["a", "b"]);
    optimize(Node(2), &mut lp, &ea).unwrap();
    assert_eq!(scan_projection(&lp, 1), Some(names(&["a", "b"])));
    assert!(matches!(lp.get(Node(0)), IR::Invalid));
    match lp.get(Node(2)) {
        IR::Select { input, .. } => assert_eq!(*input, Node(1)),
        _ => panic!("select changed"),
    }
    assert_eq!(schema_of(&lp, Node(2)), names(&["a", "b"]));
}

/// Scan(a, x) -> AddColumns([a + 1 as "x"])
fn shadowing_plan() -> (Arena<IR>, Arena<AExpr>) {
    let mut ea = Arena::new();
    let a = ea.add(AExpr::Column(s("a")));
    let one = ea.add(AExpr::Literal(1));
    let a_plus_1 = ea.add(AExpr::BinaryExpr { left: a, op: Operator::Plus, right: one });
    let mut lp = Arena::new();
    let scan = lp.add(IR::Scan { file_schema: names(&["a", "x"]), projection: None });
    lp.add(IR::HStack {
        input: scan,
        exprs: vec![ExprIR::new(a_plus_1, s("x"))],
        options: options(),
    });
    (lp, ea)
}

#[test]
fn shadowed_column_asks_input_for_what_it_reads() {
    let (mut lp, ea) = shadowing_plan();
    let ctx = ProjectionContext::new(names(&["x"]));
    pushdown_and_assign(Node(1), ctx, &mut lp, &ea).unwrap();
    assert_eq!(scan_projection(&lp, 0), Some(names(&["a"])));
    assert_eq!(schema_of(&lp, Node(1)), names(&["a", "x"]));
}

#[test]
fn shadowed_column_input_context() {
    let (lp, ea) = shadowing_plan();
    let exprs = match lp.get(Node(1)) {
        IR::HStack { exprs, .. } => exprs,
        _ => unreachable!(),
    };
    let ctx = ProjectionContext::new(names(&["x"]));
    let kept = prune_exprs(exprs, &ctx);
    assert_eq!(kept.len(), 1);
    let fwd = hstack_input_context(&ctx, exprs, &kept, &names(&["a", "x"]), &ea);
    assert_eq!(fwd.acc_projections, names(&["a"]));
}

#[test]
fn later_writer_of_a_name_wins() {
    let mut ea = Arena::new();
    let a = ea.add(AExpr::Column(s("a")));
    let b = ea.add(AExpr::Column(s("b")));
    let exprs = vec![ExprIR::new(a, s("y")), ExprIR::new(b, s("z")), ExprIR::new(b, s("y"))];
    let ctx = ProjectionContext::new(names(&["y"]));
    let kept = prune_exprs(&exprs, &ctx);
    assert_eq!(kept.len(), 1);
    assert_eq!(kept[0].node, b);
    assert_eq!(kept[0].output_name, s("y"));
    let again = prune_exprs(&kept, &ctx);
    assert_eq!(again.len(), 1);
    assert_eq!(again[0].node, b);
}

#[test]
fn without_requirements_nothing_is_pruned() {
    let (mut lp, ea) = shadowing_plan();
    let root = optimize(Node(1), &mut lp, &ea).unwrap();
    assert_eq!(root, Node(1));
    assert_eq!(scan_projection(&lp, 0), None);
    assert_eq!(schema_of(&lp, Node(1)), names(&["a", "x"]));
}

#[test]
fn pushdown_twice_is_stable() {
    let (mut lp, ea) = plan_with_select(&["a", "d"]);
    optimize(Node(2), &mut lp, &ea).unwrap();
    optimize(Node(2), &mut lp, &ea).unwrap();
    assert_eq!(scan_projection(&lp, 0), Some(names(&["a", "b"])));
    match lp.get(Node(1)) {
        IR::HStack { exprs, .. } => assert_eq!(exprs.len(), 1),
        _ => panic!("add-columns node was removed"),
    }
}

#[test]
fn missing_column_is_reported() {
    let mut ea = Arena::new();
    let q = ea.add(AExpr::Column(s("q")));
    let mut lp = Arena::new();
    let scan = lp.add(IR::Scan { file_schema: names(&["a"]), projection: None });
    lp.add(IR::HStack { input: scan, exprs: vec![ExprIR::new(q, s("r"))], options: options() });
    let res = optimize(Node(1), &mut lp, &ea);
    assert_eq!(res, Err(PlanError::ColumnNotFound(s("q"))));
}

#[test]
fn moved_out_slot_is_an_internal_error() {
    let ea: Arena<AExpr> = Arena::new();
    let mut lp = Arena::new();
    lp.add(IR::Invalid);
    let res = optimize(Node(0), &mut lp, &ea);
    assert_eq!(res, Err(PlanError::InvalidNode));
}

#[test]
fn filter_keeps_predicate_columns() {
    let mut ea = Arena::new();
    let c = ea.add(AExpr::Column(s("c")));
    let zero = ea.add(AExpr::Literal(0));
    let pred = ea.add(AExpr::BinaryExpr { left: c, op: Operator::Lt, right: zero });
    let a = ea.add(AExpr::Column(s("a")));
    let mut lp = Arena::new();
    let scan = lp.add(IR::Scan { file_schema: names(&["a", "b", "c"]), projection: None });
    let filter = lp.add(IR::Filter { input: scan, predicate: ExprIR::new(pred, s("c")) });
    lp.add(IR::Select { input: filter, exprs: vec![ExprIR::new(a, s("a"))] });
    optimize(Node(2), &mut lp, &ea).unwrap();
    assert_eq!(scan_projection(&lp, 0), Some(names(&["a", "c"])));
}

#[test]
fn hstack_rule_directly() {
    let (mut lp, ea) = plan_with_select(&["a", "b"]);
    let exprs = match lp.replace(Node(1), IR::Invalid) {
        IR::HStack { exprs, .. } => exprs,
        _ => unreachable!(),
    };
    let ctx = ProjectionContext::new(names(&["a", "b"]));
    let node = process_hstack(Node(0), exprs, options(), ctx, &mut lp, &ea).unwrap();
    match node {
        IR::Scan { projection, .. } => assert_eq!(projection, Some(names(&["a", "b"]))),
        _ => panic!("add-columns node should have been removed"),
    }
}

#[test]
fn missing_column_below_is_handed_on() {
    let mut ea = Arena::new();
    let q = ea.add(AExpr::Column(s("q")));
    let r = ea.add(AExpr::Column(s("r")));
    let mut lp = Arena::new();
    let scan = lp.add(IR::Scan { file_schema: names(&["a"]), projection: None });
    let hstack = lp.add(IR::HStack { input: scan, exprs: vec![ExprIR::new(q, s("r"))], options: options() });
    lp.add(IR::Select { input: hstack, exprs: vec![ExprIR::new(r, s("r"))] });
    let res = optimize(Node(2), &mut lp, &ea);
    assert_eq!(res, Err(PlanError::ColumnNotFound(s("q"))));
}
