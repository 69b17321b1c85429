//! Tests of the AST builder and the inference context, driven directly.

use mmc::build_ast::{BuildAst, PreItem};
use mmc::infer::InferCtx;
use mmc::nameck;
use mmc::parser::{Item, SynExpr};
use mmc::tables::Names;
use mmc::types::{AtomId, DiagKind, Entity, Span, Ty};

fn sp() -> Span {
    Span { start: 0, end: 0 }
}

#[test]
fn builder_collects_locals_and_globals() {
    let mut names = Names::new();
    nameck::reserve(
        &mut names,
        sp(),
        AtomId(50),
        Entity::Op { params: vec![Ty::Int], ret: Ty::Int },
    )
    .expect("fresh name must reserve");
    // (proc p ((x int)) int (let y (f x)) y)
    let it = Item::Proc {
        name: AtomId(100),
        params: vec![(AtomId(110), Ty::Int)],
        ret: Ty::Int,
        body: vec![
            SynExpr::Let(
                AtomId(111),
                Box::new(SynExpr::Call(AtomId(50), vec![SynExpr::Ident(AtomId(110))])),
            ),
            SynExpr::Ident(AtomId(111)),
        ],
    };
    let mut ba = BuildAst::new();
    let pre = ba.build_item(&names, sp(), &it).expect("the item is well-bound");
    assert_eq!(ba.var_names, vec![AtomId(110), AtomId(111)]);
    assert_eq!(ba.globals, vec![AtomId(50)]);
    let param_tys = match &pre {
        PreItem::Proc { param_tys, .. } => param_tys.clone(),
        PreItem::Typedef { .. } => panic!("a proc was built"),
    };
    assert_eq!(param_tys, vec![Ty::Int]);
    let mut cx = InferCtx::new(ba.var_names.len(), &param_tys, sp());
    cx.lower_item(&names, &pre);
    let diags = cx.into_diags();
    assert!(diags.is_empty(), "{diags:?}");
}

#[test]
fn builder_rejects_an_unbound_call_head() {
    let names = Names::new();
    let it = Item::Proc {
        name: AtomId(100),
        params: vec![],
        ret: Ty::Unit,
        body: vec![SynExpr::Call(AtomId(50), vec![])],
    };
    let mut ba = BuildAst::new();
    let d = ba.build_item(&names, sp(), &it).unwrap_err();
    assert_eq!(d.kind, DiagKind::UnboundName(AtomId(50)));
}

#[test]
fn reserve_conflicts_exactly_on_kind_or_arity() {
    let mut names = Names::new();
    nameck::reserve(
        &mut names,
        sp(),
        AtomId(50),
        Entity::Op { params: vec![Ty::Int], ret: Ty::Int },
    )
    .unwrap();
    // same kind and arity: refines
    nameck::reserve(
        &mut names,
        sp(),
        AtomId(50),
        Entity::Op { params: vec![Ty::Unit], ret: Ty::Unit },
    )
    .unwrap();
    // same kind, other arity: conflicts
    let d = nameck::reserve(
        &mut names,
        sp(),
        AtomId(50),
        Entity::Op { params: vec![], ret: Ty::Unit },
    )
    .unwrap_err();
    assert_eq!(d.kind, DiagKind::DuplicateOrInvalidDeclaration(AtomId(50)));
    // other kind: conflicts
    let d2 = nameck::reserve(&mut names, sp(), AtomId(50), Entity::Type { def: Ty::Int })
        .unwrap_err();
    assert_eq!(d2.kind, DiagKind::DuplicateOrInvalidDeclaration(AtomId(50)));
}
