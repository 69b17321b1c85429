//! End-to-end tests of the compiler session: dispatch, batch ingestion,
//! name reservation, binding and inference diagnostics.

use mmc::types::{AtomId, Diag, DiagKind, ErrorKind, Keyword, Predef, PredefMap, SExpr, Span, Ty};
use mmc::Compiler;

// Symbols the host would intern for the keywords of one unit.
fn keyword_table() -> Vec<(AtomId, Keyword)> {
    vec![
        (AtomId(1), Keyword::Add),
        (AtomId(2), Keyword::Finish),
        (AtomId(3), Keyword::Proc),
        (AtomId(4), Keyword::Typedef),
        (AtomId(5), Keyword::Let),
        (AtomId(6), Keyword::Int),
        (AtomId(7), Keyword::Unit),
    ]
}

fn session() -> Compiler {
    Compiler::new(
        keyword_table(),
        PredefMap::new(AtomId(90), AtomId(91), AtomId(92)),
    )
}

fn sp() -> Span {
    Span { start: 0, end: 0 }
}

fn atom(n: u64) -> SExpr {
    SExpr::Atom(AtomId(n))
}

fn list(es: Vec<SExpr>) -> SExpr {
    SExpr::List(es)
}

// (proc <name> ((p ty)...) <ret> body...)
fn proc_item(name: u64, params: Vec<(u64, SExpr)>, ret: SExpr, body: Vec<SExpr>) -> SExpr {
    let mut es = vec![atom(3), atom(name)];
    let mut ps = Vec::new();
    for (p, t) in params {
        ps.push(list(vec![atom(p), t]));
    }
    es.push(list(ps));
    es.push(ret);
    es.extend(body);
    list(es)
}

fn typedef_item(name: u64, def: SExpr) -> SExpr {
    list(vec![atom(4), atom(name), def])
}

#[test]
fn new_session_is_empty() {
    let c = session();
    assert!(!c.contains_name(AtomId(100)));
    assert_eq!(c.predef_symbol(Predef::Entry), AtomId(90));
    assert_eq!(c.predef_symbol(Predef::Cast), AtomId(91));
    assert_eq!(c.predef_symbol(Predef::Overflow), AtomId(92));
    assert_eq!(c.prefix().as_slice(), &b"_mmc_"[..]);
}

#[test]
fn empty_batch_mutates_nothing_and_is_silent() {
    let mut c = session();
    let diags = c.add(sp(), &vec![]).expect("empty batch must succeed");
    assert!(diags.is_empty());
    assert!(!c.contains_name(AtomId(100)));
}

#[test]
fn single_proc_is_declared() {
    let mut c = session();
    let batch = vec![list(vec![proc_item(100, vec![], atom(7), vec![])])];
    let diags = c.add(sp(), &batch).unwrap();
    assert!(diags.is_empty());
    assert!(c.contains_name(AtomId(100)));
    assert_eq!(c.op_arity(AtomId(100)), Some(0));
}

#[test]
fn wellformed_plus_malformed_yields_one_diagnostic() {
    // the malformed item's body uses an identifier bound nowhere
    let good = proc_item(100, vec![], atom(7), vec![]);
    let bad = proc_item(101, vec![], atom(7), vec![atom(200)]);
    let mut c = session();
    let diags = c.add(sp(), &vec![list(vec![good, bad])]).unwrap();
    assert_eq!(diags.len(), 1);
    assert_eq!(diags[0].kind, DiagKind::UnboundName(AtomId(200)));
    assert!(c.contains_name(AtomId(100)));
}

#[test]
fn wellformed_plus_malformed_other_order() {
    let bad = proc_item(101, vec![], atom(7), vec![atom(200)]);
    let good = proc_item(100, vec![], atom(7), vec![]);
    let mut c = session();
    let diags = c.add(sp(), &vec![list(vec![bad, good])]).unwrap();
    assert_eq!(diags.len(), 1);
    assert_eq!(diags[0].kind, DiagKind::UnboundName(AtomId(200)));
    assert!(c.contains_name(AtomId(100)));
}

#[test]
fn forward_reference_typechecks() {
    // b calls a before a's declaration appears in the same batch
    let b = proc_item(100, vec![], atom(6), vec![list(vec![atom(101), SExpr::Num(5)])]);
    let a = proc_item(101, vec![(110, atom(6))], atom(6), vec![atom(110)]);
    let mut c = session();
    let diags = c.add(sp(), &vec![list(vec![b, a])]).unwrap();
    assert!(diags.is_empty(), "forward call must raise nothing, got {diags:?}");
    assert!(c.contains_name(AtomId(100)));
    assert!(c.contains_name(AtomId(101)));
}

#[test]
fn dispatch_add_empty_twice_equals_once() {
    let mut c = session();
    let batch = vec![list(vec![proc_item(100, vec![], atom(7), vec![])])];
    c.add(sp(), &batch).unwrap();
    let d1 = c.call(sp(), vec![atom(1)]).unwrap();
    let d2 = c.call(sp(), vec![atom(1)]).unwrap();
    assert!(d1.is_empty() && d2.is_empty());
    assert!(c.contains_name(AtomId(100)));
    assert_eq!(c.op_arity(AtomId(100)), Some(0));
}

#[test]
fn unknown_subcommand_fails_without_mutation() {
    let mut c = session();
    let err = c.call(sp(), vec![atom(100), atom(101)]).unwrap_err();
    assert_eq!(err.kind, ErrorKind::UnknownSubcommand(Some(AtomId(100))));
    assert!(!c.contains_name(AtomId(100)));
    assert!(!c.contains_name(AtomId(101)));
}

#[test]
fn non_atom_subcommand_fails() {
    let mut c = session();
    let err = c.call(sp(), vec![list(vec![])]).unwrap_err();
    assert_eq!(err.kind, ErrorKind::UnknownSubcommand(None));
    let err2 = c.call(sp(), vec![]).unwrap_err();
    assert_eq!(err2.kind, ErrorKind::SyntaxError);
}

#[test]
fn finish_with_too_few_references_is_a_syntax_error() {
    let mut c = session();
    let batch = vec![list(vec![proc_item(100, vec![], atom(7), vec![])])];
    c.add(sp(), &batch).unwrap();
    let err = c.call(sp(), vec![atom(2), atom(100)]).unwrap_err();
    assert_eq!(err.kind, ErrorKind::SyntaxError);
    let err2 = c.call(sp(), vec![atom(2)]).unwrap_err();
    assert_eq!(err2.kind, ErrorKind::SyntaxError);
    // and nothing beyond the earlier declaration is in the table
    assert!(c.contains_name(AtomId(100)));
    assert!(!c.contains_name(AtomId(2)));
}

#[test]
fn finish_resolves_its_references() {
    let mut c = session();
    let batch = vec![list(vec![proc_item(100, vec![], atom(7), vec![])])];
    c.add(sp(), &batch).unwrap();
    assert!(c.finish(sp(), AtomId(100), AtomId(100)).is_ok());
    let err = c.finish(sp(), AtomId(100), AtomId(999)).unwrap_err();
    assert_eq!(err.kind, ErrorKind::UnresolvedReference(AtomId(999)));
    let err2 = c.finish(sp(), AtomId(999), AtomId(100)).unwrap_err();
    assert_eq!(err2.kind, ErrorKind::UnresolvedReference(AtomId(999)));
}

#[test]
fn call_finish_ingests_trailing_batch_then_links() {
    let mut c = session();
    let decl = list(vec![proc_item(100, vec![], atom(7), vec![])]);
    let ds = c
        .call(sp(), vec![atom(2), atom(100), atom(100), decl])
        .unwrap();
    assert!(ds.is_empty());
    assert!(c.contains_name(AtomId(100)));
}

#[test]
fn malformed_batch_is_fatal_and_mutates_nothing() {
    let mut c = session();
    // a batch element that is not a list of items
    let err = c.add(sp(), &vec![atom(100)]).unwrap_err();
    assert_eq!(err.kind, ErrorKind::SyntaxError);
    assert!(!c.contains_name(AtomId(100)));
    // a shape error in the second element aborts the first as well
    let good = list(vec![proc_item(100, vec![], atom(7), vec![])]);
    let err2 = c.add(sp(), &vec![good, atom(101)]).unwrap_err();
    assert_eq!(err2.kind, ErrorKind::SyntaxError);
    assert!(!c.contains_name(AtomId(100)));
}

#[test]
fn concrete_type_mismatch_is_reported() {
    // (proc f () unit 5): the body is an int where unit is declared
    let f = proc_item(100, vec![], atom(7), vec![SExpr::Num(5)]);
    let mut c = session();
    let diags = c.add(sp(), &vec![list(vec![f])]).unwrap();
    assert_eq!(diags.len(), 1);
    assert_eq!(diags[0].kind, DiagKind::TypeMismatch(Ty::Int, Ty::Unit));
    assert_eq!(diags[0].span, sp());
    // the item still counts as processed: its declaration stands
    assert!(c.contains_name(AtomId(100)));
}

#[test]
fn nominal_mismatch_through_a_typedef() {
    // (typedef t int) (proc f ((x t)) unit) (proc g () unit (f 5)):
    // t is nominal, so an int literal does not satisfy a t parameter
    let t = typedef_item(150, atom(6));
    let f = proc_item(100, vec![(110, atom(150))], atom(7), vec![]);
    let g = proc_item(101, vec![], atom(7), vec![list(vec![atom(100), SExpr::Num(5)])]);
    let mut c = session();
    let diags = c.add(sp(), &vec![list(vec![t, f, g])]).unwrap();
    assert_eq!(diags.len(), 1, "{diags:?}");
    assert_eq!(diags[0].kind, DiagKind::TypeMismatch(Ty::Int, Ty::Named(AtomId(150))));
}

#[test]
fn arity_mismatch_is_reported() {
    let f = proc_item(100, vec![(110, atom(6))], atom(7), vec![]);
    let g = proc_item(101, vec![], atom(7), vec![list(vec![atom(100)])]);
    let mut c = session();
    let diags = c.add(sp(), &vec![list(vec![f, g])]).unwrap();
    assert_eq!(diags.len(), 1);
    assert_eq!(diags[0].kind, DiagKind::ArityMismatch(AtomId(100), 1, 0));
}

#[test]
fn duplicate_declaration_conflicts_on_kind_and_arity() {
    // same name as an operation of arity 0 and then a type: a conflict
    let f0 = proc_item(100, vec![], atom(7), vec![]);
    let t = typedef_item(100, atom(6));
    let mut c = session();
    let diags = c.add(sp(), &vec![list(vec![f0, t])]).unwrap();
    assert_eq!(diags.len(), 1);
    assert_eq!(
        diags[0].kind,
        DiagKind::DuplicateOrInvalidDeclaration(AtomId(100))
    );
    // arity conflict in a later batch
    let f1 = proc_item(100, vec![(110, atom(6))], atom(7), vec![]);
    let diags2 = c.add(sp(), &vec![list(vec![f1])]).unwrap();
    assert_eq!(diags2.len(), 1);
    assert_eq!(
        diags2[0].kind,
        DiagKind::DuplicateOrInvalidDeclaration(AtomId(100))
    );
    assert_eq!(c.op_arity(AtomId(100)), Some(0));
    // a redeclaration at the same kind and arity refines silently
    let f2 = proc_item(100, vec![], atom(6), vec![SExpr::Num(1)]);
    let diags3 = c.add(sp(), &vec![list(vec![f2])]).unwrap();
    assert!(diags3.is_empty());
    assert_eq!(c.op_arity(AtomId(100)), Some(0));
}

#[test]
fn let_chains_propagate_types_through_unification() {
    // (proc q ((x t)) int (let y x) y): y is unioned with x, which has the
    // named type t, so forcing y to int is a conflict reported as t vs int
    let t = typedef_item(150, atom(6));
    let q = proc_item(
        100,
        vec![(110, atom(150))],
        atom(6),
        vec![list(vec![atom(5), atom(111), atom(110)]), atom(111)],
    );
    let mut c = session();
    let diags = c.add(sp(), &vec![list(vec![t, q])]).unwrap();
    assert_eq!(diags.len(), 1, "{diags:?}");
    assert_eq!(
        diags[0].kind,
        DiagKind::TypeMismatch(Ty::Named(AtomId(150)), Ty::Int)
    );
}

#[test]
fn an_element_with_no_items_is_fine() {
    let mut c = session();
    let diags = c.add(sp(), &vec![list(vec![])]).unwrap();
    assert!(diags.is_empty());
}

#[test]
fn let_shadows_a_parameter() {
    // (proc p ((x int)) unit (let x x)): the inner x is the parameter, the
    // binding makes a new slot of the same name; nothing is raised
    let p = proc_item(
        100,
        vec![(110, atom(6))],
        atom(7),
        vec![list(vec![atom(5), atom(110), atom(110)])],
    );
    let mut c = session();
    let diags = c.add(sp(), &vec![list(vec![p])]).unwrap();
    assert!(diags.is_empty(), "{diags:?}");
}

#[test]
fn unknown_type_in_signature_is_unbound() {
    // no typedef for 150 anywhere in the session
    let f = proc_item(100, vec![(110, atom(150))], atom(7), vec![]);
    let mut c = session();
    let diags = c.add(sp(), &vec![list(vec![f])]).unwrap();
    assert_eq!(diags.len(), 1);
    assert_eq!(diags[0].kind, DiagKind::UnboundName(AtomId(150)));
    // the declaration was still reserved before its body was examined
    assert!(c.contains_name(AtomId(100)));
}

#[test]
fn keyword_in_expression_position_is_a_syntax_error() {
    // a bare `let` atom cannot be a variable occurrence
    let f = proc_item(100, vec![], atom(7), vec![atom(5)]);
    let mut c = session();
    let err = c.add(sp(), &vec![list(vec![f])]).unwrap_err();
    assert_eq!(err.kind, ErrorKind::SyntaxError);
    assert!(!c.contains_name(AtomId(100)));
}

#[test]
fn diagnostics_are_values_with_spans() {
    let d = Diag {
        span: Span { start: 3, end: 9 },
        kind: DiagKind::UnboundName(AtomId(8)),
    };
    assert_eq!(d.span.start, 3);
    assert_eq!(d.span.end, 9);
    assert_eq!(d.kind, DiagKind::UnboundName(AtomId(8)));
}
