//! The item reader: turns host-supplied symbolic-expression values into
//! syntactic top-level items.
//!
//! The reader checks the whole grammatical shape of a batch up front, so a
//! shape error is found before any table is touched; binding and typing
//! errors are item-local and are found later, by the AST builder and the
//! inference context.
//!
//! Grammar, with `k:x` meaning an atom bound to keyword `x`:
//! ```text
//! batch element ::= (item ...)
//! item          ::= (k:proc name ((param ty) ...) ty expr ...)
//!                 | (k:typedef name ty)
//! ty            ::= k:int | k:unit | name
//! expr          ::= number | name | (k:let name expr) | (name expr ...)
//! ```
//! where `name` is any atom not bound to a keyword.

use vstd::prelude::*;

use crate::tables::{spec_lookup, Keywords};
use crate::types::{AtomId, EntityModel, Error, ErrorKind, Keyword, SExpr, Span, Ty};

verus! {

/// A body expression as read, before identifiers are bound.
#[derive(Debug)]
pub enum SynExpr {
    /// A numeric literal.
    Lit(u64),
    /// An identifier occurrence, not yet bound.
    Ident(AtomId),
    /// A local variable binding.
    Let(AtomId, Box<SynExpr>),
    /// A call of a named operation.
    Call(AtomId, Vec<SynExpr>),
}

/// One syntactic top-level item.
#[derive(Debug)]
pub enum Item {
    /// An operation declaration: name, typed parameters, return type, body.
    Proc { name: AtomId, params: Vec<(AtomId, Ty)>, ret: Ty, body: Vec<SynExpr> },
    /// A named type declaration.
    Typedef { name: AtomId, def: Ty },
}

impl Item {
    /// The declared name and entity shape of this item: everything name
    /// reservation needs, available before the body is examined.
    pub open spec fn header(self) -> (AtomId, EntityModel) {
        match self {
            Item::Proc { name, params, ret, .. } => (
                name,
                EntityModel::Op {
                    params: Seq::new(params@.len(), |k: int| params@[k].1),
                    ret,
                },
            ),
            Item::Typedef { name, def } => (name, EntityModel::Type { def }),
        }
    }
}

/// The symbol of an atom not bound to any keyword, if `e` is one.
pub open spec fn plain_atom(kws: Seq<(AtomId, Keyword)>, e: SExpr) -> Option<AtomId> {
    match e {
        SExpr::Atom(a) => if spec_lookup(kws, a) is None {
            Some(a)
        } else {
            None
        },
        _ => None,
    }
}

/// The type a type expression denotes, if `e` is one.
pub open spec fn spec_ty_of(kws: Seq<(AtomId, Keyword)>, e: SExpr) -> Option<Ty> {
    match e {
        SExpr::Atom(a) => match spec_lookup(kws, a) {
            Some(Keyword::Int) => Some(Ty::Int),
            Some(Keyword::Unit) => Some(Ty::Unit),
            Some(_) => None,
            None => Some(Ty::Named(a)),
        },
        _ => None,
    }
}

/// Whether `e` is a well-shaped body expression.
pub open spec fn spec_expr_ok(kws: Seq<(AtomId, Keyword)>, e: SExpr) -> bool
    decreases e,
{
    match e {
        SExpr::Num(_) => true,
        SExpr::Atom(a) => spec_lookup(kws, a) is None,
        SExpr::List(es) => es@.len() >= 1 && match es@[0] {
            SExpr::Atom(h) => match spec_lookup(kws, h) {
                Some(Keyword::Let) => es@.len() == 3
                    && plain_atom(kws, es@[1]) is Some
                    && spec_expr_ok(kws, es@[2]),
                Some(_) => false,
                None => forall|k: int| 1 <= k < es@.len()
                    ==> spec_expr_ok(kws, #[trigger] es@[k]),
            },
            _ => false,
        },
    }
}

/// The name and type of one well-shaped parameter, if `e` is one.
pub open spec fn spec_param_of(kws: Seq<(AtomId, Keyword)>, e: SExpr) -> Option<(AtomId, Ty)> {
    match e {
        SExpr::List(ps) => if ps@.len() == 2
            && plain_atom(kws, ps@[0]) is Some
            && spec_ty_of(kws, ps@[1]) is Some {
            Some((plain_atom(kws, ps@[0]).unwrap(), spec_ty_of(kws, ps@[1]).unwrap()))
        } else {
            None
        },
        _ => None,
    }
}

/// The declared parameter types of a well-shaped parameter list.
pub open spec fn spec_param_tys(kws: Seq<(AtomId, Keyword)>, e: SExpr) -> Seq<Ty> {
    match e {
        SExpr::List(ps) => Seq::new(ps@.len(), |k: int| spec_param_of(kws, ps@[k]).unwrap().1),
        _ => Seq::empty(),
    }
}

/// Whether `e` is a well-shaped top-level item.
pub open spec fn spec_item_ok(kws: Seq<(AtomId, Keyword)>, e: SExpr) -> bool {
    match e {
        SExpr::List(es) => es@.len() >= 1 && match es@[0] {
            SExpr::Atom(h) => match spec_lookup(kws, h) {
                Some(Keyword::Proc) => es@.len() >= 4
                    && plain_atom(kws, es@[1]) is Some
                    && (match es@[2] {
                        SExpr::List(ps) => forall|k: int| 0 <= k < ps@.len()
                            ==> spec_param_of(kws, #[trigger] ps@[k]) is Some,
                        _ => false,
                    })
                    && spec_ty_of(kws, es@[3]) is Some
                    && (forall|k: int| 4 <= k < es@.len()
                        ==> spec_expr_ok(kws, #[trigger] es@[k])),
                Some(Keyword::Typedef) => es@.len() == 3
                    && plain_atom(kws, es@[1]) is Some
                    && spec_ty_of(kws, es@[2]) is Some,
                _ => false,
            },
            _ => false,
        },
        _ => false,
    }
}

/// The declared name and entity shape of a well-shaped item.
pub open spec fn spec_header_of(kws: Seq<(AtomId, Keyword)>, e: SExpr) -> (AtomId, EntityModel)
    recommends
        spec_item_ok(kws, e),
{
    match e {
        SExpr::List(es) => match es@[0] {
            SExpr::Atom(h) => match spec_lookup(kws, h) {
                Some(Keyword::Proc) => (
                    plain_atom(kws, es@[1]).unwrap(),
                    EntityModel::Op {
                        params: spec_param_tys(kws, es@[2]),
                        ret: spec_ty_of(kws, es@[3]).unwrap(),
                    },
                ),
                _ => (
                    plain_atom(kws, es@[1]).unwrap(),
                    EntityModel::Type { def: spec_ty_of(kws, es@[2]).unwrap() },
                ),
            },
            _ => arbitrary(),
        },
        _ => arbitrary(),
    }
}

/// Whether one batch element is a well-shaped list of items.
pub open spec fn spec_elem_ok(kws: Seq<(AtomId, Keyword)>, e: SExpr) -> bool {
    match e {
        SExpr::List(es) => forall|k: int| 0 <= k < es@.len()
            ==> spec_item_ok(kws, #[trigger] es@[k]),
        _ => false,
    }
}

/// Whether a whole batch is well-shaped.
pub open spec fn spec_batch_ok(kws: Seq<(AtomId, Keyword)>, batch: Seq<SExpr>) -> bool {
    forall|j: int| 0 <= j < batch.len() ==> spec_elem_ok(kws, #[trigger] batch[j])
}

/// The headers of one batch element's items, in order.
pub open spec fn spec_elem_headers(kws: Seq<(AtomId, Keyword)>, e: SExpr)
    -> Seq<(AtomId, EntityModel)> {
    match e {
        SExpr::List(es) => Seq::new(es@.len(), |k: int| spec_header_of(kws, es@[k])),
        _ => Seq::empty(),
    }
}

/// The headers of every item of a batch, in reading order.
pub open spec fn spec_batch_headers(kws: Seq<(AtomId, Keyword)>, batch: Seq<SExpr>)
    -> Seq<(AtomId, EntityModel)>
    decreases batch.len(),
{
    if batch.len() == 0 {
        Seq::empty()
    } else {
        spec_elem_headers(kws, batch[0]) + spec_batch_headers(kws, batch.drop_first())
    }
}

/// The headers of a sequence of already-read items.
pub open spec fn headers_of(items: Seq<Item>) -> Seq<(AtomId, EntityModel)> {
    Seq::new(items.len(), |k: int| items[k].header())
}

/// Reading one more batch element appends its headers.
proof fn lemma_batch_headers_snoc(kws: Seq<(AtomId, Keyword)>, s: Seq<SExpr>, e: SExpr)
    ensures
        spec_batch_headers(kws, s.push(e))
            == spec_batch_headers(kws, s) + spec_elem_headers(kws, e),
    decreases s.len(),
{
    reveal_with_fuel(spec_batch_headers, 2);
    let t = s.push(e);
    if s.len() == 0 {
        assert(t[0] == e);
        assert(t.drop_first() =~= Seq::<SExpr>::empty());
        assert(spec_batch_headers(kws, t)
            =~= spec_batch_headers(kws, s) + spec_elem_headers(kws, e));
    } else {
        assert(t[0] == s[0]);
        assert(t.drop_first() =~= s.drop_first().push(e));
        lemma_batch_headers_snoc(kws, s.drop_first(), e);
        assert(spec_elem_headers(kws, s[0])
            + (spec_batch_headers(kws, s.drop_first()) + spec_elem_headers(kws, e))
            =~= (spec_elem_headers(kws, s[0]) + spec_batch_headers(kws, s.drop_first()))
                + spec_elem_headers(kws, e));
        assert(spec_batch_headers(kws, t)
            =~= spec_batch_headers(kws, s) + spec_elem_headers(kws, e));
    }
}

/// Reads a plain (non-keyword) atom.
fn parse_plain(kws: &Keywords, e: &SExpr) -> (r: Option<AtomId>)
    ensures
        r == plain_atom(kws@, *e),
{
    match e {
        SExpr::Atom(a) => {
            if kws.get(*a).is_none() {
                Some(*a)
            } else {
                None
            }
        },
        _ => None,
    }
}

/// Reads a type expression.
fn parse_ty(kws: &Keywords, e: &SExpr) -> (r: Option<Ty>)
    ensures
        r == spec_ty_of(kws@, *e),
{
    match e {
        SExpr::Atom(a) => match kws.get(*a) {
            Some(Keyword::Int) => Some(Ty::Int),
            Some(Keyword::Unit) => Some(Ty::Unit),
            Some(_) => None,
            None => Some(Ty::Named(*a)),
        },
        _ => None,
    }
}

/// Reads one parameter `(name ty)`.
fn parse_param(kws: &Keywords, e: &SExpr) -> (r: Option<(AtomId, Ty)>)
    ensures
        r == spec_param_of(kws@, *e),
{
    match e {
        SExpr::List(ps) => {
            if ps.len() != 2 {
                return None;
            }
            let x = match parse_plain(kws, &ps[0]) {
                Some(x) => x,
                None => {
                    return None;
                },
            };
            let t = match parse_ty(kws, &ps[1]) {
                Some(t) => t,
                None => {
                    return None;
                },
            };
            Some((x, t))
        },
        _ => None,
    }
}

/// Reads one body expression; `None` exactly when the shape is wrong.
#[verifier::loop_isolation(false)]
fn parse_expr(kws: &Keywords, e: &SExpr) -> (r: Option<SynExpr>)
    ensures
        r is Some <==> spec_expr_ok(kws@, *e),
    decreases *e,
{
    match e {
        SExpr::Num(n) => Some(SynExpr::Lit(*n)),
        SExpr::Atom(a) => {
            if kws.get(*a).is_none() {
                Some(SynExpr::Ident(*a))
            } else {
                None
            }
        },
        SExpr::List(es) => {
            if es.len() == 0 {
                return None;
            }
            match &es[0] {
                SExpr::Atom(h) => match kws.get(*h) {
                    Some(Keyword::Let) => {
                        if es.len() != 3 {
                            return None;
                        }
                        let x = match parse_plain(kws, &es[1]) {
                            Some(x) => x,
                            None => {
                                return None;
                            },
                        };
                        match parse_expr(kws, &es[2]) {
                            Some(inner) => Some(SynExpr::Let(x, Box::new(inner))),
                            None => None,
                        }
                    },
                    Some(_) => None,
                    None => {
                        let mut args: Vec<SynExpr> = Vec::new();
                        let mut k: usize = 1;
                        while k < es.len()
                            invariant
                                1 <= k <= es@.len(),
                                forall|j: int| 1 <= j < k
                                    ==> spec_expr_ok(kws@, #[trigger] es@[j]),
                            decreases es@.len() - k,
                        {
                            proof {
                                assert(decreases_to!(*e => es@[k as int])) by {
                                    assert((*e)->List_0 == *es);
                                    assert(decreases_to!(*e => (*e)->List_0));
                                    assert(decreases_to!(*es => es@[k as int]));
                                }
                            }
                            match parse_expr(kws, &es[k]) {
                                Some(x) => args.push(x),
                                None => {
                                    return None;
                                },
                            }
                            k += 1;
                        }
                        Some(SynExpr::Call(*h, args))
                    },
                },
                _ => None,
            }
        },
    }
}

/// Reads one top-level item; `None` exactly when the shape is wrong. On
/// success the item's header is the one the grammar assigns.
#[verifier::loop_isolation(false)]
fn parse_item(kws: &Keywords, e: &SExpr) -> (r: Option<Item>)
    ensures
        r is Some <==> spec_item_ok(kws@, *e),
        r is Some ==> r.unwrap().header() == spec_header_of(kws@, *e),
{
    let es = match e {
        SExpr::List(es) => es,
        _ => {
            return None;
        },
    };
    if es.len() == 0 {
        return None;
    }
    let h = match &es[0] {
        SExpr::Atom(h) => *h,
        _ => {
            return None;
        },
    };
    match kws.get(h) {
        Some(Keyword::Proc) => {
            if es.len() < 4 {
                return None;
            }
            let name = match parse_plain(kws, &es[1]) {
                Some(x) => x,
                None => {
                    return None;
                },
            };
            let ps = match &es[2] {
                SExpr::List(ps) => ps,
                _ => {
                    return None;
                },
            };
            let mut params: Vec<(AtomId, Ty)> = Vec::new();
            let mut k: usize = 0;
            while k < ps.len()
                invariant
                    k <= ps@.len(),
                    params@.len() == k,
                    forall|j: int| 0 <= j < k
                        ==> spec_param_of(kws@, #[trigger] ps@[j]) is Some,
                    forall|j: int| 0 <= j < k
                        ==> params@[j] == spec_param_of(kws@, ps@[j]).unwrap(),
                decreases ps@.len() - k,
            {
                match parse_param(kws, &ps[k]) {
                    Some(p) => params.push(p),
                    None => {
                        return None;
                    },
                }
                k += 1;
            }
            let ret = match parse_ty(kws, &es[3]) {
                Some(t) => t,
                None => {
                    return None;
                },
            };
            let mut body: Vec<SynExpr> = Vec::new();
            let mut k2: usize = 4;
            while k2 < es.len()
                invariant
                    4 <= k2 <= es@.len(),
                    forall|j: int| 4 <= j < k2 ==> spec_expr_ok(kws@, #[trigger] es@[j]),
                decreases es@.len() - k2,
            {
                match parse_expr(kws, &es[k2]) {
                    Some(x) => body.push(x),
                    None => {
                        return None;
                    },
                }
                k2 += 1;
            }
            proof {
                assert(Seq::new(params@.len(), |j: int| params@[j].1)
                    =~= spec_param_tys(kws@, es@[2]));
            }
            Some(Item::Proc { name, params, ret, body })
        },
        Some(Keyword::Typedef) => {
            if es.len() != 3 {
                return None;
            }
            let name = match parse_plain(kws, &es[1]) {
                Some(x) => x,
                None => {
                    return None;
                },
            };
            let def = match parse_ty(kws, &es[2]) {
                Some(t) => t,
                None => {
                    return None;
                },
            };
            Some(Item::Typedef { name, def })
        },
        _ => None,
    }
}

/// Reads a whole batch, starting at element `start` (what stands before is
/// dispatch material, not batch content). Either every element from there
/// on is a well-shaped list of items and all items are returned in reading
/// order, or nothing is: a shape error anywhere is a syntax error for the
/// whole batch, reported before any item is processed.
#[verifier::loop_isolation(false)]
pub fn parse_batch(kws: &Keywords, batch: &Vec<SExpr>, start: usize, sp: Span)
    -> (r: Result<Vec<Item>, Error>)
    requires
        start <= batch@.len(),
    ensures
        match r {
            Ok(items) => spec_batch_ok(kws@, batch@.skip(start as int))
                && headers_of(items@) == spec_batch_headers(kws@, batch@.skip(start as int)),
            Err(er) => !spec_batch_ok(kws@, batch@.skip(start as int))
                && er.kind == ErrorKind::SyntaxError
                && er.span == sp,
        },
{
    let mut items: Vec<Item> = Vec::new();
    let mut j: usize = start;
    while j < batch.len()
        invariant
            start <= j <= batch@.len(),
            forall|q: int| start <= q < j ==> spec_elem_ok(kws@, #[trigger] batch@[q]),
            headers_of(items@)
                == spec_batch_headers(kws@, batch@.subrange(start as int, j as int)),
        decreases batch@.len() - j,
    {
        proof {
            assert(batch@.skip(start as int)[j - start] == batch@[j as int]);
        }
        let es = match &batch[j] {
            SExpr::List(es) => es,
            _ => {
                return Err(Error { span: sp, kind: ErrorKind::SyntaxError });
            },
        };
        let mut k: usize = 0;
        while k < es.len()
            invariant
                k <= es@.len(),
                batch@[j as int] == SExpr::List(*es),
                start <= j < batch@.len(),
                forall|q: int| start <= q < j ==> spec_elem_ok(kws@, #[trigger] batch@[q]),
                forall|q: int| 0 <= q < k ==> spec_item_ok(kws@, #[trigger] es@[q]),
                headers_of(items@) == spec_batch_headers(kws@, batch@.subrange(start as int, j as int))
                    + Seq::new(k as nat, |q: int| spec_header_of(kws@, es@[q])),
            decreases es@.len() - k,
        {
            match parse_item(kws, &es[k]) {
                Some(it) => {
                    proof {
                        assert(headers_of(items@.push(it))
                            =~= headers_of(items@).push(it.header()));
                        assert(Seq::new((k + 1) as nat, |q: int| spec_header_of(kws@, es@[q]))
                            =~= Seq::new(k as nat, |q: int| spec_header_of(kws@, es@[q]))
                                .push(spec_header_of(kws@, es@[k as int])));
                        assert(spec_batch_headers(kws@, batch@.subrange(start as int, j as int))
                            + Seq::new(k as nat, |q: int| spec_header_of(kws@, es@[q]))
                                .push(spec_header_of(kws@, es@[k as int]))
                            =~= (spec_batch_headers(kws@, batch@.subrange(start as int, j as int))
                                + Seq::new(k as nat, |q: int| spec_header_of(kws@, es@[q])))
                                .push(spec_header_of(kws@, es@[k as int])));
                    }
                    items.push(it);
                },
                None => {
                    return Err(Error { span: sp, kind: ErrorKind::SyntaxError });
                },
            }
            k += 1;
        }
        proof {
            assert(Seq::new(es@.len(), |q: int| spec_header_of(kws@, es@[q]))
                =~= spec_elem_headers(kws@, batch@[j as int]));
            assert(batch@.subrange(start as int, j + 1)
                =~= batch@.subrange(start as int, j as int).push(batch@[j as int]));
            lemma_batch_headers_snoc(kws@, batch@.subrange(start as int, j as int), batch@[j as int]);
        }
        j += 1;
    }
    proof {
        assert(batch@.subrange(start as int, batch@.len() as int)
            =~= batch@.skip(start as int));
        assert forall|q: int| 0 <= q < batch@.skip(start as int).len() implies
            spec_elem_ok(kws@, #[trigger] batch@.skip(start as int)[q]) by {
            assert(batch@.skip(start as int)[q] == batch@[q + start]);
        }
    }
    Ok(items)
}

} // verus!
