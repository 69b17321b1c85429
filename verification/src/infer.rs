//! The inference context: one per item. It owns an arena of typed nodes
//! (handles are indices into the arena, which dies with the context), a
//! union-find store whose metavariables are the item's local slots, and the
//! diagnostics the item raised.
//!
//! Constraints are solved online: equating two types unions their classes;
//! when either side is concrete the other is forced to match, and a
//! conflict is reported with both sides rendered under the current partial
//! substitution. A diagnostic never aborts inference of the remaining
//! constructs. Metavariables still unresolved when the item ends are left
//! to a later stage; they are not errors here.

use vstd::prelude::*;

use crate::build_ast::{expr_model, expr_wf, exprs_model, pre_wf, Expr, PreItem, SpecExpr};
use crate::tables::Names;
use crate::types::{AtomId, Diag, DiagKind, Entity, EntityModel, Span, Ty};
use crate::union_find::UnionFind;

verus! {

/// A type during inference: concrete, or the metavariable of a local slot.
#[derive(Clone, Copy, Debug)]
pub enum ITy {
    Conc(Ty),
    Meta(usize),
}

/// Any metavariable mentioned is a live one.
pub open spec fn ity_wf(t: ITy, n: nat) -> bool {
    match t {
        ITy::Meta(x) => x < n,
        ITy::Conc(_) => true,
    }
}

/// What a solved constraint means on the store: both sides concretely
/// equal, a metavariable resolved to the concrete side, or two
/// metavariables in one class.
pub open spec fn ity_unified(uf: UnionFind, a: ITy, b: ITy) -> bool {
    match (a, b) {
        (ITy::Conc(c), ITy::Conc(d)) => c == d,
        (ITy::Meta(x), ITy::Conc(c)) => uf.value_of(x as int) == Some(c),
        (ITy::Conc(c), ITy::Meta(x)) => uf.value_of(x as int) == Some(c),
        (ITy::Meta(x), ITy::Meta(y)) => uf.same_class(x as int, y as int),
    }
}

/// Whether an equality constraint is solvable against the current store,
/// with no conflict to report.
pub open spec fn can_unify(uf: UnionFind, a: ITy, b: ITy) -> bool {
    match (a, b) {
        (ITy::Conc(c), ITy::Conc(d)) => c == d,
        (ITy::Meta(x), ITy::Conc(c)) => uf.value_of(x as int) is None
            || uf.value_of(x as int) == Some(c),
        (ITy::Conc(c), ITy::Meta(x)) => uf.value_of(x as int) is None
            || uf.value_of(x as int) == Some(c),
        (ITy::Meta(x), ITy::Meta(y)) => uf.same_class(x as int, y as int)
            || uf.value_of(x as int) is None
            || uf.value_of(y as int) is None
            || uf.value_of(x as int) == uf.value_of(y as int),
    }
}

/// A functional model of the union-find store: per metavariable, a class
/// id (`rep`; equal ids, one class) and the class's resolution (`val`,
/// shared by every member of a class).
pub struct StoreModel {
    pub rep: Seq<int>,
    pub val: Seq<Option<Ty>>,
}

/// The store a context starts from: singleton classes, the parameter
/// slots resolved to their declared types, every other slot unresolved.
pub open spec fn st_init(n: nat, param_tys: Seq<Ty>) -> StoreModel {
    StoreModel {
        rep: Seq::new(n, |i: int| i),
        val: Seq::new(
            n,
            |i: int| if i < param_tys.len() {
                Some(param_tys[i])
            } else {
                None
            },
        ),
    }
}

/// Whether the executable store realizes the model: same partition into
/// classes, same resolution per variable.
pub open spec fn abstracts(uf: UnionFind, s: StoreModel) -> bool {
    &&& s.rep.len() == uf.len()
    &&& s.val.len() == uf.len()
    &&& forall|i: int, j: int| 0 <= i < uf.len() && 0 <= j < uf.len() ==>
        (#[trigger] uf.same_class(i, j) <==> s.rep[i] == s.rep[j])
    &&& forall|i: int| 0 <= i < uf.len() ==> #[trigger] uf.value_of(i) == s.val[i]
}

/// Every store realizes at least its own canonical model.
pub open spec fn model_of(uf: UnionFind) -> StoreModel {
    StoreModel {
        rep: Seq::new(uf.len(), |i: int| uf.repr_of(i)),
        val: Seq::new(uf.len(), |i: int| uf.value_of(i)),
    }
}

pub proof fn lemma_model_of(uf: UnionFind)
    ensures
        abstracts(uf, model_of(uf)),
{
}

/// The model after forcing `x`'s class to `t` (callers rule conflicts out).
pub open spec fn st_resolve(s: StoreModel, x: int, t: Ty) -> StoreModel {
    StoreModel {
        rep: s.rep,
        val: Seq::new(
            s.val.len(),
            |i: int| if s.rep[i] == s.rep[x] {
                Some(t)
            } else {
                s.val[i]
            },
        ),
    }
}

/// The model after merging the classes of `x` and `y` (callers rule
/// conflicts out); the merged class keeps whichever resolution a side had.
pub open spec fn st_union(s: StoreModel, x: int, y: int) -> StoreModel {
    let merged = if s.val[x] is Some {
        s.val[x]
    } else {
        s.val[y]
    };
    StoreModel {
        rep: Seq::new(
            s.rep.len(),
            |i: int| if s.rep[i] == s.rep[y] {
                s.rep[x]
            } else {
                s.rep[i]
            },
        ),
        val: Seq::new(
            s.val.len(),
            |i: int| if s.rep[i] == s.rep[x] || s.rep[i] == s.rep[y] {
                merged
            } else {
                s.val[i]
            },
        ),
    }
}

/// Forcing a metavariable against a concrete type on the model: the store
/// afterwards and the (zero or one) diagnostics raised.
pub open spec fn st_force(s: StoreModel, span: Span, x: int, c: Ty) -> (StoreModel, Seq<Diag>) {
    match s.val[x] {
        None => (st_resolve(s, x, c), Seq::empty()),
        Some(u) => if u == c {
            (s, Seq::empty())
        } else {
            (s, seq![Diag { span, kind: DiagKind::TypeMismatch(u, c) }])
        },
    }
}

/// One solving step on the model, mirroring what the solver does with one
/// equality constraint.
pub open spec fn st_unify(s: StoreModel, span: Span, a: ITy, b: ITy) -> (StoreModel, Seq<Diag>) {
    match (a, b) {
        (ITy::Conc(c), ITy::Conc(d)) => if c == d {
            (s, Seq::empty())
        } else {
            (s, seq![Diag { span, kind: DiagKind::TypeMismatch(c, d) }])
        },
        (ITy::Meta(x), ITy::Conc(c)) => st_force(s, span, x as int, c),
        (ITy::Conc(c), ITy::Meta(x)) => st_force(s, span, x as int, c),
        (ITy::Meta(x), ITy::Meta(y)) => if s.rep[x as int] == s.rep[y as int] {
            (s, Seq::empty())
        } else if s.val[x as int] is Some && s.val[y as int] is Some
            && s.val[x as int] != s.val[y as int] {
            (
                s,
                seq![
                    Diag {
                        span,
                        kind: DiagKind::TypeMismatch(
                            s.val[x as int].unwrap(),
                            s.val[y as int].unwrap(),
                        ),
                    }
                ],
            )
        } else {
            (st_union(s, x as int, y as int), Seq::empty())
        },
    }
}

/// The whole walk of one expression on the model: the store and
/// diagnostics afterwards, and the expression's type.
pub open spec fn infer_expr(m: Map<AtomId, EntityModel>, span: Span, s: StoreModel, e: SpecExpr)
    -> (StoreModel, Seq<Diag>, ITy)
    decreases e, 0nat,
{
    match e {
        SpecExpr::Lit(_) => (s, Seq::empty(), ITy::Conc(Ty::Int)),
        SpecExpr::Var(i) => (s, Seq::empty(), ITy::Meta(i)),
        SpecExpr::Let(i, inner) => {
            let p = infer_expr(m, span, s, *inner);
            let u = st_unify(p.0, span, ITy::Meta(i), p.2);
            (u.0, p.1 + u.1, ITy::Conc(Ty::Unit))
        },
        SpecExpr::Call(f, args) => if m.contains_key(f) && (m[f] matches EntityModel::Op {
            ..
        }) {
            let params = (match m[f] {
                EntityModel::Op { params, .. } => params,
                _ => Seq::empty(),
            });
            let ret = (match m[f] {
                EntityModel::Op { ret, .. } => ret,
                _ => Ty::Unit,
            });
            let d0: Seq<Diag> = if args.len() == params.len() {
                Seq::empty()
            } else {
                seq![
                    Diag {
                        span,
                        kind: DiagKind::ArityMismatch(
                            f,
                            params.len() as usize,
                            args.len() as usize,
                        ),
                    }
                ]
            };
            let q = infer_args(m, span, s, args, 0, params, true);
            (q.0, d0 + q.1, ITy::Conc(ret))
        } else {
            let d0: Seq<Diag> = seq![Diag { span, kind: DiagKind::UnboundName(f) }];
            let q = infer_args(m, span, s, args, 0, Seq::empty(), false);
            (q.0, d0 + q.1, ITy::Conc(Ty::Unit))
        },
    }
}

/// The walk of a call's arguments from position `k` on: each argument is
/// walked and, while the operation is known and has a parameter left, its
/// type is equated with the declared parameter type.
pub open spec fn infer_args(
    m: Map<AtomId, EntityModel>,
    span: Span,
    s: StoreModel,
    args: Seq<SpecExpr>,
    k: int,
    params: Seq<Ty>,
    known: bool,
) -> (StoreModel, Seq<Diag>)
    decreases args, args.len() - k,
{
    if k < 0 || k >= args.len() {
        (s, Seq::empty())
    } else {
        let p = infer_expr(m, span, s, args[k]);
        let u = if known && k < params.len() {
            st_unify(p.0, span, p.2, ITy::Conc(params[k]))
        } else {
            (p.0, Seq::empty())
        };
        let q = infer_args(m, span, u.0, args, k + 1, params, known);
        (q.0, p.1 + u.1 + q.1)
    }
}

/// The walk of a body from position `k` on, carrying the type of the last
/// expression walked so far.
pub open spec fn infer_body(
    m: Map<AtomId, EntityModel>,
    span: Span,
    s: StoreModel,
    body: Seq<SpecExpr>,
    k: int,
    last: ITy,
) -> (StoreModel, Seq<Diag>, ITy)
    decreases body, body.len() - k,
{
    if k < 0 || k >= body.len() {
        (s, Seq::empty(), last)
    } else {
        let p = infer_expr(m, span, s, body[k]);
        let q = infer_body(m, span, p.0, body, k + 1, p.2);
        (q.0, p.1 + q.1, q.2)
    }
}

/// The whole walk of one operation body: the body in order, then the last
/// expression's type (unit for an empty body) equated with the declared
/// return type.
pub open spec fn infer_proc(
    m: Map<AtomId, EntityModel>,
    span: Span,
    s: StoreModel,
    body: Seq<SpecExpr>,
    ret: Ty,
) -> (StoreModel, Seq<Diag>) {
    let b = infer_body(m, span, s, body, 0, ITy::Conc(Ty::Unit));
    let u = st_unify(b.0, span, b.2, ITy::Conc(ret));
    (u.0, b.1 + u.1)
}

/// A store that resolves one class exactly as `st_resolve` says realizes
/// the resolved model; when the class already carried that type, it still
/// realizes the model it started from.
proof fn lemma_abstracts_resolve(pre: UnionFind, post: UnionFind, s: StoreModel, x: int, t: Ty)
    requires
        abstracts(pre, s),
        0 <= x < pre.len(),
        post.len() == pre.len(),
        forall|i: int| #[trigger] post.repr_of(i) == pre.repr_of(i),
        forall|i: int| 0 <= i < post.len() ==> #[trigger] post.value_of(i) == (
            if pre.same_class(i, x) {
                Some(t)
            } else {
                pre.value_of(i)
            }),
    ensures
        abstracts(post, st_resolve(s, x, t)),
        s.val[x] == Some(t) ==> abstracts(post, s),
    {
    let m = st_resolve(s, x, t);
    assert forall|i: int, j: int| 0 <= i < post.len() && 0 <= j < post.len() implies
        (#[trigger] post.same_class(i, j) <==> m.rep[i] == m.rep[j]) by {
        assert(pre.same_class(i, j) <==> s.rep[i] == s.rep[j]);
    }
    assert forall|i: int| 0 <= i < post.len() implies #[trigger] post.value_of(i)
        == m.val[i] by {
        assert(pre.same_class(i, x) <==> s.rep[i] == s.rep[x]);
        assert(pre.value_of(i) == s.val[i]);
    }
    if s.val[x] == Some(t) {
        assert forall|i: int| 0 <= i < post.len() implies #[trigger] post.value_of(i)
            == s.val[i] by {
            assert(pre.same_class(i, x) <==> s.rep[i] == s.rep[x]);
            assert(pre.value_of(i) == s.val[i]);
            if pre.same_class(i, x) {
                pre.lemma_same_class_same_value(i, x);
                assert(pre.value_of(x) == s.val[x]);
            }
        }
        assert forall|i: int, j: int| 0 <= i < post.len() && 0 <= j < post.len() implies
            (#[trigger] post.same_class(i, j) <==> s.rep[i] == s.rep[j]) by {
            assert(pre.same_class(i, j) <==> s.rep[i] == s.rep[j]);
        }
    }
}

/// A store that merges two classes exactly as `st_union` says realizes the
/// merged model.
proof fn lemma_abstracts_union(pre: UnionFind, post: UnionFind, s: StoreModel, x: int, y: int)
    requires
        abstracts(pre, s),
        0 <= x < pre.len(),
        0 <= y < pre.len(),
        !pre.same_class(x, y),
        post.len() == pre.len(),
        forall|i: int, j: int| 0 <= i < post.len() && 0 <= j < post.len() ==>
            (#[trigger] post.same_class(i, j) <==> (pre.same_class(i, j)
                || (pre.same_class(i, x) && pre.same_class(j, y))
                || (pre.same_class(i, y) && pre.same_class(j, x)))),
        forall|i: int| 0 <= i < post.len() ==> #[trigger] post.value_of(i) == (
            if pre.same_class(i, x) || pre.same_class(i, y) {
                if pre.value_of(x) is Some {
                    pre.value_of(x)
                } else {
                    pre.value_of(y)
                }
            } else {
                pre.value_of(i)
            }),
    ensures
        abstracts(post, st_union(s, x, y)),
{
    let m = st_union(s, x, y);
    assert forall|i: int, j: int| 0 <= i < post.len() && 0 <= j < post.len() implies
        (#[trigger] post.same_class(i, j) <==> m.rep[i] == m.rep[j]) by {
        assert(pre.same_class(i, j) <==> s.rep[i] == s.rep[j]);
        assert(pre.same_class(i, x) <==> s.rep[i] == s.rep[x]);
        assert(pre.same_class(i, y) <==> s.rep[i] == s.rep[y]);
        assert(pre.same_class(j, x) <==> s.rep[j] == s.rep[x]);
        assert(pre.same_class(j, y) <==> s.rep[j] == s.rep[y]);
    }
    assert forall|i: int| 0 <= i < post.len() implies #[trigger] post.value_of(i)
        == m.val[i] by {
        assert(pre.same_class(i, x) <==> s.rep[i] == s.rep[x]);
        assert(pre.same_class(i, y) <==> s.rep[i] == s.rep[y]);
        assert(pre.value_of(i) == s.val[i]);
        assert(pre.value_of(x) == s.val[x]);
        assert(pre.value_of(y) == s.val[y]);
    }
}

/// A union within one class moves nothing: the store still realizes the
/// model it started from.
proof fn lemma_abstracts_union_same(pre: UnionFind, post: UnionFind, s: StoreModel, x: int, y: int)
    requires
        abstracts(pre, s),
        0 <= x < pre.len(),
        0 <= y < pre.len(),
        pre.same_class(x, y),
        post.len() == pre.len(),
        forall|i: int, j: int| 0 <= i < post.len() && 0 <= j < post.len() ==>
            (#[trigger] post.same_class(i, j) <==> (pre.same_class(i, j)
                || (pre.same_class(i, x) && pre.same_class(j, y))
                || (pre.same_class(i, y) && pre.same_class(j, x)))),
        forall|i: int| 0 <= i < post.len() ==> #[trigger] post.value_of(i) == (
            if pre.same_class(i, x) || pre.same_class(i, y) {
                if pre.value_of(x) is Some {
                    pre.value_of(x)
                } else {
                    pre.value_of(y)
                }
            } else {
                pre.value_of(i)
            }),
    ensures
        abstracts(post, s),
{
    assert forall|i: int, j: int| 0 <= i < post.len() && 0 <= j < post.len() implies
        (#[trigger] post.same_class(i, j) <==> s.rep[i] == s.rep[j]) by {
        assert(pre.same_class(i, j) <==> s.rep[i] == s.rep[j]);
        assert(pre.same_class(i, x) <==> s.rep[i] == s.rep[x]);
        assert(pre.same_class(i, y) <==> s.rep[i] == s.rep[y]);
        assert(pre.same_class(j, x) <==> s.rep[j] == s.rep[x]);
        assert(pre.same_class(j, y) <==> s.rep[j] == s.rep[y]);
        assert(pre.same_class(x, y) <==> s.rep[x] == s.rep[y]);
    }
    assert forall|i: int| 0 <= i < post.len() implies #[trigger] post.value_of(i)
        == s.val[i] by {
        assert(pre.same_class(i, x) <==> s.rep[i] == s.rep[x]);
        assert(pre.same_class(i, y) <==> s.rep[i] == s.rep[y]);
        assert(pre.value_of(i) == s.val[i]);
        if pre.same_class(i, x) || pre.same_class(i, y) {
            pre.lemma_same_class_same_value(i, x);
            pre.lemma_same_class_same_value(x, y);
        }
    }
}

/// One typed node of the arena.
#[derive(Debug)]
pub struct TyNode {
    /// The node's type, possibly still a metavariable.
    pub ty: ITy,
    /// What the node is, with children as arena indices.
    pub kind: NodeKind,
}

/// The canonical node set the builder lowers into, typed.
#[derive(Debug)]
pub enum NodeKind {
    Lit(u64),
    Var(usize),
    Let(usize, usize),
    Call(AtomId, Vec<usize>),
}

/// The inference context for one item. Created, used once, discarded;
/// nothing it owns outlives the item.
pub struct InferCtx {
    uf: UnionFind,
    arena: Vec<TyNode>,
    diags: Vec<Diag>,
    span: Span,
}

impl InferCtx {
    /// The store is well-formed.
    pub closed spec fn wf(self) -> bool {
        self.uf.wf()
    }

    /// How many metavariables (local slots) the context has.
    pub closed spec fn n_vars(self) -> nat {
        self.uf.len()
    }

    /// The diagnostics raised so far, in raising order.
    pub closed spec fn diags_view(self) -> Seq<Diag> {
        self.diags@
    }

    /// What slot `i`'s class is resolved to, if anything.
    pub closed spec fn meta_value(self, i: int) -> Option<Ty> {
        self.uf.value_of(i)
    }

    /// How many typed nodes the arena holds.
    pub closed spec fn arena_size(self) -> nat {
        self.arena@.len()
    }

    /// The union-find store itself, for stating which models it realizes.
    pub closed spec fn store(self) -> UnionFind {
        self.uf
    }

    /// The span this context attributes its diagnostics to.
    pub closed spec fn ctx_span(self) -> Span {
        self.span
    }

    /// A fresh context for an item with `n_locals` local slots, the first
    /// of which are parameters with declared types: each parameter's
    /// metavariable starts resolved to its declared type, every other slot
    /// starts unresolved, and no two slots share a class.
    pub fn new(n_locals: usize, param_tys: &Vec<Ty>, span: Span) -> (r: InferCtx)
        requires
            param_tys@.len() <= n_locals,
        ensures
            r.wf(),
            r.n_vars() == n_locals,
            r.diags_view().len() == 0,
            r.arena_size() == 0,
            forall|k: int| 0 <= k < param_tys@.len()
                ==> #[trigger] r.meta_value(k) == Some(param_tys@[k]),
            forall|k: int| param_tys@.len() <= k < n_locals
                ==> #[trigger] r.meta_value(k) is None,
            abstracts(r.store(), st_init(n_locals as nat, param_tys@)),
            r.ctx_span() == span,
    {
        let mut uf = UnionFind::new();
        let mut i: usize = 0;
        while i < n_locals
            invariant
                i <= n_locals,
                uf.wf(),
                uf.len() == i,
                forall|k: int| 0 <= k < i ==> #[trigger] uf.repr_of(k) == k,
                forall|k: int| 0 <= k < i ==> #[trigger] uf.value_of(k) is None,
            decreases n_locals - i,
        {
            let _ = uf.new_var();
            i += 1;
        }
        let mut k: usize = 0;
        while k < param_tys.len()
            invariant
                k <= param_tys@.len(),
                param_tys@.len() <= n_locals,
                uf.wf(),
                uf.len() == n_locals,
                forall|q: int| 0 <= q < n_locals ==> #[trigger] uf.repr_of(q) == q,
                forall|q: int| 0 <= q < k ==> #[trigger] uf.value_of(q) == Some(param_tys@[q]),
                forall|q: int| k <= q < n_locals ==> #[trigger] uf.value_of(q) is None,
            decreases param_tys@.len() - k,
        {
            let r = uf.resolve(k, param_tys[k]);
            proof {
                assert(r is Ok);
            }
            k += 1;
        }
        proof {
            let s = st_init(n_locals as nat, param_tys@);
            assert forall|i: int, j: int| 0 <= i < uf.len() && 0 <= j < uf.len() implies
                (#[trigger] uf.same_class(i, j) <==> s.rep[i] == s.rep[j]) by {
                assert(uf.repr_of(i) == i);
                assert(uf.repr_of(j) == j);
            }
            assert forall|i: int| 0 <= i < uf.len() implies #[trigger] uf.value_of(i)
                == s.val[i] by {
                if i < param_tys@.len() {
                    assert(uf.value_of(i) == Some(param_tys@[i]));
                }
            }
        }
        InferCtx { uf, arena: Vec::new(), diags: Vec::new(), span }
    }

    /// Hands the collected diagnostics out; the arena dies here.
    pub fn into_diags(self) -> (r: Vec<Diag>)
        ensures
            r@ == self.diags_view(),
    {
        self.diags
    }

    /// Places one typed node in the arena and returns its handle.
    fn push_node(&mut self, ty: ITy, kind: NodeKind) -> (idx: usize)
        ensures
            final(self).uf == old(self).uf,
            final(self).diags == old(self).diags,
            final(self).span == old(self).span,
            final(self).arena@.len() == old(self).arena@.len() + 1,
            idx == old(self).arena@.len(),
    {
        let idx = self.arena.len();
        self.arena.push(TyNode { ty, kind });
        idx
    }

    /// Solves one equality constraint online. If the two sides cannot
    /// agree, one `TypeMismatch` carrying the conflicting concrete types —
    /// as currently substituted — is recorded and the store is left as it
    /// was; inference continues.
    fn unify(&mut self, a: ITy, b: ITy)
        requires
            old(self).uf.wf(),
            ity_wf(a, old(self).uf.len()),
            ity_wf(b, old(self).uf.len()),
        ensures
            final(self).uf.wf(),
            final(self).uf.len() == old(self).uf.len(),
            final(self).span == old(self).span,
            final(self).arena == old(self).arena,
            old(self).diags@.len() <= final(self).diags@.len(),
            final(self).diags@.len() <= old(self).diags@.len() + 1,
            forall|q: int| 0 <= q < old(self).diags@.len()
                ==> #[trigger] final(self).diags@[q] == old(self).diags@[q],
            forall|q: int| old(self).diags@.len() <= q < final(self).diags@.len()
                ==> (#[trigger] final(self).diags@[q]).kind matches DiagKind::TypeMismatch(_, _),
            forall|i: int| 0 <= i < old(self).uf.len()
                && old(self).uf.value_of(i) is Some
                ==> #[trigger] final(self).uf.value_of(i) == old(self).uf.value_of(i),
            final(self).diags@.len() == old(self).diags@.len()
                <==> can_unify(old(self).uf, a, b),
            final(self).diags@.len() == old(self).diags@.len()
                ==> ity_unified(final(self).uf, a, b),
            forall|s: StoreModel| abstracts(old(self).uf, s)
                ==> abstracts(final(self).uf, st_unify(s, old(self).span, a, b).0)
                    && final(self).diags@ == old(self).diags@
                        + st_unify(s, old(self).span, a, b).1,
    {
        match (a, b) {
            (ITy::Conc(c), ITy::Conc(d)) => {
                if c != d {
                    self.diags.push(Diag { span: self.span, kind: DiagKind::TypeMismatch(c, d) });
                }
                proof {
                    assert forall|s: StoreModel| abstracts(old(self).uf, s) implies
                        abstracts(self.uf, st_unify(s, old(self).span, a, b).0)
                            && self.diags@ == old(self).diags@
                                + st_unify(s, old(self).span, a, b).1 by {
                        if c != d {
                            assert(self.diags@ =~= old(self).diags@
                                + st_unify(s, old(self).span, a, b).1);
                        } else {
                            assert(old(self).diags@ + Seq::<Diag>::empty() =~= old(self).diags@);
                        }
                    }
                }
            },
            (ITy::Meta(x), ITy::Conc(c)) => {
                match self.uf.resolve(x, c) {
                    Ok(()) => {
                        proof {
                            self.lemma_values_kept_by_class(*old(self), x as int);
                            assert forall|s: StoreModel| abstracts(old(self).uf, s) implies
                                abstracts(self.uf, st_unify(s, old(self).span, a, b).0)
                                    && self.diags@ == old(self).diags@
                                        + st_unify(s, old(self).span, a, b).1 by {
                                assert(old(self).uf.value_of(x as int) == s.val[x as int]);
                                lemma_abstracts_resolve(old(self).uf, self.uf, s, x as int, c);
                                assert(old(self).diags@ + Seq::<Diag>::empty()
                                    =~= old(self).diags@);
                            }
                        }
                    },
                    Err((u, v)) => {
                        self.diags.push(
                            Diag { span: self.span, kind: DiagKind::TypeMismatch(u, v) },
                        );
                        proof {
                            assert forall|s: StoreModel| abstracts(old(self).uf, s) implies
                                abstracts(self.uf, st_unify(s, old(self).span, a, b).0)
                                    && self.diags@ == old(self).diags@
                                        + st_unify(s, old(self).span, a, b).1 by {
                                assert(old(self).uf.value_of(x as int) == s.val[x as int]);
                                assert(self.diags@ =~= old(self).diags@
                                    + st_unify(s, old(self).span, a, b).1);
                            }
                        }
                    },
                }
            },
            (ITy::Conc(c), ITy::Meta(x)) => {
                match self.uf.resolve(x, c) {
                    Ok(()) => {
                        proof {
                            self.lemma_values_kept_by_class(*old(self), x as int);
                            assert forall|s: StoreModel| abstracts(old(self).uf, s) implies
                                abstracts(self.uf, st_unify(s, old(self).span, a, b).0)
                                    && self.diags@ == old(self).diags@
                                        + st_unify(s, old(self).span, a, b).1 by {
                                assert(old(self).uf.value_of(x as int) == s.val[x as int]);
                                lemma_abstracts_resolve(old(self).uf, self.uf, s, x as int, c);
                                assert(old(self).diags@ + Seq::<Diag>::empty()
                                    =~= old(self).diags@);
                            }
                        }
                    },
                    Err((u, v)) => {
                        self.diags.push(
                            Diag { span: self.span, kind: DiagKind::TypeMismatch(u, v) },
                        );
                        proof {
                            assert forall|s: StoreModel| abstracts(old(self).uf, s) implies
                                abstracts(self.uf, st_unify(s, old(self).span, a, b).0)
                                    && self.diags@ == old(self).diags@
                                        + st_unify(s, old(self).span, a, b).1 by {
                                assert(old(self).uf.value_of(x as int) == s.val[x as int]);
                                assert(self.diags@ =~= old(self).diags@
                                    + st_unify(s, old(self).span, a, b).1);
                            }
                        }
                    },
                }
            },
            (ITy::Meta(x), ITy::Meta(y)) => {
                match self.uf.union(x, y) {
                    Ok(()) => {
                        proof {
                            self.lemma_values_kept_by_class(*old(self), x as int);
                            self.lemma_values_kept_by_class(*old(self), y as int);
                            assert forall|s: StoreModel| abstracts(old(self).uf, s) implies
                                abstracts(self.uf, st_unify(s, old(self).span, a, b).0)
                                    && self.diags@ == old(self).diags@
                                        + st_unify(s, old(self).span, a, b).1 by {
                                assert(old(self).uf.value_of(x as int) == s.val[x as int]);
                                assert(old(self).uf.value_of(y as int) == s.val[y as int]);
                                assert(old(self).uf.same_class(x as int, y as int)
                                    <==> s.rep[x as int] == s.rep[y as int]);
                                if old(self).uf.same_class(x as int, y as int) {
                                    lemma_abstracts_union_same(
                                        old(self).uf,
                                        self.uf,
                                        s,
                                        x as int,
                                        y as int,
                                    );
                                } else {
                                    lemma_abstracts_union(
                                        old(self).uf,
                                        self.uf,
                                        s,
                                        x as int,
                                        y as int,
                                    );
                                }
                                assert(old(self).diags@ + Seq::<Diag>::empty()
                                    =~= old(self).diags@);
                            }
                        }
                    },
                    Err((u, v)) => {
                        self.diags.push(
                            Diag { span: self.span, kind: DiagKind::TypeMismatch(u, v) },
                        );
                        proof {
                            assert forall|s: StoreModel| abstracts(old(self).uf, s) implies
                                abstracts(self.uf, st_unify(s, old(self).span, a, b).0)
                                    && self.diags@ == old(self).diags@
                                        + st_unify(s, old(self).span, a, b).1 by {
                                assert(old(self).uf.value_of(x as int) == s.val[x as int]);
                                assert(old(self).uf.value_of(y as int) == s.val[y as int]);
                                assert(old(self).uf.same_class(x as int, y as int)
                                    <==> s.rep[x as int] == s.rep[y as int]);
                                assert(self.diags@ =~= old(self).diags@
                                    + st_unify(s, old(self).span, a, b).1);
                            }
                        }
                    },
                }
            },
        }
    }

    /// Already-resolved classes keep their type across a solving step: a
    /// member of `x`'s old class shared `x`'s old value, so forcing the
    /// class cannot have changed a resolved member.
    proof fn lemma_values_kept_by_class(self, pre: InferCtx, x: int)
        ensures
            forall|i: int| pre.uf.same_class(i, x) && pre.uf.value_of(i) is Some
                ==> #[trigger] pre.uf.value_of(i) == pre.uf.value_of(x),
    {
        assert forall|i: int| pre.uf.same_class(i, x) && pre.uf.value_of(i) is Some
            implies #[trigger] pre.uf.value_of(i) == pre.uf.value_of(x) by {
            pre.uf.lemma_same_class_same_value(i, x);
        }
    }

    /// Walks one bound expression, generating and solving its constraints
    /// exactly as the model walk says: for every model the store realized
    /// at entry, the store at exit realizes the walk's result, the walk's
    /// diagnostics are appended, and the walk's type is returned.
    fn lower_expr(&mut self, names: &Names, e: &Expr) -> (r: (usize, ITy))
        requires
            old(self).uf.wf(),
            expr_wf(*e, old(self).uf.len()),
        ensures
            final(self).uf.wf(),
            final(self).uf.len() == old(self).uf.len(),
            final(self).span == old(self).span,
            old(self).diags@.len() <= final(self).diags@.len(),
            forall|q: int| 0 <= q < old(self).diags@.len()
                ==> #[trigger] final(self).diags@[q] == old(self).diags@[q],
            forall|q: int| old(self).diags@.len() <= q < final(self).diags@.len()
                ==> infer_diag((#[trigger] final(self).diags@[q]).kind),
            forall|i: int| 0 <= i < old(self).uf.len()
                && old(self).uf.value_of(i) is Some
                ==> #[trigger] final(self).uf.value_of(i) == old(self).uf.value_of(i),
            ity_wf(r.1, final(self).uf.len()),
            forall|s: StoreModel| abstracts(old(self).uf, s)
                ==> abstracts(
                    final(self).uf,
                    infer_expr(names@, old(self).span, s, expr_model(*e)).0,
                )
                    && final(self).diags@ == old(self).diags@
                        + infer_expr(names@, old(self).span, s, expr_model(*e)).1
                    && r.1 == infer_expr(names@, old(self).span, s, expr_model(*e)).2,
        decreases *e, 0nat,
    {
        match e {
            Expr::Lit(n) => {
                let idx = self.push_node(ITy::Conc(Ty::Int), NodeKind::Lit(*n));
                proof {
                    assert(self.diags@ + Seq::<Diag>::empty() =~= self.diags@);
                }
                (idx, ITy::Conc(Ty::Int))
            },
            Expr::Var(i) => {
                let idx = self.push_node(ITy::Meta(*i), NodeKind::Var(*i));
                proof {
                    assert(self.diags@ + Seq::<Diag>::empty() =~= self.diags@);
                }
                (idx, ITy::Meta(*i))
            },
            Expr::Let(i, inner) => {
                let (ci, t) = self.lower_expr(names, &**inner);
                let ghost c1 = *self;
                self.unify(ITy::Meta(*i), t);
                let idx = self.push_node(ITy::Conc(Ty::Unit), NodeKind::Let(*i, ci));
                proof {
                    assert forall|s: StoreModel| abstracts(old(self).uf, s) implies
                        abstracts(
                            self.uf,
                            infer_expr(names@, old(self).span, s, expr_model(*e)).0,
                        )
                            && self.diags@ == old(self).diags@
                                + infer_expr(names@, old(self).span, s, expr_model(*e)).1
                            && ITy::Conc(Ty::Unit) == infer_expr(
                                names@,
                                old(self).span,
                                s,
                                expr_model(*e),
                            ).2 by {
                        let p = infer_expr(names@, old(self).span, s, expr_model(**inner));
                        assert(abstracts(c1.uf, p.0));
                        assert(c1.diags@ == old(self).diags@ + p.1);
                        assert(t == p.2);
                        let u = st_unify(p.0, old(self).span, ITy::Meta(*i), p.2);
                        assert(abstracts(self.uf, u.0));
                        assert(self.diags@ == c1.diags@ + u.1);
                        assert(old(self).diags@ + (p.1 + u.1)
                            =~= (old(self).diags@ + p.1) + u.1);
                    }
                }
                (idx, ITy::Conc(Ty::Unit))
            },
            Expr::Call(f, args) => {
                let mut param_tys: Vec<Ty> = Vec::new();
                let mut ret: Ty = Ty::Unit;
                let mut known: bool = false;
                match names.get(*f) {
                    Some(ent) => match ent {
                        Entity::Op { params, ret: r0 } => {
                            param_tys = copy_tys(params);
                            ret = *r0;
                            known = true;
                        },
                        _ => {},
                    },
                    None => {},
                }
                if !known {
                    // the builder checked this head, but the table is
                    // consulted afresh here; a miss is reported, not assumed away
                    self.diags.push(Diag { span: self.span, kind: DiagKind::UnboundName(*f) });
                } else if args.len() != param_tys.len() {
                    self.diags.push(Diag {
                        span: self.span,
                        kind: DiagKind::ArityMismatch(*f, param_tys.len(), args.len()),
                    });
                }
                let ghost c1 = *self;
                let mut children: Vec<usize> = Vec::new();
                self.lower_args(names, args, 0, &param_tys, known, &mut children);
                proof {
                    crate::build_ast::lemma_exprs_model_len(args@, 0);
                    assert forall|s: StoreModel| abstracts(old(self).uf, s) implies
                        abstracts(
                            self.uf,
                            infer_expr(names@, old(self).span, s, expr_model(*e)).0,
                        )
                            && self.diags@ == old(self).diags@
                                + infer_expr(names@, old(self).span, s, expr_model(*e)).1
                            && ITy::Conc(ret) == infer_expr(
                                names@,
                                old(self).span,
                                s,
                                expr_model(*e),
                            ).2 by {
                        if !known {
                            assert(param_tys@ =~= Seq::<Ty>::empty());
                        }
                        assert(abstracts(c1.uf, s));
                        let q = infer_args(
                            names@,
                            old(self).span,
                            s,
                            exprs_model(args@),
                            0,
                            param_tys@,
                            known,
                        );
                        assert(abstracts(self.uf, q.0));
                        assert(self.diags@ == c1.diags@ + q.1);
                        if !known {
                            assert(c1.diags@ =~= old(self).diags@ + seq![
                                Diag { span: old(self).span, kind: DiagKind::UnboundName(*f) }
                            ]);
                        } else if args@.len() != param_tys@.len() {
                            assert(c1.diags@ =~= old(self).diags@ + seq![
                                Diag {
                                    span: old(self).span,
                                    kind: DiagKind::ArityMismatch(
                                        *f,
                                        param_tys@.len() as usize,
                                        args@.len() as usize,
                                    ),
                                }
                            ]);
                        } else {
                            assert(old(self).diags@ + Seq::<Diag>::empty()
                                =~= old(self).diags@);
                        }
                        assert(old(self).diags@
                            + infer_expr(names@, old(self).span, s, expr_model(*e)).1
                            =~= c1.diags@ + q.1);
                    }
                }
                let idx = self.push_node(ITy::Conc(ret), NodeKind::Call(*f, children));
                (idx, ITy::Conc(ret))
            },
        }
    }

    /// Walks a call's arguments from position `k` on, placing each child's
    /// handle, and equating each argument's type with the declared
    /// parameter type while the operation is known and has a parameter
    /// left.
    fn lower_args(
        &mut self,
        names: &Names,
        args: &Vec<Expr>,
        k: usize,
        params: &Vec<Ty>,
        known: bool,
        children: &mut Vec<usize>,
    )
        requires
            old(self).uf.wf(),
            k <= args@.len(),
            forall|j: int| k <= j < args@.len()
                ==> expr_wf(#[trigger] args@[j], old(self).uf.len()),
        ensures
            final(self).uf.wf(),
            final(self).uf.len() == old(self).uf.len(),
            final(self).span == old(self).span,
            old(self).diags@.len() <= final(self).diags@.len(),
            forall|q: int| 0 <= q < old(self).diags@.len()
                ==> #[trigger] final(self).diags@[q] == old(self).diags@[q],
            forall|q: int| old(self).diags@.len() <= q < final(self).diags@.len()
                ==> infer_diag((#[trigger] final(self).diags@[q]).kind),
            forall|i: int| 0 <= i < old(self).uf.len()
                && old(self).uf.value_of(i) is Some
                ==> #[trigger] final(self).uf.value_of(i) == old(self).uf.value_of(i),
            forall|s: StoreModel| abstracts(old(self).uf, s)
                ==> abstracts(
                    final(self).uf,
                    infer_args(
                        names@,
                        old(self).span,
                        s,
                        exprs_model(args@),
                        k as int,
                        params@,
                        known,
                    ).0,
                )
                    && final(self).diags@ == old(self).diags@
                        + infer_args(
                            names@,
                            old(self).span,
                            s,
                            exprs_model(args@),
                            k as int,
                            params@,
                            known,
                        ).1,
        decreases *args, args@.len() - k,
    {
        proof {
            crate::build_ast::lemma_exprs_model_len(args@, 0);
        }
        if k == args.len() {
            proof {
                assert(self.diags@ + Seq::<Diag>::empty() =~= self.diags@);
            }
            return;
        }
        proof {
            assert(decreases_to!(*args => args@[k as int])) by {
                assert(decreases_to!(*args => args@));
            }
            crate::build_ast::lemma_exprs_model_index(args@, 0, k as int);
        }
        let (ci, at) = self.lower_expr(names, &args[k]);
        let ghost c1 = *self;
        if known && k < params.len() {
            self.unify(at, ITy::Conc(params[k]));
        }
        let ghost c2 = *self;
        children.push(ci);
        self.lower_args(names, args, k + 1, params, known, children);
        proof {
            assert forall|s: StoreModel| abstracts(old(self).uf, s) implies
                abstracts(
                    self.uf,
                    infer_args(
                        names@,
                        old(self).span,
                        s,
                        exprs_model(args@),
                        k as int,
                        params@,
                        known,
                    ).0,
                )
                    && self.diags@ == old(self).diags@
                        + infer_args(
                            names@,
                            old(self).span,
                            s,
                            exprs_model(args@),
                            k as int,
                            params@,
                            known,
                        ).1 by {
                let em = exprs_model(args@);
                let p = infer_expr(names@, old(self).span, s, em[k as int]);
                assert(abstracts(c1.uf, p.0));
                assert(c1.diags@ == old(self).diags@ + p.1);
                assert(at == p.2);
                let u = if known && (k as int) < params@.len() {
                    st_unify(p.0, old(self).span, p.2, ITy::Conc(params@[k as int]))
                } else {
                    (p.0, Seq::<Diag>::empty())
                };
                if known && k < params.len() {
                    assert(abstracts(c2.uf, u.0));
                    assert(c2.diags@ == c1.diags@ + u.1);
                } else {
                    assert(c1.diags@ + Seq::<Diag>::empty() =~= c1.diags@);
                }
                let q2 = infer_args(
                    names@,
                    old(self).span,
                    u.0,
                    em,
                    k as int + 1,
                    params@,
                    known,
                );
                assert(abstracts(self.uf, q2.0));
                assert(self.diags@ == c2.diags@ + q2.1);
                assert(old(self).diags@ + (p.1 + u.1 + q2.1)
                    =~= ((old(self).diags@ + p.1) + u.1) + q2.1);
            }
        }
    }

    /// Walks a body from position `k` on, returning the type of the last
    /// expression walked (the incoming `last` when none is left).
    fn lower_body(&mut self, names: &Names, body: &Vec<Expr>, k: usize, last: ITy) -> (r: ITy)
        requires
            old(self).uf.wf(),
            k <= body@.len(),
            ity_wf(last, old(self).uf.len()),
            forall|j: int| k <= j < body@.len()
                ==> expr_wf(#[trigger] body@[j], old(self).uf.len()),
        ensures
            final(self).uf.wf(),
            final(self).uf.len() == old(self).uf.len(),
            final(self).span == old(self).span,
            old(self).diags@.len() <= final(self).diags@.len(),
            forall|q: int| 0 <= q < old(self).diags@.len()
                ==> #[trigger] final(self).diags@[q] == old(self).diags@[q],
            forall|q: int| old(self).diags@.len() <= q < final(self).diags@.len()
                ==> infer_diag((#[trigger] final(self).diags@[q]).kind),
            forall|i: int| 0 <= i < old(self).uf.len()
                && old(self).uf.value_of(i) is Some
                ==> #[trigger] final(self).uf.value_of(i) == old(self).uf.value_of(i),
            ity_wf(r, final(self).uf.len()),
            forall|s: StoreModel| abstracts(old(self).uf, s)
                ==> abstracts(
                    final(self).uf,
                    infer_body(
                        names@,
                        old(self).span,
                        s,
                        exprs_model(body@),
                        k as int,
                        last,
                    ).0,
                )
                    && final(self).diags@ == old(self).diags@
                        + infer_body(
                            names@,
                            old(self).span,
                            s,
                            exprs_model(body@),
                            k as int,
                            last,
                        ).1
                    && r == infer_body(
                        names@,
                        old(self).span,
                        s,
                        exprs_model(body@),
                        k as int,
                        last,
                    ).2,
        decreases *body, body@.len() - k,
    {
        proof {
            crate::build_ast::lemma_exprs_model_len(body@, 0);
        }
        if k == body.len() {
            proof {
                assert(self.diags@ + Seq::<Diag>::empty() =~= self.diags@);
            }
            return last;
        }
        proof {
            assert(decreases_to!(*body => body@[k as int])) by {
                assert(decreases_to!(*body => body@));
            }
            crate::build_ast::lemma_exprs_model_index(body@, 0, k as int);
        }
        let (_, t) = self.lower_expr(names, &body[k]);
        let ghost c1 = *self;
        let r = self.lower_body(names, body, k + 1, t);
        proof {
            assert forall|s: StoreModel| abstracts(old(self).uf, s) implies
                abstracts(
                    self.uf,
                    infer_body(
                        names@,
                        old(self).span,
                        s,
                        exprs_model(body@),
                        k as int,
                        last,
                    ).0,
                )
                    && self.diags@ == old(self).diags@
                        + infer_body(
                            names@,
                            old(self).span,
                            s,
                            exprs_model(body@),
                            k as int,
                            last,
                        ).1
                    && r == infer_body(
                        names@,
                        old(self).span,
                        s,
                        exprs_model(body@),
                        k as int,
                        last,
                    ).2 by {
                let em = exprs_model(body@);
                let p = infer_expr(names@, old(self).span, s, em[k as int]);
                assert(abstracts(c1.uf, p.0));
                assert(c1.diags@ == old(self).diags@ + p.1);
                assert(t == p.2);
                let q2 = infer_body(names@, old(self).span, p.0, em, k as int + 1, p.2);
                assert(abstracts(self.uf, q2.0));
                assert(self.diags@ == c1.diags@ + q2.1);
                assert(r == q2.2);
                assert(old(self).diags@ + (p.1 + q2.1)
                    =~= (old(self).diags@ + p.1) + q2.1);
            }
        }
        r
    }

    /// Lowers one pre-typed item, exactly as the model walk says: the
    /// parameters were seeded at construction, the body's constraints are
    /// generated and solved in order, and the last body expression (or
    /// unit, for an empty body) is equated with the declared return type.
    /// For every model the store realized at entry, the diagnostics
    /// appended are the walk's, in raising order, and the store at exit
    /// realizes the walk's result. The entity table is only read; all
    /// persistent effects are the diagnostics handed out at the end.
    pub fn lower_item(&mut self, names: &Names, pre: &PreItem)
        requires
            old(self).wf(),
            pre_wf(*pre, old(self).n_vars()),
        ensures
            final(self).wf(),
            final(self).n_vars() == old(self).n_vars(),
            old(self).diags_view().len() <= final(self).diags_view().len(),
            forall|q: int| 0 <= q < old(self).diags_view().len()
                ==> #[trigger] final(self).diags_view()[q] == old(self).diags_view()[q],
            forall|q: int| old(self).diags_view().len() <= q < final(self).diags_view().len()
                ==> infer_diag((#[trigger] final(self).diags_view()[q]).kind),
            forall|i: int| 0 <= i < old(self).n_vars()
                && old(self).meta_value(i) is Some
                ==> #[trigger] final(self).meta_value(i) == old(self).meta_value(i),
            (pre matches PreItem::Typedef { .. })
                ==> final(self).diags_view() == old(self).diags_view(),
            (match *pre {
                PreItem::Proc { ret, body, .. } => body@.len() == 0 && ret == Ty::Unit,
                PreItem::Typedef { .. } => false,
            }) ==> final(self).diags_view() == old(self).diags_view(),
            forall|s: StoreModel| abstracts(old(self).store(), s) ==> (match *pre {
                PreItem::Proc { ret, body, .. } => abstracts(
                    final(self).store(),
                    infer_proc(names@, old(self).ctx_span(), s, exprs_model(body@), ret).0,
                )
                    && final(self).diags_view() == old(self).diags_view()
                        + infer_proc(
                            names@,
                            old(self).ctx_span(),
                            s,
                            exprs_model(body@),
                            ret,
                        ).1,
                PreItem::Typedef { .. } => abstracts(final(self).store(), s)
                    && final(self).diags_view() == old(self).diags_view(),
            }),
    {
        match pre {
            PreItem::Proc { ret, body, .. } => {
                let last = self.lower_body(names, body, 0, ITy::Conc(Ty::Unit));
                let ghost c1 = *self;
                self.unify(last, ITy::Conc(*ret));
                proof {
                    assert forall|s: StoreModel| abstracts(old(self).uf, s) implies
                        abstracts(
                            self.uf,
                            infer_proc(
                                names@,
                                old(self).span,
                                s,
                                exprs_model(body@),
                                *ret,
                            ).0,
                        )
                            && self.diags@ == old(self).diags@
                                + infer_proc(
                                    names@,
                                    old(self).span,
                                    s,
                                    exprs_model(body@),
                                    *ret,
                                ).1 by {
                        let b = infer_body(
                            names@,
                            old(self).span,
                            s,
                            exprs_model(body@),
                            0,
                            ITy::Conc(Ty::Unit),
                        );
                        assert(abstracts(c1.uf, b.0));
                        assert(c1.diags@ == old(self).diags@ + b.1);
                        assert(last == b.2);
                        let u = st_unify(b.0, old(self).span, b.2, ITy::Conc(*ret));
                        assert(abstracts(self.uf, u.0));
                        assert(self.diags@ == c1.diags@ + u.1);
                        assert(old(self).diags@ + (b.1 + u.1)
                            =~= (old(self).diags@ + b.1) + u.1);
                    }
                    if body@.len() == 0 && *ret == Ty::Unit {
                        lemma_model_of(old(self).uf);
                        crate::build_ast::lemma_exprs_model_len(body@, 0);
                        assert(Seq::<Diag>::empty() + Seq::<Diag>::empty()
                            =~= Seq::<Diag>::empty());
                        assert(old(self).diags@ + Seq::<Diag>::empty() =~= old(self).diags@);
                    }
                }
            },
            PreItem::Typedef { .. } => {},
        }
    }
}

/// Copies a declared parameter type list out of the entity table.
fn copy_tys(v: &Vec<Ty>) -> (r: Vec<Ty>)
    ensures
        r@ == v@,
{
    let mut r: Vec<Ty> = Vec::new();
    let mut i: usize = 0;
    while i < v.len()
        invariant
            i <= v@.len(),
            r@ == v@.take(i as int),
        decreases v@.len() - i,
    {
        r.push(v[i]);
        proof {
            assert(v@.take(i as int).push(v@[i as int]) =~= v@.take(i + 1));
        }
        i += 1;
    }
    proof {
        assert(v@.take(v@.len() as int) =~= v@);
    }
    r
}

/// The kinds an inference-stage diagnostic can have.
pub open spec fn infer_diag(k: DiagKind) -> bool {
    match k {
        DiagKind::TypeMismatch(_, _) => true,
        DiagKind::ArityMismatch(_, _, _) => true,
        DiagKind::UnboundName(_) => true,
        _ => false,
    }
}

} // verus!
