//! The AST builder: lowers one syntactic item into a pre-typed tree,
//! binding every identifier occurrence to a local variable slot or checking
//! it against the entity table, and collecting the item's local variable
//! names and referenced globals.
//!
//! The builder never mutates the entity table. A binding failure yields one
//! diagnostic and the caller skips this single item; sibling items keep
//! their own builders and are unaffected.

use vstd::prelude::*;

use crate::parser::{Item, SynExpr};
use crate::tables::Names;
use crate::types::{AtomId, Diag, DiagKind, Entity, EntityModel, Span, Ty};

verus! {

/// A bound body expression: identifier occurrences resolved to local slots,
/// call heads checked to name operations.
#[derive(Debug)]
pub enum Expr {
    /// An integer literal.
    Lit(u64),
    /// A use of local variable slot `i`.
    Var(usize),
    /// A binding of local variable slot `i` to the value of an expression.
    Let(usize, Box<Expr>),
    /// A call of a declared operation.
    Call(AtomId, Vec<Expr>),
}

/// Every variable slot mentioned in `e` is below `n`.
pub open spec fn expr_wf(e: Expr, n: nat) -> bool
    decreases e,
{
    match e {
        Expr::Lit(_) => true,
        Expr::Var(i) => i < n,
        Expr::Let(i, inner) => i < n && expr_wf(*inner, n),
        Expr::Call(_, args) => forall|k: int| 0 <= k < args@.len()
            ==> expr_wf(#[trigger] args@[k], n),
    }
}

/// Every variable slot mentioned in `body` is below `n`.
pub open spec fn body_wf(body: Seq<Expr>, n: nat) -> bool {
    forall|k: int| 0 <= k < body.len() ==> expr_wf(#[trigger] body[k], n)
}

/// Slots only ever grow, so well-formedness is kept.
pub proof fn lemma_expr_wf_mono(e: Expr, n: nat, m: nat)
    requires
        expr_wf(e, n),
        n <= m,
    ensures
        expr_wf(e, m),
    decreases e,
{
    match e {
        Expr::Let(_, inner) => {
            lemma_expr_wf_mono(*inner, n, m);
        },
        Expr::Call(_, args) => {
            assert forall|k: int| 0 <= k < args@.len() implies
                expr_wf(#[trigger] args@[k], m) by {
                lemma_expr_wf_mono(args@[k], n, m);
            }
        },
        _ => {},
    }
}

/// The mathematical model of a bound expression: the same tree with call
/// arguments as a sequence.
pub enum SpecExpr {
    Lit(u64),
    Var(usize),
    Let(usize, Box<SpecExpr>),
    Call(AtomId, Seq<SpecExpr>),
}

/// The model of one bound expression.
pub open spec fn expr_model(e: Expr) -> SpecExpr
    decreases e, 0nat,
{
    match e {
        Expr::Lit(n) => SpecExpr::Lit(n),
        Expr::Var(i) => SpecExpr::Var(i),
        Expr::Let(i, inner) => SpecExpr::Let(i, Box::new(expr_model(*inner))),
        Expr::Call(f, args) => SpecExpr::Call(f, exprs_model_from(args@, 0)),
    }
}

/// The models of the expressions of `s` from position `k` on.
pub open spec fn exprs_model_from(s: Seq<Expr>, k: int) -> Seq<SpecExpr>
    decreases s, s.len() - k,
{
    if k < 0 || k >= s.len() {
        Seq::empty()
    } else {
        seq![expr_model(s[k])] + exprs_model_from(s, k + 1)
    }
}

/// The models of a sequence of bound expressions.
pub open spec fn exprs_model(s: Seq<Expr>) -> Seq<SpecExpr> {
    exprs_model_from(s, 0)
}

/// A model sequence is as long as what it models.
pub proof fn lemma_exprs_model_len(s: Seq<Expr>, k: int)
    requires
        0 <= k <= s.len(),
    ensures
        exprs_model_from(s, k).len() == s.len() - k,
    decreases s.len() - k,
{
    if k < s.len() {
        lemma_exprs_model_len(s, k + 1);
    }
}

/// A model sequence models pointwise.
pub proof fn lemma_exprs_model_index(s: Seq<Expr>, k: int, j: int)
    requires
        0 <= k <= j < s.len(),
    ensures
        exprs_model_from(s, k)[j - k] == expr_model(s[j]),
    decreases j - k,
{
    lemma_exprs_model_len(s, k + 1);
    if j > k {
        lemma_exprs_model_index(s, k + 1, j);
    }
}

/// Model sequences agree wherever the underlying suffixes agree.
proof fn lemma_exprs_model_agree(s: Seq<Expr>, t: Seq<Expr>, ks: int, kt: int)
    requires
        0 <= ks <= s.len(),
        0 <= kt <= t.len(),
        s.len() - ks == t.len() - kt,
        forall|j: int| 0 <= j < s.len() - ks ==> #[trigger] s[ks + j] == t[kt + j],
    ensures
        exprs_model_from(s, ks) == exprs_model_from(t, kt),
    decreases s.len() - ks,
{
    if ks < s.len() {
        assert(s[ks] == t[kt]) by {
            assert(s[ks + 0] == t[kt + 0]);
        }
        assert forall|j: int| 0 <= j < s.len() - (ks + 1) implies #[trigger] s[(ks + 1) + j]
            == t[(kt + 1) + j] by {
            assert(s[ks + (j + 1)] == t[kt + (j + 1)]);
        }
        lemma_exprs_model_agree(s, t, ks + 1, kt + 1);
    }
}

/// The innermost local slot bound to `a`, honouring shadowing.
pub open spec fn local_slot(locals: Seq<AtomId>, a: AtomId) -> Option<int>
    decreases locals.len(),
{
    if locals.len() == 0 {
        None
    } else if locals.last() == a {
        Some(locals.len() - 1)
    } else {
        local_slot(locals.drop_last(), a)
    }
}

/// A slot that binds `a` with no later binding of `a` is the innermost one.
proof fn lemma_local_slot_found(locals: Seq<AtomId>, a: AtomId, i: int)
    requires
        0 <= i < locals.len(),
        locals[i] == a,
        forall|k: int| i < k < locals.len() ==> locals[k] != a,
    ensures
        local_slot(locals, a) == Some(i),
    decreases locals.len(),
{
    if i < locals.len() - 1 {
        let t = locals.drop_last();
        assert(t[i] == locals[i]);
        assert forall|k: int| i < k < t.len() implies t[k] != a by {
            assert(t[k] == locals[k]);
        }
        lemma_local_slot_found(t, a, i);
    }
}

/// A symbol bound by no slot has no innermost slot.
proof fn lemma_local_slot_missing(locals: Seq<AtomId>, a: AtomId)
    requires
        forall|k: int| 0 <= k < locals.len() ==> locals[k] != a,
    ensures
        local_slot(locals, a) is None,
    decreases locals.len(),
{
    if locals.len() > 0 {
        let t = locals.drop_last();
        assert forall|k: int| 0 <= k < t.len() implies t[k] != a by {
            assert(t[k] == locals[k]);
        }
        lemma_local_slot_missing(t, a);
    }
}

/// The binding judgment for one expression under the locals in scope: the
/// bound tree and the locals afterwards (`let` appends a slot), or the
/// identifier that does not bind — to a local slot, or, for a call head,
/// to an operation entity.
pub open spec fn bind_expr(m: Map<AtomId, EntityModel>, locals: Seq<AtomId>, e: SynExpr)
    -> Result<(SpecExpr, Seq<AtomId>), AtomId>
    decreases e, 0nat,
{
    match e {
        SynExpr::Lit(n) => Ok((SpecExpr::Lit(n), locals)),
        SynExpr::Ident(a) => match local_slot(locals, a) {
            Some(i) => Ok((SpecExpr::Var(i as usize), locals)),
            None => Err(a),
        },
        SynExpr::Let(x, inner) => match bind_expr(m, locals, *inner) {
            Ok(p) => Ok((SpecExpr::Let(p.1.len() as usize, Box::new(p.0)), p.1.push(x))),
            Err(a) => Err(a),
        },
        SynExpr::Call(f, args) => if m.contains_key(f) && (m[f] matches EntityModel::Op {
            ..
        }) {
            match bind_args(m, locals, args@, 0) {
                Ok(q) => Ok((SpecExpr::Call(f, q.0), q.1)),
                Err(a) => Err(a),
            }
        } else {
            Err(f)
        },
    }
}

/// Binds the expressions of `args` from position `k` on, in order, each
/// under the locals the one before it left behind.
pub open spec fn bind_args(m: Map<AtomId, EntityModel>, locals: Seq<AtomId>, args: Seq<SynExpr>, k: int)
    -> Result<(Seq<SpecExpr>, Seq<AtomId>), AtomId>
    decreases args, args.len() - k,
{
    if k < 0 || k >= args.len() {
        Ok((Seq::empty(), locals))
    } else {
        match bind_expr(m, locals, args[k]) {
            Ok(p) => match bind_args(m, p.1, args, k + 1) {
                Ok(q) => Ok((seq![p.0] + q.0, q.1)),
                Err(a) => Err(a),
            },
            Err(a) => Err(a),
        }
    }
}

/// The parameter names of a declaration, in slot order.
pub open spec fn param_names(params: Seq<(AtomId, Ty)>) -> Seq<AtomId> {
    Seq::new(params.len(), |k: int| params[k].0)
}

/// Whether a whole item binds: every type in the signature denotes a type,
/// and every identifier occurrence of the body binds under the scope the
/// parameters open.
pub open spec fn bind_item_ok(m: Map<AtomId, EntityModel>, it: Item) -> bool {
    match it {
        Item::Proc { params, ret, body, .. } => (forall|k: int| 0 <= k < params@.len()
            ==> ty_ok(m, (#[trigger] params@[k]).1))
            && ty_ok(m, ret)
            && bind_args(m, param_names(params@), body@, 0) is Ok,
        Item::Typedef { def, .. } => ty_ok(m, def),
    }
}

/// One item's pre-typed tree, ready for the inference context.
#[derive(Debug)]
pub enum PreItem {
    /// An operation: its name, parameter slots (which are the first local
    /// slots, with their declared types), declared return type, and body.
    Proc { name: AtomId, param_tys: Vec<Ty>, ret: Ty, body: Vec<Expr> },
    /// A named type, with its checked definition.
    Typedef { name: AtomId, def: Ty },
}

/// The pre-typed tree only mentions slots the builder created, and its
/// parameter slots come first.
pub open spec fn pre_wf(pre: PreItem, n: nat) -> bool {
    match pre {
        PreItem::Proc { param_tys, body, .. } => param_tys@.len() <= n && body_wf(body@, n),
        PreItem::Typedef { .. } => true,
    }
}

/// Whether `t` denotes a type under table `m`: primitives always, a named
/// type exactly when its symbol is declared as a type entity.
pub open spec fn ty_ok(m: Map<AtomId, EntityModel>, t: Ty) -> bool {
    match t {
        Ty::Named(a) => m.contains_key(a) && (m[a] matches EntityModel::Type { .. }),
        _ => true,
    }
}

/// Checks that a parsed type denotes a type. A name bound to no entity, or
/// to an operation where a type is required, is reported as unbound.
fn check_ty(names: &Names, sp: Span, t: Ty) -> (r: Result<(), Diag>)
    ensures
        match r {
            Ok(()) => ty_ok(names@, t),
            Err(d) => !ty_ok(names@, t) && d.span == sp
                && (t matches Ty::Named(a) && d.kind == DiagKind::UnboundName(a)),
        },
{
    match t {
        Ty::Named(a) => match names.get(a) {
            Some(e) => match e {
                Entity::Type { .. } => Ok(()),
                _ => Err(Diag { span: sp, kind: DiagKind::UnboundName(a) }),
            },
            None => Err(Diag { span: sp, kind: DiagKind::UnboundName(a) }),
        },
        _ => Ok(()),
    }
}

/// The AST builder for one item: the local variable name table (one entry
/// per slot, parameters first) and the globals the body references.
pub struct BuildAst {
    /// The name of each local variable slot, in slot order.
    pub var_names: Vec<AtomId>,
    /// The operations the item's body references, in first-use order.
    pub globals: Vec<AtomId>,
}

impl BuildAst {
    /// A fresh builder for one item.
    pub fn new() -> (r: BuildAst)
        ensures
            r.var_names@.len() == 0,
            r.globals@.len() == 0,
    {
        BuildAst { var_names: Vec::new(), globals: Vec::new() }
    }

    /// The innermost local slot bound to `a`, honouring shadowing.
    fn lookup_local(&self, a: AtomId) -> (r: Option<usize>)
        ensures
            match r {
                Some(i) => i < self.var_names@.len() && self.var_names@[i as int] == a
                    && (forall|k: int| i < k < self.var_names@.len()
                        ==> self.var_names@[k] != a),
                None => !self.var_names@.contains(a),
            },
    {
        let mut i: usize = self.var_names.len();
        while i > 0
            invariant
                i <= self.var_names@.len(),
                forall|k: int| i <= k < self.var_names@.len()
                    ==> self.var_names@[k] != a,
            decreases i,
        {
            i -= 1;
            if self.var_names[i] == a {
                return Some(i);
            }
        }
        proof {
            assert(!self.var_names@.contains(a));
        }
        None
    }

    /// Binds one body expression, exactly as the binding judgment says: on
    /// success the result models `bind_expr` and the local table is the
    /// judgment's; on failure the diagnostic names the judgment's unbound
    /// identifier and the caller skips this item.
    fn build_expr(&mut self, names: &Names, sp: Span, e: &SynExpr) -> (r: Result<Expr, Diag>)
        ensures
            old(self).var_names@.is_prefix_of(final(self).var_names@),
            match r {
                Ok(ex) => (bind_expr(names@, old(self).var_names@, *e) matches Ok(p)
                    && expr_model(ex) == p.0
                    && final(self).var_names@ == p.1)
                    && expr_wf(ex, final(self).var_names@.len() as nat),
                Err(d) => d.span == sp
                    && (bind_expr(names@, old(self).var_names@, *e) matches Err(a)
                        && d.kind == DiagKind::UnboundName(a)),
            },
        decreases *e, 0nat,
    {
        match e {
            SynExpr::Lit(n) => Ok(Expr::Lit(*n)),
            SynExpr::Ident(a) => match self.lookup_local(*a) {
                Some(i) => {
                    proof {
                        lemma_local_slot_found(self.var_names@, *a, i as int);
                    }
                    Ok(Expr::Var(i))
                },
                None => {
                    proof {
                        lemma_local_slot_missing(self.var_names@, *a);
                    }
                    Err(Diag { span: sp, kind: DiagKind::UnboundName(*a) })
                },
            },
            SynExpr::Let(x, inner) => {
                let ex = match self.build_expr(names, sp, &**inner) {
                    Ok(ex) => ex,
                    Err(d) => {
                        return Err(d);
                    },
                };
                let ghost n_before = self.var_names@.len() as nat;
                let i = self.var_names.len();
                self.var_names.push(*x);
                proof {
                    lemma_expr_wf_mono(ex, n_before, self.var_names@.len() as nat);
                }
                Ok(Expr::Let(i, Box::new(ex)))
            },
            SynExpr::Call(f, sargs) => {
                match names.get(*f) {
                    Some(ent) => match ent {
                        Entity::Op { .. } => {},
                        _ => {
                            return Err(Diag { span: sp, kind: DiagKind::UnboundName(*f) });
                        },
                    },
                    None => {
                        return Err(Diag { span: sp, kind: DiagKind::UnboundName(*f) });
                    },
                }
                self.globals.push(*f);
                match self.build_args(names, sp, sargs, 0) {
                    Ok(args) => Ok(Expr::Call(*f, args)),
                    Err(d) => Err(d),
                }
            },
        }
    }

    /// Binds the call arguments (or body expressions) of `sargs` from
    /// position `k` on, in order, threading the growing local table.
    fn build_args(&mut self, names: &Names, sp: Span, sargs: &Vec<SynExpr>, k: usize)
        -> (r: Result<Vec<Expr>, Diag>)
        requires
            k <= sargs@.len(),
        ensures
            old(self).var_names@.is_prefix_of(final(self).var_names@),
            match r {
                Ok(v) => (bind_args(names@, old(self).var_names@, sargs@, k as int) matches Ok(q)
                    && exprs_model(v@) == q.0
                    && final(self).var_names@ == q.1)
                    && (forall|j: int| 0 <= j < v@.len()
                        ==> expr_wf(#[trigger] v@[j], final(self).var_names@.len() as nat)),
                Err(d) => d.span == sp
                    && (bind_args(names@, old(self).var_names@, sargs@, k as int) matches Err(a)
                        && d.kind == DiagKind::UnboundName(a)),
            },
        decreases *sargs, sargs@.len() - k,
    {
        if k == sargs.len() {
            let v: Vec<Expr> = Vec::new();
            proof {
                assert(exprs_model(v@) =~= Seq::<SpecExpr>::empty());
            }
            return Ok(v);
        }
        proof {
            assert(decreases_to!(*sargs => sargs@[k as int])) by {
                assert(decreases_to!(*sargs => sargs@));
            }
        }
        let ex = match self.build_expr(names, sp, &sargs[k]) {
            Ok(ex) => ex,
            Err(d) => {
                return Err(d);
            },
        };
        let ghost n_mid = self.var_names@.len() as nat;
        let mut v = match self.build_args(names, sp, sargs, k + 1) {
            Ok(v) => v,
            Err(d) => {
                return Err(d);
            },
        };
        proof {
            lemma_expr_wf_mono(ex, n_mid, self.var_names@.len() as nat);
        }
        let ghost rest = v@;
        v.insert(0, ex);
        proof {
            assert forall|j: int| 0 <= j < rest.len() implies v@[1 + j] == rest[j] by {
                assert(v@ == rest.insert(0, ex));
            }
            lemma_exprs_model_agree(v@, rest, 1, 0);
            assert(exprs_model(v@) =~= seq![expr_model(ex)] + exprs_model(rest));
        }
        Ok(v)
    }

    /// Lowers one syntactic item against the current entity table, which is
    /// only read. On success the pre-typed tree mentions only this
    /// builder's slots, parameters first, and carries the item's declared
    /// signature unchanged, with every type in it checked to denote a type.
    #[verifier::loop_isolation(false)]
    pub fn build_item(&mut self, names: &Names, sp: Span, it: &Item) -> (r: Result<PreItem, Diag>)
        requires
            old(self).var_names@.len() == 0,
        ensures
            match r {
                Ok(pre) => pre_wf(pre, final(self).var_names@.len() as nat)
                    && (match (pre, *it) {
                        (
                            PreItem::Proc { name: n1, param_tys, ret: r1, body: b1 },
                            Item::Proc { name: n2, params, ret: r2, body: b2 },
                        ) => n1 == n2 && r1 == r2 && ty_ok(names@, r1)
                            && param_tys@.len() == params@.len()
                            && (forall|q: int| 0 <= q < params@.len()
                                ==> #[trigger] param_tys@[q] == params@[q].1
                                    && ty_ok(names@, param_tys@[q]))
                            && (bind_args(names@, param_names(params@), b2@, 0) matches Ok(q)
                                && exprs_model(b1@) == q.0
                                && final(self).var_names@ == q.1),
                        (
                            PreItem::Typedef { name: n1, def: d1 },
                            Item::Typedef { name: n2, def: d2 },
                        ) => n1 == n2 && d1 == d2 && ty_ok(names@, d1),
                        _ => false,
                    }),
                Err(d) => d.span == sp && (d.kind matches DiagKind::UnboundName(_)),
            },
            r is Ok <==> bind_item_ok(names@, *it),
    {
        match it {
            Item::Proc { name, params, ret, body } => {
                let mut param_tys: Vec<Ty> = Vec::new();
                let mut k: usize = 0;
                while k < params.len()
                    invariant
                        k <= params@.len(),
                        param_tys@.len() == k,
                        self.var_names@.len() == k,
                        self.globals@ == old(self).globals@,
                        forall|q: int| 0 <= q < k
                            ==> #[trigger] param_tys@[q] == params@[q].1
                                && ty_ok(names@, param_tys@[q]),
                        forall|q: int| 0 <= q < k
                            ==> #[trigger] self.var_names@[q] == params@[q].0,
                    decreases params@.len() - k,
                {
                    let (x, t) = params[k];
                    match check_ty(names, sp, t) {
                        Ok(()) => {},
                        Err(d) => {
                            return Err(d);
                        },
                    }
                    self.var_names.push(x);
                    param_tys.push(t);
                    k += 1;
                }
                match check_ty(names, sp, *ret) {
                    Ok(()) => {},
                    Err(d) => {
                        return Err(d);
                    },
                }
                proof {
                    assert(self.var_names@ =~= param_names(params@));
                    assert forall|q: int| 0 <= q < params@.len() implies
                        ty_ok(names@, (#[trigger] params@[q]).1) by {
                        assert(param_tys@[q] == params@[q].1);
                    }
                }
                let bexprs = match self.build_args(names, sp, body, 0) {
                    Ok(v) => v,
                    Err(d) => {
                        return Err(d);
                    },
                };
                Ok(PreItem::Proc { name: *name, param_tys, ret: *ret, body: bexprs })
            },
            Item::Typedef { name, def } => {
                match check_ty(names, sp, *def) {
                    Ok(()) => {},
                    Err(d) => {
                        return Err(d);
                    },
                }
                Ok(PreItem::Typedef { name: *name, def: *def })
            },
        }
    }
}

} // verus!
