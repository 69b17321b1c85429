//! Name-resolution and type-inference front end for a small C-like language
//! whose surface syntax arrives as symbolic-expression values.
//!
//! A [`Compiler`] session is created once per source unit and then fed
//! batches of top-level declarations through [`Compiler::add`] (or the
//! dispatching entry point [`Compiler::call`]). Each batch is read into
//! syntactic items; every declared name is reserved before any body is
//! lowered, so forward and mutual references within one batch resolve; each
//! item is bound into a pre-typed tree; and the tree is typed by a
//! union-find based unification engine. Item-local failures are recoverable
//! diagnostics and never abort sibling items; batch-shape and dispatch
//! failures abort the call before any table is touched.

use vstd::prelude::*;

pub mod build_ast;
pub mod infer;
pub mod nameck;
pub mod parser;
pub mod tables;
pub mod types;
pub mod union_find;

use crate::nameck::{lemma_reserve_all_snoc, reserve_all};
use crate::parser::{
    headers_of, spec_batch_headers, spec_batch_ok, Item,
};
use crate::tables::{spec_lookup, Keywords, Names};
use crate::types::{
    AtomId, Diag, Entity, EntityModel, Error, ErrorKind, Keyword, Predef, PredefMap, SExpr, Span,
    Ty,
};

verus! {

/// The byte prefix placed on autogenerated (mangled) names.
pub open spec fn mangle_prefix() -> Seq<u8> {
    seq![95u8, 109u8, 109u8, 99u8, 95u8]
}

/// The subcommand keyword a dispatch argument decodes to, if any.
pub open spec fn subcmd_of(kws: Seq<(AtomId, Keyword)>, e: SExpr) -> Option<Keyword> {
    match e {
        SExpr::Atom(a) => spec_lookup(kws, a),
        _ => None,
    }
}

/// The symbol of an atom argument, if `e` is one.
pub open spec fn atom_of(e: SExpr) -> Option<AtomId> {
    match e {
        SExpr::Atom(a) => Some(a),
        _ => None,
    }
}

/// The compiler session: the long-lived state for one source unit. Holds
/// the keyword table and predefined-lemma map bound at creation (immutable
/// after), the entity table that grows across `add` calls, and the
/// name-mangling prefix.
pub struct Compiler {
    keywords: Keywords,
    names: Names,
    predef: PredefMap,
    prefix: Vec<u8>,
}

/// The declared name and entity of one read item, as plain values.
fn entity_of(it: &Item) -> (r: (AtomId, Entity))
    ensures
        (r.0, r.1@) == it.header(),
{
    match it {
        Item::Proc { name, params, ret, .. } => {
            let mut tys: Vec<Ty> = Vec::new();
            let mut k: usize = 0;
            while k < params.len()
                invariant
                    k <= params@.len(),
                    tys@.len() == k,
                    forall|j: int| 0 <= j < k ==> #[trigger] tys@[j] == params@[j].1,
                decreases params@.len() - k,
            {
                let (_, t) = params[k];
                tys.push(t);
                k += 1;
            }
            proof {
                assert(tys@ =~= Seq::new(params@.len(), |j: int| params@[j].1));
            }
            (*name, Entity::Op { params: tys, ret: *ret })
        },
        Item::Typedef { name, def } => (*name, Entity::Type { def: *def }),
    }
}

impl Compiler {
    /// The session's keyword bindings.
    pub closed spec fn kw_table(self) -> Seq<(AtomId, Keyword)> {
        self.keywords@
    }

    /// The entity table, as a map from symbol to entity shape.
    pub closed spec fn names_model(self) -> Map<AtomId, EntityModel> {
        self.names@
    }

    /// The predefined-lemma map bound at creation.
    pub closed spec fn predef_table(self) -> PredefMap {
        self.predef
    }

    /// The name-mangling prefix.
    pub closed spec fn prefix_bytes(self) -> Seq<u8> {
        self.prefix@
    }

    /// Creates a session bound to one source unit's symbol space: the host
    /// supplies the keyword-to-symbol mapping and the predefined-lemma
    /// symbols, both fixed for the session's lifetime. The entity table
    /// starts empty.
    pub fn new(keywords: Vec<(AtomId, Keyword)>, predef: PredefMap) -> (r: Compiler)
        ensures
            r.kw_table() == keywords@,
            r.names_model() == Map::<AtomId, EntityModel>::empty(),
            r.predef_table() == predef,
            r.prefix_bytes() == mangle_prefix(),
    {
        let mut prefix: Vec<u8> = Vec::new();
        prefix.push(95);
        prefix.push(109);
        prefix.push(109);
        prefix.push(99);
        prefix.push(95);
        proof {
            assert(prefix@ =~= mangle_prefix());
        }
        Compiler { keywords: Keywords::new(keywords), names: Names::new(), predef, prefix }
    }

    /// Whether a symbol is declared in the entity table.
    pub fn contains_name(&self, a: AtomId) -> (r: bool)
        ensures
            r == self.names_model().contains_key(a),
    {
        self.names.contains(a)
    }

    /// The arity of the operation a symbol is declared as, if it is one.
    pub fn op_arity(&self, a: AtomId) -> (r: Option<usize>)
        ensures
            match r {
                Some(n) => self.names_model().contains_key(a)
                    && (self.names_model()[a] matches EntityModel::Op { params, .. }
                        && params.len() == n),
                None => !self.names_model().contains_key(a)
                    || (self.names_model()[a] matches EntityModel::Type { .. }),
            },
    {
        match self.names.get(a) {
            Some(e) => match e {
                Entity::Op { params, .. } => Some(params.len()),
                Entity::Type { .. } => None,
            },
            None => None,
        }
    }

    /// The symbol the session binds to a predefined lemma tag.
    pub fn predef_symbol(&self, p: Predef) -> (r: AtomId)
        ensures
            r == self.predef_table().spec_get(p),
    {
        self.predef.get(p)
    }

    /// The prefix placed on autogenerated names.
    pub fn prefix(&self) -> (r: &Vec<u8>)
        ensures
            r@ == self.prefix_bytes(),
    {
        &self.prefix
    }

    /// The batch pipeline, over the elements of `batch` from `start` on.
    #[verifier::loop_isolation(false)]
    fn add_slice(&mut self, sp: Span, batch: &Vec<SExpr>, start: usize)
        -> (r: Result<Vec<Diag>, Error>)
        requires
            start <= batch@.len(),
        ensures
            final(self).kw_table() == old(self).kw_table(),
            final(self).predef_table() == old(self).predef_table(),
            final(self).prefix_bytes() == old(self).prefix_bytes(),
            match r {
                Ok(ds) => spec_batch_ok(old(self).kw_table(), batch@.skip(start as int))
                    && final(self).names_model() == reserve_all(
                        old(self).names_model(),
                        spec_batch_headers(old(self).kw_table(), batch@.skip(start as int)),
                    )
                    && (batch@.len() == start ==> ds@.len() == 0),
                Err(er) => !spec_batch_ok(old(self).kw_table(), batch@.skip(start as int))
                    && er == (Error { span: sp, kind: ErrorKind::SyntaxError })
                    && final(self).names_model() == old(self).names_model(),
            },
            batch@.len() == start ==> r is Ok,
    {
        let items = match parser::parse_batch(&self.keywords, batch, start, sp) {
            Ok(v) => v,
            Err(e) => {
                return Err(e);
            },
        };
        let ghost m0 = self.names@;
        let ghost hs = headers_of(items@);
        // the reservation pre-pass registers every declared name before any
        // body is lowered; a conflict's diagnostic is held back so that all
        // diagnostics come out in item order
        let mut reserved: Vec<Option<Diag>> = Vec::new();
        let mut i: usize = 0;
        while i < items.len()
            invariant
                i <= items@.len(),
                reserved@.len() == i,
                self.keywords == old(self).keywords,
                self.predef == old(self).predef,
                self.prefix == old(self).prefix,
                self.names@ == reserve_all(m0, hs.take(i as int)),
            decreases items@.len() - i,
        {
            let (name, ent) = entity_of(&items[i]);
            let ghost h = (name, ent@);
            proof {
                assert(h == hs[i as int]);
                assert(hs.take(i + 1) =~= hs.take(i as int).push(h));
                lemma_reserve_all_snoc(m0, hs.take(i as int), h);
            }
            match nameck::reserve(&mut self.names, sp, name, ent) {
                Ok(()) => reserved.push(None),
                Err(d) => reserved.push(Some(d)),
            }
            i += 1;
        }
        proof {
            assert(hs.take(items@.len() as int) =~= hs);
        }
        let mut diags: Vec<Diag> = Vec::new();
        let mut i2: usize = 0;
        while i2 < items.len()
            invariant
                i2 <= items@.len(),
                reserved@.len() == items@.len(),
                self.keywords == old(self).keywords,
                self.predef == old(self).predef,
                self.prefix == old(self).prefix,
                self.names@ == reserve_all(m0, hs),
                items@.len() == 0 ==> diags@.len() == 0,
            decreases items@.len() - i2,
        {
            match reserved[i2] {
                Some(d) => diags.push(d),
                None => {
                    let mut ba = build_ast::BuildAst::new();
                    match ba.build_item(&self.names, sp, &items[i2]) {
                        Err(d) => diags.push(d),
                        Ok(pre) => {
                            let n_locals = ba.var_names.len();
                            let empty_tys: Vec<Ty> = Vec::new();
                            let mut cx = match &pre {
                                build_ast::PreItem::Proc { param_tys, .. } => infer::InferCtx::new(
                                    n_locals,
                                    param_tys,
                                    sp,
                                ),
                                build_ast::PreItem::Typedef { .. } => infer::InferCtx::new(
                                    n_locals,
                                    &empty_tys,
                                    sp,
                                ),
                            };
                            cx.lower_item(&self.names, &pre);
                            let mut ds = cx.into_diags();
                            diags.append(&mut ds);
                        },
                    }
                },
            }
            i2 += 1;
        }
        Ok(diags)
    }

    /// Ingests one batch: reads it whole (a shape error is a syntax error
    /// reported before any table is touched), reserves every declared name
    /// in reading order, then binds and types each item. Item-local
    /// failures — a reservation conflict, an unbound name, a type or arity
    /// mismatch — become diagnostics in reading order and never abort
    /// sibling items: a call that returns diagnostics has still succeeded.
    /// The entity table afterwards is exactly the table before with the
    /// batch's headers reserved; an empty batch changes nothing and yields
    /// no diagnostics.
    pub fn add(&mut self, sp: Span, batch: &Vec<SExpr>) -> (r: Result<Vec<Diag>, Error>)
        ensures
            final(self).kw_table() == old(self).kw_table(),
            final(self).predef_table() == old(self).predef_table(),
            final(self).prefix_bytes() == old(self).prefix_bytes(),
            match r {
                Ok(ds) => spec_batch_ok(old(self).kw_table(), batch@)
                    && final(self).names_model() == reserve_all(
                        old(self).names_model(),
                        spec_batch_headers(old(self).kw_table(), batch@),
                    )
                    && (batch@.len() == 0 ==> ds@.len() == 0),
                Err(er) => !spec_batch_ok(old(self).kw_table(), batch@)
                    && er == (Error { span: sp, kind: ErrorKind::SyntaxError })
                    && final(self).names_model() == old(self).names_model(),
            },
            batch@.len() == 0 ==> r is Ok,
    {
        proof {
            assert(batch@.skip(0) =~= batch@);
        }
        self.add_slice(sp, batch, 0)
    }

    /// The finalization step: validates that the entry and signature
    /// references resolve in the entity table and otherwise performs no
    /// action. Linking and code generation are a documented extension
    /// point, deliberately not performed here; callers must not expect an
    /// artifact.
    pub fn finish(&mut self, sp: Span, a1: AtomId, a2: AtomId) -> (r: Result<(), Error>)
        ensures
            *final(self) == *old(self),
            r is Ok <==> old(self).names_model().contains_key(a1)
                && old(self).names_model().contains_key(a2),
            !old(self).names_model().contains_key(a1)
                ==> r == Err::<(), Error>(Error {
                    span: sp,
                    kind: ErrorKind::UnresolvedReference(a1),
                }),
            old(self).names_model().contains_key(a1)
                && !old(self).names_model().contains_key(a2)
                ==> r == Err::<(), Error>(Error {
                    span: sp,
                    kind: ErrorKind::UnresolvedReference(a2),
                }),
    {
        if !self.names.contains(a1) {
            return Err(Error { span: sp, kind: ErrorKind::UnresolvedReference(a1) });
        }
        if !self.names.contains(a2) {
            return Err(Error { span: sp, kind: ErrorKind::UnresolvedReference(a2) });
        }
        Ok(())
    }

    /// The dispatching entry point. The first argument must decode to a
    /// subcommand keyword: `Add` forwards the remaining arguments as a
    /// batch; `Finish` takes two symbol references, then a trailing batch,
    /// and finalizes after ingesting it. A missing or unknown subcommand,
    /// or missing `Finish` references, aborts the call before any entity
    /// table mutation.
    pub fn call(&mut self, sp: Span, args: Vec<SExpr>) -> (r: Result<Vec<Diag>, Error>)
        ensures
            final(self).kw_table() == old(self).kw_table(),
            final(self).predef_table() == old(self).predef_table(),
            final(self).prefix_bytes() == old(self).prefix_bytes(),
            args@.len() == 0 ==> final(self).names_model() == old(self).names_model()
                && r == Err::<Vec<Diag>, Error>(Error { span: sp, kind: ErrorKind::SyntaxError }),
            args@.len() >= 1 && subcmd_of(old(self).kw_table(), args@[0]) != Some(Keyword::Add)
                && subcmd_of(old(self).kw_table(), args@[0]) != Some(Keyword::Finish)
                ==> final(self).names_model() == old(self).names_model()
                    && r == Err::<Vec<Diag>, Error>(Error {
                        span: sp,
                        kind: ErrorKind::UnknownSubcommand(atom_of(args@[0])),
                    }),
            args@.len() == 1 && subcmd_of(old(self).kw_table(), args@[0]) == Some(Keyword::Add)
                ==> (r matches Ok(ds) && ds@.len() == 0)
                    && final(self).names_model() == old(self).names_model(),
            args@.len() >= 1 && subcmd_of(old(self).kw_table(), args@[0]) == Some(Keyword::Add)
                ==> match r {
                    Ok(_) => spec_batch_ok(old(self).kw_table(), args@.skip(1))
                        && final(self).names_model() == reserve_all(
                            old(self).names_model(),
                            spec_batch_headers(old(self).kw_table(), args@.skip(1)),
                        ),
                    Err(er) => !spec_batch_ok(old(self).kw_table(), args@.skip(1))
                        && er == (Error { span: sp, kind: ErrorKind::SyntaxError })
                        && final(self).names_model() == old(self).names_model(),
                },
            args@.len() >= 1 && subcmd_of(old(self).kw_table(), args@[0]) == Some(Keyword::Finish)
                && (args@.len() < 3 || atom_of(args@[1]) is None || atom_of(args@[2]) is None)
                ==> final(self).names_model() == old(self).names_model()
                    && r == Err::<Vec<Diag>, Error>(Error {
                        span: sp,
                        kind: ErrorKind::SyntaxError,
                    }),
            args@.len() >= 3 && subcmd_of(old(self).kw_table(), args@[0]) == Some(Keyword::Finish)
                && atom_of(args@[1]) is Some && atom_of(args@[2]) is Some
                ==> match r {
                    Ok(_) => spec_batch_ok(old(self).kw_table(), args@.skip(3))
                        && final(self).names_model() == reserve_all(
                            old(self).names_model(),
                            spec_batch_headers(old(self).kw_table(), args@.skip(3)),
                        )
                        && final(self).names_model().contains_key(atom_of(args@[1]).unwrap())
                        && final(self).names_model().contains_key(atom_of(args@[2]).unwrap()),
                    Err(er) => er.span == sp && (
                        (er.kind == ErrorKind::SyntaxError
                            && !spec_batch_ok(old(self).kw_table(), args@.skip(3))
                            && final(self).names_model() == old(self).names_model())
                        || (spec_batch_ok(old(self).kw_table(), args@.skip(3))
                            && final(self).names_model() == reserve_all(
                                old(self).names_model(),
                                spec_batch_headers(old(self).kw_table(), args@.skip(3)),
                            )
                            && (er.kind == ErrorKind::UnresolvedReference(
                                atom_of(args@[1]).unwrap(),
                            ) || er.kind == ErrorKind::UnresolvedReference(
                                atom_of(args@[2]).unwrap(),
                            ))
                            && !(final(self).names_model().contains_key(atom_of(args@[1]).unwrap())
                                && final(self).names_model().contains_key(
                                    atom_of(args@[2]).unwrap(),
                                )))
                    ),
                },
    {
        if args.len() == 0 {
            return Err(Error { span: sp, kind: ErrorKind::SyntaxError });
        }
        let kw = match &args[0] {
            SExpr::Atom(a) => self.keywords.get(*a),
            _ => None,
        };
        match kw {
            Some(Keyword::Add) => self.add_slice(sp, &args, 1),
            Some(Keyword::Finish) => {
                if args.len() < 3 {
                    return Err(Error { span: sp, kind: ErrorKind::SyntaxError });
                }
                let a1 = match &args[1] {
                    SExpr::Atom(a) => *a,
                    _ => {
                        return Err(Error { span: sp, kind: ErrorKind::SyntaxError });
                    },
                };
                let a2 = match &args[2] {
                    SExpr::Atom(a) => *a,
                    _ => {
                        return Err(Error { span: sp, kind: ErrorKind::SyntaxError });
                    },
                };
                let ds = match self.add_slice(sp, &args, 3) {
                    Ok(ds) => ds,
                    Err(e) => {
                        return Err(e);
                    },
                };
                match self.finish(sp, a1, a2) {
                    Ok(()) => Ok(ds),
                    Err(e) => Err(e),
                }
            },
            _ => {
                let a_opt = match &args[0] {
                    SExpr::Atom(a) => Some(*a),
                    _ => None,
                };
                Err(Error { span: sp, kind: ErrorKind::UnknownSubcommand(a_opt) })
            },
        }
    }
}

} // verus!
