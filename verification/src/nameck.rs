//! Name reservation: the pre-pass that registers every declared name of a
//! batch in the entity table before any item body is lowered, so that
//! forward and mutual references within one batch resolve.

use vstd::prelude::*;

use crate::tables::Names;
use crate::types::{AtomId, Diag, DiagKind, Entity, EntityModel, Span};

verus! {

/// Whether a new declaration may stand where an existing entity already
/// does: the same kind, and for operations the same arity. A redeclaration
/// at the same shape refines (overwrites) the earlier entry; an exact
/// kind/arity conflict is an error. This merge policy is deliberate: nothing
/// subtler is promised.
pub open spec fn compat(a: EntityModel, b: EntityModel) -> bool {
    match (a, b) {
        (EntityModel::Op { params: p, .. }, EntityModel::Op { params: q, .. }) =>
            p.len() == q.len(),
        (EntityModel::Type { .. }, EntityModel::Type { .. }) => true,
        _ => false,
    }
}

/// Whether `e` may be registered under `name` in table `m`.
pub open spec fn reservable(m: Map<AtomId, EntityModel>, name: AtomId, e: EntityModel) -> bool {
    !m.contains_key(name) || compat(m[name], e)
}

/// The table after one header is reserved: registered when reservable,
/// untouched (the item is skipped with a diagnostic) when not.
pub open spec fn reserve_one(
    m: Map<AtomId, EntityModel>,
    h: (AtomId, EntityModel),
) -> Map<AtomId, EntityModel> {
    if reservable(m, h.0, h.1) {
        m.insert(h.0, h.1)
    } else {
        m
    }
}

/// The table after a whole batch's headers are reserved, in reading order.
pub open spec fn reserve_all(
    m: Map<AtomId, EntityModel>,
    hs: Seq<(AtomId, EntityModel)>,
) -> Map<AtomId, EntityModel>
    decreases hs.len(),
{
    if hs.len() == 0 {
        m
    } else {
        reserve_all(reserve_one(m, hs[0]), hs.drop_first())
    }
}

/// Reserving one more header reserves it into the table so far.
pub proof fn lemma_reserve_all_snoc(
    m: Map<AtomId, EntityModel>,
    hs: Seq<(AtomId, EntityModel)>,
    h: (AtomId, EntityModel),
)
    ensures
        reserve_all(m, hs.push(h)) == reserve_one(reserve_all(m, hs), h),
    decreases hs.len(),
{
    reveal_with_fuel(reserve_all, 2);
    let t = hs.push(h);
    if hs.len() == 0 {
        assert(t.drop_first() =~= Seq::<(AtomId, EntityModel)>::empty());
    } else {
        assert(t[0] == hs[0]);
        assert(t.drop_first() =~= hs.drop_first().push(h));
        lemma_reserve_all_snoc(reserve_one(m, hs[0]), hs.drop_first(), h);
    }
}

/// Law: entities are never deleted within a session, and every name a
/// batch declares is present afterwards — registered by its own header
/// when reservable, and already standing (that is what a conflict means)
/// when not.
pub proof fn lemma_reserve_all_keeps_names(
    m: Map<AtomId, EntityModel>,
    hs: Seq<(AtomId, EntityModel)>,
)
    ensures
        forall|a: AtomId| m.contains_key(a)
            ==> #[trigger] reserve_all(m, hs).contains_key(a),
        forall|i: int| 0 <= i < hs.len()
            ==> reserve_all(m, hs).contains_key((#[trigger] hs[i]).0),
    decreases hs.len(),
{
    if hs.len() > 0 {
        let m1 = reserve_one(m, hs[0]);
        lemma_reserve_all_keeps_names(m1, hs.drop_first());
        assert(m1.contains_key(hs[0].0));
        assert forall|i: int| 0 <= i < hs.len() implies
            reserve_all(m, hs).contains_key((#[trigger] hs[i]).0) by {
            if i > 0 {
                assert(hs.drop_first()[i - 1] == hs[i]);
                assert(reserve_all(m1, hs.drop_first()).contains_key(hs[i].0));
            } else {
                assert(reserve_all(m1, hs.drop_first()).contains_key(hs[0].0));
            }
        }
    }
}

/// Law: a dispatch that reserves no headers — an `add` of an empty batch —
/// leaves the entity table exactly as it was, so performing it twice in a
/// row produces the same table as performing it once.
pub proof fn lemma_add_empty_idempotent(m: Map<AtomId, EntityModel>)
    ensures
        reserve_all(m, Seq::<(AtomId, EntityModel)>::empty()) == m,
        reserve_all(
            reserve_all(m, Seq::<(AtomId, EntityModel)>::empty()),
            Seq::<(AtomId, EntityModel)>::empty(),
        ) == reserve_all(m, Seq::<(AtomId, EntityModel)>::empty()),
{
}

/// Whether two entities may share a name, decided on their shapes.
fn entity_compat(a: &Entity, b: &Entity) -> (r: bool)
    ensures
        r == compat(a@, b@),
{
    match (a, b) {
        (Entity::Op { params: p, .. }, Entity::Op { params: q, .. }) => p.len() == q.len(),
        (Entity::Type { .. }, Entity::Type { .. }) => true,
        _ => false,
    }
}

/// Registers one declaration's name with its best-effort shape, before the
/// body is examined. On a kind/arity conflict with an existing entry the
/// table is untouched and the caller skips this one item, recording the
/// returned diagnostic; processing of sibling items continues.
pub fn reserve(names: &mut Names, sp: Span, name: AtomId, ent: Entity) -> (r: Result<(), Diag>)
    ensures
        match r {
            Ok(()) => reservable(old(names)@, name, ent@),
            Err(d) => !reservable(old(names)@, name, ent@)
                && d == (Diag { span: sp, kind: DiagKind::DuplicateOrInvalidDeclaration(name) }),
        },
        final(names)@ == reserve_one(old(names)@, (name, ent@)),
{
    let ok = match names.get(name) {
        None => true,
        Some(existing) => entity_compat(existing, &ent),
    };
    if ok {
        names.insert(name, ent);
        Ok(())
    } else {
        Err(Diag { span: sp, kind: DiagKind::DuplicateOrInvalidDeclaration(name) })
    }
}

} // verus!
