//! Symbol and entity tables: the fixed keyword table bound at session
//! creation, and the growing table of declared entities.

use vstd::prelude::*;

use crate::types::{AtomId, Entity, EntityModel, Keyword};

verus! {

/// First-match lookup in an association list keyed by interned symbols.
pub open spec fn spec_lookup<T>(s: Seq<(AtomId, T)>, a: AtomId) -> Option<T>
    decreases s.len(),
{
    if s.len() == 0 {
        None
    } else if s[0].0 == a {
        Some(s[0].1)
    } else {
        spec_lookup(s.drop_first(), a)
    }
}

/// A miss on every entry before `i` moves the lookup past them.
proof fn lemma_lookup_skip<T>(s: Seq<(AtomId, T)>, a: AtomId, i: int)
    requires
        0 <= i <= s.len(),
        forall|k: int| 0 <= k < i ==> (#[trigger] s[k]).0 != a,
    ensures
        spec_lookup(s, a) == spec_lookup(s.skip(i), a),
    decreases i,
{
    if i > 0 {
        assert(s.skip(i - 1).drop_first() =~= s.skip(i));
        lemma_lookup_skip(s, a, i - 1);
        assert(s.skip(i - 1)[0] == s[i - 1]);
    } else {
        assert(s.skip(0) =~= s);
    }
}

/// Overwriting the first entry for `a` changes the lookup of `a` alone.
proof fn lemma_lookup_update<T>(s: Seq<(AtomId, T)>, a: AtomId, v: T, i: int, b: AtomId)
    requires
        0 <= i < s.len(),
        s[i].0 == a,
        forall|k: int| 0 <= k < i ==> (#[trigger] s[k]).0 != a,
    ensures
        b == a ==> spec_lookup(s.update(i, (a, v)), b) == Some(v),
        b != a ==> spec_lookup(s.update(i, (a, v)), b) == spec_lookup(s, b),
    decreases i,
{
    let t = s.update(i, (a, v));
    if i == 0 {
        assert(t[0] == (a, v));
        assert(t.drop_first() =~= s.drop_first());
    } else {
        assert(t[0] == s[0]);
        if s[0].0 == b {
        } else {
            assert(s.drop_first().update(i - 1, (a, v)) =~= t.drop_first());
            lemma_lookup_update(s.drop_first(), a, v, i - 1, b);
        }
    }
}

/// Appending an entry for a fresh symbol changes the lookup of it alone.
proof fn lemma_lookup_push<T>(s: Seq<(AtomId, T)>, a: AtomId, v: T, b: AtomId)
    requires
        forall|k: int| 0 <= k < s.len() ==> (#[trigger] s[k]).0 != a,
    ensures
        b == a ==> spec_lookup(s.push((a, v)), b) == Some(v),
        b != a ==> spec_lookup(s.push((a, v)), b) == spec_lookup(s, b),
    decreases s.len(),
{
    reveal_with_fuel(spec_lookup, 3);
    let t = s.push((a, v));
    if s.len() == 0 {
        assert(t[0] == (a, v));
        assert(t.drop_first() =~= Seq::<(AtomId, T)>::empty());
    } else {
        assert(t[0] == s[0]);
        assert(forall|k: int| 0 <= k < s.drop_first().len() ==>
            (#[trigger] s.drop_first()[k]) == s[k + 1]);
        assert(s.drop_first().push((a, v)) =~= t.drop_first());
        lemma_lookup_push(s.drop_first(), a, v, b);
    }
}

/// The fixed table binding interned symbols to the keywords of the current
/// session. Built once from the host-supplied mapping, read-only after.
pub struct Keywords {
    entries: Vec<(AtomId, Keyword)>,
}

impl Keywords {
    /// The bindings, in the order the host supplied them; the first entry
    /// for a symbol wins.
    pub closed spec fn view(&self) -> Seq<(AtomId, Keyword)> {
        self.entries@
    }

    /// Binds the keyword table for one session.
    pub fn new(entries: Vec<(AtomId, Keyword)>) -> (r: Keywords)
        ensures
            r@ == entries@,
    {
        Keywords { entries }
    }

    /// The keyword a symbol is bound to, if any.
    pub fn get(&self, a: AtomId) -> (r: Option<Keyword>)
        ensures
            r == spec_lookup(self@, a),
    {
        let n = self.entries.len();
        let mut i: usize = 0;
        while i < n
            invariant
                n == self.entries@.len(),
                i <= n,
                forall|k: int| 0 <= k < i ==> (#[trigger] self.entries@[k]).0 != a,
            decreases n - i,
        {
            if self.entries[i].0 == a {
                proof {
                    lemma_lookup_skip(self.entries@, a, i as int);
                    assert(self.entries@.skip(i as int)[0] == self.entries@[i as int]);
                }
                return Some(self.entries[i].1);
            }
            i += 1;
        }
        proof {
            lemma_lookup_skip(self.entries@, a, n as int);
            assert(self.entries@.skip(n as int) =~= Seq::<(AtomId, Keyword)>::empty());
        }
        None
    }
}

/// The table of declared entities, keyed by interned symbol. It grows under
/// name reservation and is read by binding and inference; entities are never
/// deleted within a session.
pub struct Names {
    entries: Vec<(AtomId, Entity)>,
}

impl Names {
    /// The table as a map from symbol to entity shape.
    pub closed spec fn view(&self) -> Map<AtomId, EntityModel> {
        Map::new(
            |a: AtomId| spec_lookup(self.entries@, a) is Some,
            |a: AtomId| spec_lookup(self.entries@, a).unwrap()@,
        )
    }

    /// An empty table.
    pub fn new() -> (r: Names)
        ensures
            r@ == Map::<AtomId, EntityModel>::empty(),
    {
        let r = Names { entries: Vec::new() };
        proof {
            assert(r@ =~= Map::<AtomId, EntityModel>::empty());
        }
        r
    }

    /// The entity a symbol is declared as, if any.
    pub fn get(&self, a: AtomId) -> (r: Option<&Entity>)
        ensures
            match r {
                Some(e) => self@.contains_key(a) && e@ == self@[a],
                None => !self@.contains_key(a),
            },
    {
        let n = self.entries.len();
        let mut i: usize = 0;
        while i < n
            invariant
                n == self.entries@.len(),
                i <= n,
                forall|k: int| 0 <= k < i ==> (#[trigger] self.entries@[k]).0 != a,
            decreases n - i,
        {
            if self.entries[i].0 == a {
                proof {
                    lemma_lookup_skip(self.entries@, a, i as int);
                    assert(self.entries@.skip(i as int)[0] == self.entries@[i as int]);
                }
                return Some(&self.entries[i].1);
            }
            i += 1;
        }
        proof {
            lemma_lookup_skip(self.entries@, a, n as int);
            assert(self.entries@.skip(n as int) =~= Seq::<(AtomId, Entity)>::empty());
        }
        None
    }

    /// Whether a symbol is declared.
    pub fn contains(&self, a: AtomId) -> (r: bool)
        ensures
            r == self@.contains_key(a),
    {
        self.get(a).is_some()
    }

    /// Binds a symbol to an entity, replacing any earlier binding: the table
    /// afterwards is the table before with exactly this one entry set.
    pub fn insert(&mut self, a: AtomId, e: Entity)
        ensures
            final(self)@ == old(self)@.insert(a, e@),
    {
        let ghost p: (AtomId, Entity) = (a, e);
        let n = self.entries.len();
        let mut i: usize = 0;
        while i < n && self.entries[i].0 != a
            invariant
                n == self.entries@.len(),
                i <= n,
                forall|k: int| 0 <= k < i ==> (#[trigger] self.entries@[k]).0 != a,
                *self == *old(self),
            decreases n - i,
        {
            i += 1;
        }
        if i < n {
            self.entries[i] = (a, e);
            proof {
                assert(self.entries@ == old(self).entries@.update(i as int, p));
                assert forall|b: AtomId|
                    (b == a ==> #[trigger] spec_lookup(self.entries@, b) == Some(p.1))
                    && (b != a ==> spec_lookup(self.entries@, b)
                        == spec_lookup(old(self).entries@, b)) by {
                    lemma_lookup_update(old(self).entries@, a, p.1, i as int, b);
                }
                assert(self@ =~= old(self)@.insert(a, p.1@));
            }
        } else {
            self.entries.push((a, e));
            proof {
                assert(self.entries@ == old(self).entries@.push(p));
                assert forall|b: AtomId|
                    (b == a ==> #[trigger] spec_lookup(self.entries@, b) == Some(p.1))
                    && (b != a ==> spec_lookup(self.entries@, b)
                        == spec_lookup(old(self).entries@, b)) by {
                    lemma_lookup_push(old(self).entries@, a, p.1, b);
                }
                assert(self@ =~= old(self)@.insert(a, p.1@));
            }
        }
    }
}

} // verus!
