//! The union-find store of type metavariables.
//!
//! Each metavariable is either unresolved, in an equivalence class with the
//! variables it has been unioned with, or resolved: the class's
//! representative carries a concrete type. The invariant of the structure is
//! that "same representative" is an equivalence relation, and that once any
//! member of a class is resolved, every member of the class resolves to the
//! same concrete type, with no residual unresolved state.

use vstd::prelude::*;

use crate::types::Ty;

verus! {

/// The union-find store. Variables are indices; each index's parent link
/// points at an index no larger than itself, so every chain of links reaches
/// a representative (a self-parented root). A root may carry the concrete
/// type its whole class is resolved to.
pub struct UnionFind {
    parent: Vec<usize>,
    value: Vec<Option<Ty>>,
}

impl UnionFind {
    /// Well-formedness: one value slot per variable, and parent links never
    /// point upward, so walks toward the root terminate.
    pub closed spec fn wf(self) -> bool {
        &&& self.parent@.len() == self.value@.len()
        &&& forall|i: int| 0 <= i < self.parent@.len() ==> #[trigger] self.parent@[i] <= i
    }

    /// How many variables have been created.
    pub closed spec fn len(self) -> nat {
        self.parent@.len()
    }

    /// The representative of `i`'s equivalence class.
    pub closed spec fn repr_of(self, i: int) -> int
        decreases i,
    {
        if 0 <= i < self.parent@.len() && self.parent@[i] < i {
            self.repr_of(self.parent@[i] as int)
        } else {
            i
        }
    }

    /// Whether two variables have been (transitively) unioned.
    pub open spec fn same_class(self, i: int, j: int) -> bool {
        self.repr_of(i) == self.repr_of(j)
    }

    /// The concrete type `i`'s class is resolved to, if any.
    pub closed spec fn value_of(self, i: int) -> Option<Ty> {
        self.value@[self.repr_of(i)]
    }

    /// The representative of a live variable is a live root at or below it.
    proof fn lemma_repr_props(self, i: int)
        requires
            self.wf(),
            0 <= i < self.len(),
        ensures
            0 <= self.repr_of(i) <= i,
            self.parent@[self.repr_of(i)] == self.repr_of(i),
            self.repr_of(self.repr_of(i)) == self.repr_of(i),
        decreases i,
    {
        if self.parent@[i] < i {
            self.lemma_repr_props(self.parent@[i] as int);
        }
    }

    /// Two stores that agree on a prefix of parent links assign the same
    /// representatives below that prefix.
    proof fn lemma_repr_agree(a: UnionFind, b: UnionFind, i: int)
        requires
            a.wf(),
            forall|k: int| 0 <= k < a.parent@.len() ==> a.parent@[k] == b.parent@[k],
            a.parent@.len() <= b.parent@.len(),
            0 <= i < a.parent@.len(),
        ensures
            a.repr_of(i) == b.repr_of(i),
        decreases i,
    {
        if a.parent@[i] < i {
            Self::lemma_repr_agree(a, b, a.parent@[i] as int);
        }
    }

    /// Re-pointing the root `hi` at the smaller root `lo` merges exactly the
    /// class of `hi` into the class of `lo` and moves no other variable.
    proof fn lemma_repr_link(pre: UnionFind, post: UnionFind, hi: int, lo: int, i: int)
        requires
            pre.wf(),
            0 <= lo < hi < pre.parent@.len(),
            pre.parent@[hi] == hi,
            pre.parent@[lo] == lo,
            post.parent@ == pre.parent@.update(hi, lo as usize),
            0 <= i < pre.parent@.len(),
        ensures
            post.repr_of(i) == if pre.repr_of(i) == hi {
                lo
            } else {
                pre.repr_of(i)
            },
        decreases i,
    {
        pre.lemma_repr_props(i);
        if i == hi {
            Self::lemma_repr_link(pre, post, hi, lo, lo);
        } else if pre.parent@[i] < i {
            Self::lemma_repr_link(pre, post, hi, lo, pre.parent@[i] as int);
        }
    }

    /// Members of one class always share their resolution state: once any
    /// member is resolved, every member yields the same concrete type.
    pub proof fn lemma_same_class_same_value(self, i: int, j: int)
        requires
            self.same_class(i, j),
        ensures
            self.value_of(i) == self.value_of(j),
    {
    }

    /// An empty store.
    pub fn new() -> (r: UnionFind)
        ensures
            r.wf(),
            r.len() == 0,
    {
        UnionFind { parent: Vec::new(), value: Vec::new() }
    }

    /// Creates a fresh, unresolved metavariable in a class of its own.
    /// Existing classes and resolutions are untouched.
    pub fn new_var(&mut self) -> (v: usize)
        requires
            old(self).wf(),
            old(self).len() < usize::MAX,
        ensures
            final(self).wf(),
            final(self).len() == old(self).len() + 1,
            v == old(self).len(),
            forall|i: int| 0 <= i < old(self).len() ==>
                #[trigger] final(self).repr_of(i) == old(self).repr_of(i),
            forall|i: int| 0 <= i < old(self).len() ==>
                #[trigger] final(self).value_of(i) == old(self).value_of(i),
            final(self).repr_of(v as int) == v as int,
            final(self).value_of(v as int) is None,
    {
        let v = self.parent.len();
        self.parent.push(v);
        self.value.push(None);
        proof {
            assert forall|i: int| 0 <= i < old(self).len() implies
                #[trigger] self.repr_of(i) == old(self).repr_of(i) by {
                Self::lemma_repr_agree(*old(self), *self, i);
            }
            assert forall|i: int| 0 <= i < old(self).len() implies
                #[trigger] self.value_of(i) == old(self).value_of(i) by {
                old(self).lemma_repr_props(i);
            }
        }
        v
    }

    /// Returns the representative of `x`'s class.
    pub fn find(&self, x: usize) -> (r: usize)
        requires
            self.wf(),
            x < self.len(),
        ensures
            r as int == self.repr_of(x as int),
            r <= x,
    {
        let mut i: usize = x;
        while self.parent[i] != i
            invariant
                self.wf(),
                i <= x,
                i < self.len(),
                self.repr_of(i as int) == self.repr_of(x as int),
            decreases i,
        {
            i = self.parent[i];
        }
        i
    }

    /// Returns what `x`'s class is resolved to, if anything.
    pub fn find_value(&self, x: usize) -> (r: Option<Ty>)
        requires
            self.wf(),
            x < self.len(),
        ensures
            r == self.value_of(x as int),
    {
        let r = self.find(x);
        proof {
            self.lemma_repr_props(x as int);
        }
        self.value[r]
    }

    /// Unions the classes of `x` and `y`.
    ///
    /// On success the two classes are one, no other class has moved, and the
    /// merged class is resolved to whichever concrete type either side
    /// already had. The one failure is a genuine conflict: both classes were
    /// already resolved, to different concrete types; the store is then
    /// unchanged and the two types are returned for a diagnostic.
    pub fn union(&mut self, x: usize, y: usize) -> (r: Result<(), (Ty, Ty)>)
        requires
            old(self).wf(),
            x < old(self).len(),
            y < old(self).len(),
        ensures
            final(self).wf(),
            final(self).len() == old(self).len(),
            match r {
                Ok(()) => {
                    &&& final(self).same_class(x as int, y as int)
                    &&& forall|i: int, j: int|
                        0 <= i < final(self).len() && 0 <= j < final(self).len() ==>
                        (#[trigger] final(self).same_class(i, j) <==> (old(self).same_class(i, j)
                            || (old(self).same_class(i, x as int)
                                && old(self).same_class(j, y as int))
                            || (old(self).same_class(i, y as int)
                                && old(self).same_class(j, x as int))))
                    &&& forall|i: int| 0 <= i < final(self).len() ==>
                        #[trigger] final(self).value_of(i) == (
                        if old(self).same_class(i, x as int) || old(self).same_class(i, y as int) {
                            if old(self).value_of(x as int) is Some {
                                old(self).value_of(x as int)
                            } else {
                                old(self).value_of(y as int)
                            }
                        } else {
                            old(self).value_of(i)
                        })
                    &&& !(old(self).value_of(x as int) is Some
                        && old(self).value_of(y as int) is Some
                        && old(self).value_of(x as int) != old(self).value_of(y as int))
                },
                Err((a, b)) => {
                    &&& *final(self) == *old(self)
                    &&& old(self).value_of(x as int) == Some(a)
                    &&& old(self).value_of(y as int) == Some(b)
                    &&& a != b
                    &&& !old(self).same_class(x as int, y as int)
                },
            },
    {
        proof {
            self.lemma_repr_props(x as int);
            self.lemma_repr_props(y as int);
        }
        let rx = self.find(x);
        let ry = self.find(y);
        if rx == ry {
            return Ok(());
        }
        let vx = self.value[rx];
        let vy = self.value[ry];
        if let (Some(a), Some(b)) = (vx, vy) {
            if a != b {
                return Err((a, b));
            }
        }
        let lo: usize = if rx < ry { rx } else { ry };
        let hi: usize = if rx < ry { ry } else { rx };
        let merged = if vx.is_some() { vx } else { vy };
        self.parent[hi] = lo;
        self.value[lo] = merged;
        proof {
            let pre = *old(self);
            assert(self.parent@ == pre.parent@.update(hi as int, lo));
            assert forall|i: int| 0 <= i < self.len() implies
                #[trigger] self.repr_of(i) == (if pre.repr_of(i) == hi as int {
                    lo as int
                } else {
                    pre.repr_of(i)
                }) by {
                Self::lemma_repr_link(pre, *self, hi as int, lo as int, i);
            }
            assert forall|i: int| 0 <= i < self.len() implies #[trigger] self.value_of(i) == (
                if pre.same_class(i, x as int) || pre.same_class(i, y as int) {
                    if pre.value_of(x as int) is Some {
                        pre.value_of(x as int)
                    } else {
                        pre.value_of(y as int)
                    }
                } else {
                    pre.value_of(i)
                }) by {
                pre.lemma_repr_props(i);
            }
        }
        Ok(())
    }

    /// Resolves `x`'s class to the concrete type `t`.
    ///
    /// On success the whole class of `x` — and nothing else — resolves to
    /// `t`; classes never move. The one failure is a conflict with an
    /// earlier resolution to a different concrete type; the store is then
    /// unchanged and the two types are returned for a diagnostic.
    pub fn resolve(&mut self, x: usize, t: Ty) -> (r: Result<(), (Ty, Ty)>)
        requires
            old(self).wf(),
            x < old(self).len(),
        ensures
            final(self).wf(),
            final(self).len() == old(self).len(),
            forall|i: int| #[trigger] final(self).repr_of(i) == old(self).repr_of(i),
            match r {
                Ok(()) => {
                    &&& (old(self).value_of(x as int) is None
                        || old(self).value_of(x as int) == Some(t))
                    &&& forall|i: int| 0 <= i < final(self).len() ==>
                        #[trigger] final(self).value_of(i) == (
                        if old(self).same_class(i, x as int) {
                            Some(t)
                        } else {
                            old(self).value_of(i)
                        })
                },
                Err((a, b)) => {
                    &&& *final(self) == *old(self)
                    &&& old(self).value_of(x as int) == Some(a)
                    &&& a != t
                    &&& b == t
                },
            },
    {
        proof {
            self.lemma_repr_props(x as int);
        }
        let rx = self.find(x);
        let cur = self.value[rx];
        match cur {
            None => {
                self.value[rx] = Some(t);
                proof {
                    let pre = *old(self);
                    assert forall|i: int| #[trigger] self.repr_of(i) == pre.repr_of(i) by {
                        if 0 <= i < pre.parent@.len() {
                            Self::lemma_repr_agree(pre, *self, i);
                        } else {
                            reveal_with_fuel(UnionFind::repr_of, 1);
                        }
                    }
                    assert forall|i: int| 0 <= i < self.len() implies
                        #[trigger] self.value_of(i) == (if pre.same_class(i, x as int) {
                            Some(t)
                        } else {
                            pre.value_of(i)
                        }) by {
                        pre.lemma_repr_props(i);
                    }
                }
                Ok(())
            },
            Some(u) => {
                if u == t {
                    proof {
                        let pre = *old(self);
                        assert forall|i: int| 0 <= i < self.len() implies
                            #[trigger] self.value_of(i) == (if pre.same_class(i, x as int) {
                                Some(t)
                            } else {
                                pre.value_of(i)
                            }) by {
                            pre.lemma_repr_props(i);
                        }
                    }
                    Ok(())
                } else {
                    Err((u, t))
                }
            },
        }
    }
}

} // verus!
