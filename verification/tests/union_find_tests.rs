//! Tests of the union-find store of type metavariables.

use mmc::types::{AtomId, Ty};
use mmc::union_find::UnionFind;

#[test]
fn fresh_variables_are_their_own_class() {
    let mut uf = UnionFind::new();
    let a = uf.new_var();
    let b = uf.new_var();
    assert_eq!(a, 0);
    assert_eq!(b, 1);
    assert_eq!(uf.find(a), a);
    assert_eq!(uf.find(b), b);
    assert_eq!(uf.find_value(a), None);
    assert_eq!(uf.find_value(b), None);
}

#[test]
fn resolving_one_member_resolves_the_class() {
    let mut uf = UnionFind::new();
    let a = uf.new_var();
    let b = uf.new_var();
    let c = uf.new_var();
    let d = uf.new_var();
    assert!(uf.union(a, b).is_ok());
    assert!(uf.union(b, c).is_ok());
    assert!(uf.resolve(a, Ty::Int).is_ok());
    // every member of the class yields the type
    assert_eq!(uf.find_value(b), Some(Ty::Int));
    assert_eq!(uf.find_value(c), Some(Ty::Int));
    // a variable never unioned with it stays independently resolvable
    assert_eq!(uf.find_value(d), None);
    assert!(uf.resolve(d, Ty::Named(AtomId(9))).is_ok());
    assert_eq!(uf.find_value(d), Some(Ty::Named(AtomId(9))));
    assert_eq!(uf.find_value(a), Some(Ty::Int));
}

#[test]
fn union_carries_an_existing_resolution() {
    let mut uf = UnionFind::new();
    let a = uf.new_var();
    let b = uf.new_var();
    assert!(uf.resolve(a, Ty::Unit).is_ok());
    assert!(uf.union(a, b).is_ok());
    assert_eq!(uf.find_value(b), Some(Ty::Unit));
    assert_eq!(uf.find(a), uf.find(b));
}

#[test]
fn conflicting_resolutions_are_conflicts() {
    let mut uf = UnionFind::new();
    let a = uf.new_var();
    let b = uf.new_var();
    assert!(uf.resolve(a, Ty::Int).is_ok());
    assert!(uf.resolve(b, Ty::Unit).is_ok());
    assert_eq!(uf.union(a, b), Err((Ty::Int, Ty::Unit)));
    // the failed union moved nothing
    assert_ne!(uf.find(a), uf.find(b));
    assert_eq!(uf.find_value(a), Some(Ty::Int));
    assert_eq!(uf.find_value(b), Some(Ty::Unit));
    // re-resolving at the same type is fine; at another it is not
    assert!(uf.resolve(a, Ty::Int).is_ok());
    assert_eq!(uf.resolve(a, Ty::Unit), Err((Ty::Int, Ty::Unit)));
}

#[test]
fn unioning_within_a_class_changes_nothing() {
    let mut uf = UnionFind::new();
    let a = uf.new_var();
    let b = uf.new_var();
    assert!(uf.union(a, b).is_ok());
    assert!(uf.union(b, a).is_ok());
    assert_eq!(uf.find(a), uf.find(b));
    assert_eq!(uf.find_value(a), None);
}
