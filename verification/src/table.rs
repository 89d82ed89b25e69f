//! The shared table of interned strings and the few outside calls that the
//! interner makes on it.
//!
//! The table is a `dashmap::DashMap` from the shared string allocation to the
//! number of live handles of that string. Verus cannot look inside a
//! `DashMap`, so what it holds is named by `table_contents`, and each method
//! that the interner calls has a wrapper whose contract says, over that name,
//! what the method does. All wrappers take the table by `&mut`, so that a
//! change of the contents is a change of the value Verus tracks.
use std::sync::Arc;

use dashmap::DashMap;
use itertools::Itertools;
use vstd::prelude::*;

verus! {

#[verifier::external_type_specification]
#[verifier::external_body]
#[verifier::reject_recursive_types(K)]
#[verifier::reject_recursive_types(V)]
#[verifier::reject_recursive_types(S)]
pub struct ExDashMap<K, V, S>(DashMap<K, V, S>);

/// The table's contents: for each interned string, by its characters, the
/// stored key (the allocation that every handle of the string shares) and the
/// number of live handles.
pub uninterp spec fn table_contents(m: DashMap<Arc<String>, usize>) -> Map<Seq<char>, (Arc<String>, usize)>;

/// The characters of each string in a sequence of shared strings.
pub open spec fn views(s: Seq<Arc<String>>) -> Seq<Seq<char>> {
    s.map_values(|a: Arc<String>| a@)
}

/// Code-point lexicographic order on strings: `a` comes strictly before `b`.
/// For UTF-8 text this is the order in which `String`'s `Ord` compares bytes.
pub open spec fn str_lt(a: Seq<char>, b: Seq<char>) -> bool
    decreases a.len(),
{
    if a.len() == 0 {
        b.len() > 0
    } else if b.len() == 0 {
        false
    } else if a[0] != b[0] {
        (a[0] as u32) < (b[0] as u32)
    } else {
        str_lt(a.drop_first(), b.drop_first())
    }
}

/// `a` comes before `b` or equals it.
pub open spec fn str_le(a: Seq<char>, b: Seq<char>) -> bool {
    a == b || str_lt(a, b)
}

/// `DashMap::new`: an empty map.
#[verifier::external_body]
pub(crate) fn table_new() -> (r: DashMap<Arc<String>, usize>)
    ensures
        table_contents(r) =~= Map::empty(),
{
    DashMap::new()
}

/// `DashMap::get`: finds the entry whose key equals `key`. Hands out the
/// stored key (a new reference to its allocation, by `Arc::clone`) and the
/// stored count. Claims that an entry is found exactly when the contents hold
/// the key, and that what comes back is the stored key and its count.
#[verifier::external_body]
pub(crate) fn table_get(m: &DashMap<Arc<String>, usize>, key: &String) -> (r: Option<(Arc<String>, usize)>)
    ensures
        r is Some <==> table_contents(*m).contains_key(key@),
        r matches Some((a, c)) ==> a@ == key@ && a == table_contents(*m)[key@].0 && c
            == table_contents(*m)[key@].1,
{
    m.get(key).map(|e| (Arc::clone(e.key()), *e.value()))
}

/// `DashMap::insert`: sets the count stored for `key`, adding the entry with
/// `key` as its stored key if there is none; an existing entry keeps its
/// stored key and only its count changes. Returns the count that was stored
/// before, if any.
#[verifier::external_body]
pub(crate) fn table_insert(m: &mut DashMap<Arc<String>, usize>, key: Arc<String>, count: usize) -> (r: Option<usize>)
    ensures
        table_contents(*final(m)) == table_contents(*old(m)).insert(
            key@,
            (
                if table_contents(*old(m)).contains_key(key@) {
                    table_contents(*old(m))[key@].0
                } else {
                    key
                },
                count,
            ),
        ),
        r == (if table_contents(*old(m)).contains_key(key@) {
            Some(table_contents(*old(m))[key@].1)
        } else {
            None::<usize>
        }),
{
    m.insert(key, count)
}

/// `DashMap::remove`: removes the entry whose key equals `key` and returns
/// its stored key and count, if there was one.
#[verifier::external_body]
pub(crate) fn table_remove(m: &mut DashMap<Arc<String>, usize>, key: &String) -> (r: Option<(Arc<String>, usize)>)
    ensures
        table_contents(*final(m)) == table_contents(*old(m)).remove(key@),
        r is Some <==> table_contents(*old(m)).contains_key(key@),
        r matches Some((a, c)) ==> a@ == key@ && a == table_contents(*old(m))[key@].0 && c
            == table_contents(*old(m))[key@].1,
{
    m.remove(key)
}

/// `DashMap::iter`: hands out a new reference to each stored key. The order
/// depends on the hasher, which each process seeds, so only what holds of
/// every order is claimed: each stored string comes out exactly once.
#[verifier::external_body]
pub(crate) fn table_keys(m: &DashMap<Arc<String>, usize>) -> (r: Vec<Arc<String>>)
    ensures
        views(r@).no_duplicates(),
        views(r@).to_set() == table_contents(*m).dom(),
{
    m.iter().map(|e| Arc::clone(e.key())).collect()
}

/// `Arc::clone`: a new reference to the same allocation, so the same value.
#[verifier::external_body]
pub(crate) fn share(a: &Arc<String>) -> (r: Arc<String>)
    ensures
        r == *a,
        r@ == a@,
{
    Arc::clone(a)
}

/// `<char as ToString>::to_string`: the string of the one character.
#[verifier::external_body]
pub(crate) fn char_to_string(c: char) -> (r: String)
    ensures
        r@ == seq![c],
{
    c.to_string()
}

/// `<str as PartialEq>::eq`: whether the two strings are equal.
#[verifier::external_body]
pub(crate) fn str_eq(a: &str, b: &str) -> (r: bool)
    ensures
        r == (a@ == b@),
{
    a == b
}

/// `Itertools::sorted`: the same items in ascending order of `String`'s
/// `Ord`, which compares the UTF-8 bytes and so orders by code points.
#[verifier::external_body]
pub(crate) fn sort_shared(v: Vec<Arc<String>>) -> (r: Vec<Arc<String>>)
    ensures
        views(r@).to_multiset() == views(v@).to_multiset(),
        forall|i: int, j: int|
            0 <= i < j < r@.len() ==> str_le(#[trigger] views(r@)[i], #[trigger] views(r@)[j]),
{
    v.into_iter().sorted().collect()
}

} // verus!
