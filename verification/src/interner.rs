//! The interner: a table of shared strings, each with the number of live
//! handles to it, and the statistics kept beside it.
use std::sync::Arc;

use dashmap::DashMap;
use vstd::prelude::*;
use vstd::string::StringSliceAdditionalSpecFns;
use vstd::utf8::{encode_utf8, is_char_boundary};

use crate::stats::{
    deduped_add, deduped_sub, interned_add, interned_sub, lemma_wrap_add, lemma_wrap_range,
    modulus, wrap, zero, InStringStats,
};
use crate::sums::{lemma_sum_empty, lemma_sum_insert, lemma_sum_remove, sum_over};
use crate::table::{
    char_to_string, share, sort_shared, str_eq, str_le, str_lt, table_contents, table_get, table_insert, table_keys,
    table_new, table_remove, views,
};

verus! {

/// The number of bytes of the UTF-8 encoding of `s`, as `str::len` reports it.
pub open spec fn byte_len(s: Seq<char>) -> int {
    encode_utf8(s).len() as usize as int
}

/// Term of the interned byte count: the string's length.
pub open spec fn bytes_term() -> spec_fn(Seq<char>, usize) -> int {
    |k: Seq<char>, c: usize| byte_len(k)
}

/// Term of the deduplicated string count: the handles beyond the first.
pub open spec fn dedup_term() -> spec_fn(Seq<char>, usize) -> int {
    |k: Seq<char>, c: usize| c - 1
}

/// Term of the deduplicated byte count: the bytes saved by the handles
/// beyond the first.
pub open spec fn dedup_bytes_term() -> spec_fn(Seq<char>, usize) -> int {
    |k: Seq<char>, c: usize| byte_len(k) * (c - 1)
}

/// The statistics that describe a table of strings and handle counts: the
/// number of strings, their bytes, the handles beyond the first of each
/// string, and the bytes those share, each as a wrapping counter holds it.
pub open spec fn stats_of(m: Map<Seq<char>, usize>) -> InStringStats {
    InStringStats {
        interned_strings: wrap(m.dom().len() as int) as usize,
        interned_bytes: wrap(sum_over(m, bytes_term())) as usize,
        deduped_strings: wrap(sum_over(m, dedup_term())) as usize,
        deduped_bytes: wrap(sum_over(m, dedup_bytes_term())) as usize,
    }
}

/// The table after one more handle of `k` is made: a new string starts at
/// one handle, a present one gains one.
pub open spec fn after_intern(m: Map<Seq<char>, usize>, k: Seq<char>) -> Map<Seq<char>, usize> {
    if m.contains_key(k) {
        m.insert(k, (m[k] + 1) as usize)
    } else {
        m.insert(k, 1)
    }
}

/// The table after one handle of `k` is released: the last handle takes the
/// string out of the table, any other one lowers its count.
pub open spec fn after_release(m: Map<Seq<char>, usize>, k: Seq<char>) -> Map<Seq<char>, usize> {
    if m[k] == 1 {
        m.remove(k)
    } else {
        m.insert(k, (m[k] - 1) as usize)
    }
}

/// The characters of each handle in a sequence of handles.
pub open spec fn texts(s: Seq<InString>) -> Seq<Seq<char>> {
    s.map_values(|h: InString| h@)
}

/// The handle counts of a table of stored keys and counts.
pub open spec fn counts_of(t: Map<Seq<char>, (Arc<String>, usize)>) -> Map<Seq<char>, usize> {
    t.map_values(|e: (Arc<String>, usize)| e.1)
}

/// The stored keys of a table of stored keys and counts.
pub open spec fn keys_of(t: Map<Seq<char>, (Arc<String>, usize)>) -> Map<Seq<char>, Arc<String>> {
    t.map_values(|e: (Arc<String>, usize)| e.0)
}

/// Setting one entry of a table sets the same entry of its counts and of its
/// stored keys.
proof fn lemma_table_insert(t: Map<Seq<char>, (Arc<String>, usize)>, k: Seq<char>, e: (Arc<String>, usize))
    ensures
        counts_of(t.insert(k, e)) == counts_of(t).insert(k, e.1),
        keys_of(t.insert(k, e)) == keys_of(t).insert(k, e.0),
{
    assert(counts_of(t.insert(k, e)) =~= counts_of(t).insert(k, e.1));
    assert(keys_of(t.insert(k, e)) =~= keys_of(t).insert(k, e.0));
}

/// Removing one entry of a table removes it from its counts and from its
/// stored keys.
proof fn lemma_table_remove(t: Map<Seq<char>, (Arc<String>, usize)>, k: Seq<char>)
    ensures
        counts_of(t.remove(k)) == counts_of(t).remove(k),
        keys_of(t.remove(k)) == keys_of(t).remove(k),
{
    assert(counts_of(t.remove(k)) =~= counts_of(t).remove(k));
    assert(keys_of(t.remove(k)) =~= keys_of(t).remove(k));
}

/// The set of interned strings, with the number of live handles of each, and
/// the statistics that go with them.
pub struct Interner {
    table: DashMap<Arc<String>, usize>,
    stats: InStringStats,
}

/// Type representing an interned string: a handle to the allocation that the
/// interner shares among all handles of equal strings.
#[derive(Debug, Hash, PartialOrd, Ord)]
pub struct InString {
    inner: Arc<String>,
}

impl View for Interner {
    type V = Map<Seq<char>, usize>;

    closed spec fn view(&self) -> Map<Seq<char>, usize> {
        counts_of(table_contents(self.table))
    }
}

impl View for InString {
    type V = Seq<char>;

    closed spec fn view(&self) -> Seq<char> {
        self.inner@
    }
}

impl InString {
    /// The allocation that this handle refers to.
    pub closed spec fn shared(&self) -> Arc<String> {
        self.inner
    }
}

impl Interner {
    /// The stored allocation of each interned string: the one that all of
    /// its handles share.
    pub closed spec fn stored(&self) -> Map<Seq<char>, Arc<String>> {
        keys_of(table_contents(self.table))
    }

    /// The interner's invariant: finitely many strings, each with at least
    /// one live handle and a stored allocation holding that string, and
    /// statistics that describe them.
    pub closed spec fn wf(&self) -> bool {
        &&& self@.dom().finite()
        &&& forall|k: Seq<char>| #[trigger] self@.contains_key(k) ==> self@[k] >= 1
        &&& forall|k: Seq<char>| #[trigger] self@.contains_key(k) ==> self.stored()[k]@ == k
        &&& self.stats == stats_of(self@)
    }

    /// One more handle of `k` can be counted.
    pub open spec fn has_room(&self, k: Seq<char>) -> bool {
        self@.contains_key(k) ==> self@[k] < usize::MAX
    }

    /// An empty interner.
    pub fn new() -> (r: Interner)
        ensures
            r.wf(),
            r@ == Map::<Seq<char>, usize>::empty(),
            r.stored() == Map::<Seq<char>, Arc<String>>::empty(),
    {
        let r = Interner { table: table_new(), stats: zero() };
        proof {
            lemma_stats_empty();
            assert(r@ =~= Map::<Seq<char>, usize>::empty());
            assert(r.stored() =~= Map::<Seq<char>, Arc<String>>::empty());
        }
        r
    }

    /// The number of live handles of `string`, zero when it is not interned.
    pub fn handles_of(&self, string: &str) -> (r: usize)
        ensures
            r == (if self@.contains_key(string@) {
                self@[string@]
            } else {
                0
            }),
    {
        match table_get(&self.table, &string.to_owned()) {
            Some((_, count)) => count,
            None => 0,
        }
    }

    /// Whether every interned string can be counted one more handle, as
    /// [`InString::all`] requires.
    pub fn has_room_for_all(&self) -> (r: bool)
        ensures
            r == (forall|k: Seq<char>| #[trigger]
                self@.contains_key(k) ==> self@[k] < usize::MAX),
    {
        let keys = table_keys(&self.table);
        let ghost kv = views(keys@);
        let n = keys.len();
        let mut i: usize = 0;
        while i < n
            invariant
                n == keys@.len(),
                kv == views(keys@),
                kv.to_set() == self@.dom(),
                0 <= i <= n,
                forall|j: int| 0 <= j < i ==> #[trigger] self@[kv[j]] < usize::MAX,
            decreases n - i,
        {
            assert(kv.to_set().contains(kv[i as int]));
            let count = table_get(&self.table, &keys[i]).unwrap().1;
            if count == usize::MAX {
                return false;
            }
            i += 1;
        }
        proof {
            assert forall|k: Seq<char>| #[trigger] self@.contains_key(k) implies self@[k]
                < usize::MAX by {
                assert(kv.to_set().contains(k));
                let j = choose|j: int| 0 <= j < kv.len() && kv[j] == k;
            }
        }
        true
    }

    /// The interner's invariant gives every interned string a live handle.
    pub proof fn lemma_wf(&self)
        requires
            self.wf(),
        ensures
            self@.dom().finite(),
            forall|k: Seq<char>| #[trigger] self@.contains_key(k) ==> self@[k] >= 1,
    {
    }
}

/// An empty table has all statistics at zero.
pub proof fn lemma_stats_empty()
    ensures
        stats_of(Map::<Seq<char>, usize>::empty()) == (InStringStats {
            interned_strings: 0,
            interned_bytes: 0,
            deduped_strings: 0,
            deduped_bytes: 0,
        }),
{
    lemma_sum_empty(bytes_term());
    lemma_sum_empty(dedup_term());
    lemma_sum_empty(dedup_bytes_term());
    assert(Map::<Seq<char>, usize>::empty().dom() =~= Set::<Seq<char>>::empty());
    assert(wrap(0) == 0) by {
        vstd::arithmetic::div_mod::lemma_small_mod(0, modulus() as nat);
    }
}

/// Adding a handle to a present string counts one more deduplicated string
/// of that string's bytes.
pub proof fn lemma_stats_intern_present(m: Map<Seq<char>, usize>, k: Seq<char>)
    requires
        m.dom().finite(),
        m.contains_key(k),
        1 <= m[k] < usize::MAX,
    ensures
        ({
            let s = stats_of(m);
            let t = stats_of(m.insert(k, (m[k] + 1) as usize));
            &&& t.interned_strings == s.interned_strings
            &&& t.interned_bytes == s.interned_bytes
            &&& t.deduped_strings == wrap(s.deduped_strings + 1)
            &&& t.deduped_bytes == wrap(s.deduped_bytes + byte_len(k))
        }),
{
    let c = m[k];
    let m2 = m.insert(k, (c + 1) as usize);
    assert(m2.dom() =~= m.dom());
    lemma_sum_insert(m, bytes_term(), k, (c + 1) as usize);
    lemma_sum_insert(m, dedup_term(), k, (c + 1) as usize);
    lemma_sum_insert(m, dedup_bytes_term(), k, (c + 1) as usize);
    let b = byte_len(k);
    let c1 = (c + 1) as usize;
    assert(b * (c1 - 1) - b * (c - 1) == b) by (nonlinear_arith)
        requires
            c1 == c + 1,
    ;
    lemma_wrap_range(sum_over(m, dedup_term()));
    lemma_wrap_range(sum_over(m, dedup_bytes_term()));
    lemma_wrap_add(sum_over(m, dedup_term()), 1);
    lemma_wrap_add(sum_over(m, dedup_bytes_term()), b);
}

/// Adding a new string with one handle counts one more interned string of
/// that string's bytes.
pub proof fn lemma_stats_intern_new(m: Map<Seq<char>, usize>, k: Seq<char>)
    requires
        m.dom().finite(),
        !m.contains_key(k),
    ensures
        ({
            let s = stats_of(m);
            let t = stats_of(m.insert(k, 1));
            &&& t.interned_strings == wrap(s.interned_strings + 1)
            &&& t.interned_bytes == wrap(s.interned_bytes + byte_len(k))
            &&& t.deduped_strings == s.deduped_strings
            &&& t.deduped_bytes == s.deduped_bytes
        }),
{
    let m2 = m.insert(k, 1);
    assert(m2.dom() =~= m.dom().insert(k));
    lemma_sum_insert(m, bytes_term(), k, 1);
    lemma_sum_insert(m, dedup_term(), k, 1);
    lemma_sum_insert(m, dedup_bytes_term(), k, 1);
    let b = byte_len(k);
    assert(b * (1 - 1) == 0) by (nonlinear_arith);
    lemma_wrap_range(m.dom().len() as int);
    lemma_wrap_range(sum_over(m, bytes_term()));
    lemma_wrap_add(m.dom().len() as int, 1);
    lemma_wrap_add(sum_over(m, bytes_term()), b);
}

/// Releasing one of several handles counts one deduplicated string of that
/// string's bytes less.
pub proof fn lemma_stats_release_shared(m: Map<Seq<char>, usize>, k: Seq<char>)
    requires
        m.dom().finite(),
        m.contains_key(k),
        m[k] > 1,
    ensures
        ({
            let s = stats_of(m);
            let t = stats_of(m.insert(k, (m[k] - 1) as usize));
            &&& t.interned_strings == s.interned_strings
            &&& t.interned_bytes == s.interned_bytes
            &&& t.deduped_strings == wrap(s.deduped_strings - 1)
            &&& t.deduped_bytes == wrap(s.deduped_bytes - byte_len(k))
        }),
{
    let c = m[k];
    let m2 = m.insert(k, (c - 1) as usize);
    assert(m2.dom() =~= m.dom());
    lemma_sum_insert(m, bytes_term(), k, (c - 1) as usize);
    lemma_sum_insert(m, dedup_term(), k, (c - 1) as usize);
    lemma_sum_insert(m, dedup_bytes_term(), k, (c - 1) as usize);
    let b = byte_len(k);
    let c1 = (c - 1) as usize;
    assert(b * (c1 - 1) - b * (c - 1) == -b) by (nonlinear_arith)
        requires
            c1 == c - 1,
    ;
    lemma_wrap_range(sum_over(m, dedup_term()));
    lemma_wrap_range(sum_over(m, dedup_bytes_term()));
    lemma_wrap_add(sum_over(m, dedup_term()), -1);
    lemma_wrap_add(sum_over(m, dedup_bytes_term()), -b);
}

/// Releasing the last handle of a string counts one interned string of that
/// string's bytes less.
pub proof fn lemma_stats_release_last(m: Map<Seq<char>, usize>, k: Seq<char>)
    requires
        m.dom().finite(),
        m.contains_key(k),
        m[k] == 1,
    ensures
        ({
            let s = stats_of(m);
            let t = stats_of(m.remove(k));
            &&& t.interned_strings == wrap(s.interned_strings - 1)
            &&& t.interned_bytes == wrap(s.interned_bytes - byte_len(k))
            &&& t.deduped_strings == s.deduped_strings
            &&& t.deduped_bytes == s.deduped_bytes
        }),
{
    lemma_sum_remove(m, bytes_term(), k);
    lemma_sum_remove(m, dedup_term(), k);
    lemma_sum_remove(m, dedup_bytes_term(), k);
    let b = byte_len(k);
    assert(b * (1 - 1) == 0) by (nonlinear_arith);
    lemma_wrap_range(m.dom().len() as int);
    lemma_wrap_range(sum_over(m, bytes_term()));
    lemma_wrap_add(m.dom().len() as int, -1);
    lemma_wrap_add(sum_over(m, bytes_term()), -b);
}

impl InString {
    /// The string's characters.
    pub fn as_str(&self) -> (r: &str)
        ensures
            r@ == self@,
    {
        self.inner.as_str()
    }

    /// The shared `String` itself.
    pub fn as_string(&self) -> (r: &String)
        ensures
            r@ == self@,
    {
        &self.inner
    }

    /// The string's UTF-8 bytes.
    pub fn as_bytes(&self) -> (r: &[u8])
        ensures
            r@ == encode_utf8(self@),
    {
        self.inner.as_str().as_bytes()
    }

    /// The length of the string in bytes.
    pub fn len(&self) -> (r: usize)
        ensures
            r == byte_len(self@),
    {
        self.inner.as_str().len()
    }

    /// A new `String` with the same characters.
    pub fn to_string(&self) -> (r: String)
        ensures
            r@ == self@,
    {
        self.as_string().clone()
    }

    /// Whether the string equals `other`.
    pub fn eq_str(&self, other: &str) -> (r: bool)
        ensures
            r == (self@ == other@),
    {
        str_eq(self.inner.as_str(), other)
    }

    /// The part of the string between the byte offsets `start` and `end`,
    /// both of which must fall on character boundaries.
    pub fn index(&self, start: usize, end: usize) -> (r: &str)
        requires
            start <= end <= encode_utf8(self@).len(),
            is_char_boundary(encode_utf8(self@), start as int),
            is_char_boundary(encode_utf8(self@), end as int),
        ensures
            r.spec_bytes() == encode_utf8(self@).subrange(start as int, end as int),
    {
        let s = self.inner.as_str();
        let ghost bytes = s.spec_bytes();
        proof {
            broadcast use vstd::utf8::encode_utf8_valid_utf8;

            assert(bytes == encode_utf8(self@));
        }
        let (head, _) = s.split_at(end);
        proof {
            let hb = head.spec_bytes();
            vstd::utf8::valid_utf8_split(bytes, end as int);
            assert(hb == bytes.subrange(0, end as int));
            if start == end {
                vstd::utf8::is_char_boundary_start_end_of_seq(hb);
            } else if start > 0 {
                vstd::utf8::is_char_boundary_iff_not_is_continuation_byte(bytes, start as int);
                vstd::utf8::is_char_boundary_iff_not_is_continuation_byte(hb, start as int);
            } else {
                vstd::utf8::is_char_boundary_start_end_of_seq(hb);
            }
        }
        let (_, r) = head.split_at(start);
        proof {
            assert(r.spec_bytes() =~= bytes.subrange(start as int, end as int));
        }
        r
    }

    /// Interns `string` and returns a handle to it. A string that is already
    /// interned gains a handle that shares its allocation; any other string
    /// is added with this handle as its only one.
    pub fn from(interner: &mut Interner, string: String) -> (r: InString)
        requires
            old(interner).wf(),
            old(interner).has_room(string@),
        ensures
            final(interner).wf(),
            r@ == string@,
            final(interner)@ == after_intern(old(interner)@, string@),
            old(interner)@.contains_key(string@) ==> r.shared() == old(interner).stored()[string@],
            final(interner).stored() == old(interner).stored().insert(string@, r.shared()),
    {
        let ghost m = interner@;
        let ghost t = table_contents(interner.table);
        match table_get(&interner.table, &string) {
            Some((shared, count)) => {
                let bytes = shared.as_str().len();
                table_insert(&mut interner.table, share(&shared), count + 1);
                proof {
                    lemma_table_insert(t, string@, (t[string@].0, (count + 1) as usize));
                    assert(keys_of(t).insert(string@, t[string@].0) =~= keys_of(t));
                    lemma_stats_intern_present(m, string@);
                }
                deduped_add(&mut interner.stats, bytes);
                InString { inner: shared }
            },
            None => {
                let bytes = string.as_str().len();
                let shared = Arc::new(string);
                let key = share(&shared);
                table_insert(&mut interner.table, key, 1);
                proof {
                    lemma_table_insert(t, shared@, (key, 1));
                    lemma_stats_intern_new(m, shared@);
                }
                interned_add(&mut interner.stats, bytes);
                InString { inner: shared }
            },
        }
    }
}

impl InString {
    /// Interns a copy of `string`; see [`InString::from`].
    pub fn from_str(interner: &mut Interner, string: &str) -> (r: InString)
        requires
            old(interner).wf(),
            old(interner).has_room(string@),
        ensures
            final(interner).wf(),
            r@ == string@,
            final(interner)@ == after_intern(old(interner)@, string@),
            old(interner)@.contains_key(string@) ==> r.shared() == old(interner).stored()[string@],
            final(interner).stored() == old(interner).stored().insert(string@, r.shared()),
    {
        InString::from(interner, string.to_owned())
    }

    /// Interns the one-character string of `c`; see [`InString::from`].
    pub fn from_char(interner: &mut Interner, c: char) -> (r: InString)
        requires
            old(interner).wf(),
            old(interner).has_room(seq![c]),
        ensures
            final(interner).wf(),
            r@ == seq![c],
            final(interner)@ == after_intern(old(interner)@, seq![c]),
            old(interner)@.contains_key(seq![c]) ==> r.shared() == old(interner).stored()[seq![c]],
            final(interner).stored() == old(interner).stored().insert(seq![c], r.shared()),
    {
        InString::from(interner, char_to_string(c))
    }

    /// Another handle of the same string, sharing its allocation. The string
    /// gains one handle.
    pub fn clone(&self, interner: &mut Interner) -> (r: InString)
        requires
            old(interner).wf(),
            old(interner)@.contains_key(self@),
            old(interner).has_room(self@),
        ensures
            final(interner).wf(),
            r@ == self@,
            r.shared() == self.shared(),
            final(interner)@ == after_intern(old(interner)@, self@),
            final(interner).stored() == old(interner).stored(),
    {
        let ghost m = interner@;
        let ghost t = table_contents(interner.table);
        let bytes = self.inner.as_str().len();
        let count = table_get(&interner.table, &self.inner).unwrap().1;
        table_insert(&mut interner.table, share(&self.inner), count + 1);
        proof {
            lemma_table_insert(t, self@, (t[self@].0, (count + 1) as usize));
            assert(keys_of(t).insert(self@, t[self@].0) =~= keys_of(t));
            lemma_stats_intern_present(m, self@);
        }
        deduped_add(&mut interner.stats, bytes);
        InString { inner: share(&self.inner) }
    }

    /// Releases this handle. The last handle of a string takes the string out
    /// of the interner; any other one lowers the string's count.
    pub fn drop(self, interner: &mut Interner)
        requires
            old(interner).wf(),
            old(interner)@.contains_key(self@),
        ensures
            final(interner).wf(),
            final(interner)@ == after_release(old(interner)@, self@),
            final(interner).stored() == (if old(interner)@[self@] == 1 {
                old(interner).stored().remove(self@)
            } else {
                old(interner).stored()
            }),
    {
        let ghost m = interner@;
        let ghost t = table_contents(interner.table);
        let ghost k = self@;
        let bytes = self.inner.as_str().len();
        let count = table_get(&interner.table, &self.inner).unwrap().1;
        if count == 1 {
            table_remove(&mut interner.table, &self.inner);
            proof {
                lemma_table_remove(t, k);
                lemma_stats_release_last(m, k);
            }
            interned_sub(&mut interner.stats, bytes);
        } else {
            table_insert(&mut interner.table, self.inner, count - 1);
            proof {
                lemma_table_insert(t, k, (t[k].0, (count - 1) as usize));
                assert(keys_of(t).insert(k, t[k].0) =~= keys_of(t));
                lemma_stats_release_shared(m, k);
            }
            deduped_sub(&mut interner.stats, bytes);
        }
    }

    /// Returns a handle of each currently interned string, in ascending
    /// order. Each handle counts as one more handle of its string.
    /// Mostly useful for introspection and debugging.
    pub fn all(interner: &mut Interner) -> (r: Vec<InString>)
        requires
            old(interner).wf(),
            forall|k: Seq<char>| #[trigger]
                old(interner)@.contains_key(k) ==> old(interner)@[k] < usize::MAX,
        ensures
            final(interner).wf(),
            final(interner)@.dom() == old(interner)@.dom(),
            forall|k: Seq<char>| #[trigger]
                old(interner)@.contains_key(k) ==> final(interner)@[k] == old(interner)@[k] + 1,
            r@.len() == old(interner)@.dom().len(),
            texts(r@).to_set() == old(interner)@.dom(),
            forall|i: int, j: int|
                0 <= i < j < r@.len() ==> str_lt(#[trigger] texts(r@)[i], #[trigger] texts(r@)[j]),
            forall|i: int|
                0 <= i < r@.len() ==> (#[trigger] r@[i]).shared() == old(interner).stored()[r@[i]@],
            final(interner).stored() == old(interner).stored(),
    {
        let ghost m = interner@;
        let ghost st = interner.stored();
        let keys = table_keys(&interner.table);
        let ghost kv = views(keys@);
        let sorted = sort_shared(keys);
        let ghost sv = views(sorted@);
        proof {
            broadcast use vstd::seq_lib::group_to_multiset_ensures;

            assert(m.dom() =~= table_contents(interner.table).dom());
            kv.lemma_multiset_has_no_duplicates();
            assert forall|x: Seq<char>| sv.to_multiset().contains(x) implies sv.to_multiset().count(
                x,
            ) == 1 by {
                assert(kv.to_multiset().contains(x));
            }
            sv.lemma_multiset_has_no_duplicates_conv();
            assert forall|x: Seq<char>| sv.to_set().contains(x) <==> kv.to_set().contains(x) by {
                assert(sv.contains(x) <==> sv.to_multiset().count(x) > 0);
                assert(kv.contains(x) <==> kv.to_multiset().count(x) > 0);
            }
            assert(sv.to_set() =~= m.dom());
            kv.unique_seq_to_set();
            assert(sv.len() == sv.to_multiset().len());
            assert(kv.len() == kv.to_multiset().len());
        }
        let n = sorted.len();
        let mut out: Vec<InString> = Vec::new();
        let mut i: usize = 0;
        while i < n
            invariant
                n == sorted@.len(),
                sv == views(sorted@),
                sv.no_duplicates(),
                sv.to_set() == m.dom(),
                sv.len() == m.dom().len(),
                forall|a: int, b: int| 0 <= a < b < n ==> str_le(#[trigger] sv[a], #[trigger] sv[b]),
                forall|k: Seq<char>| #[trigger] m.contains_key(k) ==> m[k] < usize::MAX,
                0 <= i <= n,
                interner.wf(),
                interner@.dom() == m.dom(),
                forall|j: int|
                    0 <= j < n ==> #[trigger] interner@[sv[j]] == m[sv[j]] + (if j < i {
                        1int
                    } else {
                        0int
                    }),
                out@.len() == i,
                forall|j: int| 0 <= j < i ==> #[trigger] out@[j]@ == sv[j],
                forall|j: int| 0 <= j < i ==> #[trigger] out@[j].shared() == st[sv[j]],
                interner.stored() == st,
            decreases n - i,
        {
            let ghost cur = interner@;
            let ghost t = table_contents(interner.table);
            let key = &sorted[i];
            assert(key@ == sv[i as int]);
            assert(sv.to_set().contains(sv[i as int]));
            let bytes = key.as_str().len();
            let (shared, count) = table_get(&interner.table, key).unwrap();
            table_insert(&mut interner.table, share(&shared), count + 1);
            proof {
                lemma_table_insert(t, key@, (t[key@].0, (count + 1) as usize));
                assert(keys_of(t).insert(key@, t[key@].0) =~= keys_of(t));
                lemma_stats_intern_present(cur, sv[i as int]);
                assert(interner@.dom() =~= cur.dom());
                assert forall|j: int| 0 <= j < n implies #[trigger] interner@[sv[j]] == m[sv[j]] + (
                if j < i + 1 {
                    1int
                } else {
                    0int
                }) by {
                    if j != i {
                        assert(sv[j] != sv[i as int]);
                    }
                }
            }
            deduped_add(&mut interner.stats, bytes);
            out.push(InString { inner: shared });
            i += 1;
        }
        proof {
            assert(texts(out@) =~= sv);
            assert forall|k: Seq<char>| #[trigger] m.contains_key(k) implies interner@[k] == m[k]
                + 1 by {
                assert(sv.to_set().contains(k));
                let j = choose|j: int| 0 <= j < sv.len() && sv[j] == k;
                assert(interner@[sv[j]] == m[sv[j]] + 1);
            }
        }
        out
    }

    /// Returns the number of live handles of this string.
    /// Mostly useful for introspection and debugging.
    pub fn ref_count(&self, interner: &Interner) -> (r: usize)
        ensures
            r == (if interner@.contains_key(self@) {
                interner@[self@]
            } else {
                0
            }),
    {
        match table_get(&interner.table, &self.inner) {
            Some((_, count)) => count,
            None => 0,
        }
    }

    /// Returns statistics for all currently interned strings.
    /// Mostly useful for introspection and debugging.
    pub fn stats(interner: &Interner) -> (r: InStringStats)
        requires
            interner.wf(),
        ensures
            r == stats_of(interner@),
    {
        crate::stats::collect(&interner.stats)
    }
}

/// Trait for interning a string.
pub trait Intern: Sized {
    /// The characters that interning `self` interns.
    spec fn text(&self) -> Seq<char>;

    /// Interns the string and returns an [InString] instance.
    fn intern(self, interner: &mut Interner) -> (r: InString)
        requires
            old(interner).wf(),
            old(interner).has_room(self.text()),
        ensures
            final(interner).wf(),
            r@ == self.text(),
            final(interner)@ == after_intern(old(interner)@, self.text()),
            old(interner)@.contains_key(self.text()) ==> r.shared() == old(interner).stored()[self.text()],
            final(interner).stored() == old(interner).stored().insert(self.text(), r.shared()),
    ;
}

impl Intern for &str {
    open spec fn text(&self) -> Seq<char> {
        (*self)@
    }

    fn intern(self, interner: &mut Interner) -> (r: InString)
        ensures
            r@ == self@,
            final(interner)@ == after_intern(old(interner)@, self@),
    {
        InString::from_str(interner, self)
    }
}

impl Intern for String {
    open spec fn text(&self) -> Seq<char> {
        self@
    }

    fn intern(self, interner: &mut Interner) -> (r: InString)
        ensures
            r@ == self@,
            final(interner)@ == after_intern(old(interner)@, self@),
    {
        InString::from(interner, self)
    }
}

impl PartialEq for InString {
    fn eq(&self, other: &Self) -> (r: bool) {
        String::eq(self.as_string(), other.as_string())
    }
}

impl vstd::std_specs::cmp::PartialEqSpecImpl for InString {
    open spec fn obeys_eq_spec() -> bool {
        true
    }

    open spec fn eq_spec(&self, other: &InString) -> bool {
        self@ == other@
    }
}

impl Eq for InString {
}

} // verus!
