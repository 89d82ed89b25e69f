//! Laws that relate the interner's operations to one another.
use vstd::prelude::*;

use vstd::std_specs::cmp::PartialEqSpec;

use crate::interner::{after_intern, after_release, InString, Intern};

verus! {

/// The number of handles of `k` in the table `m`, zero when `k` is not
/// interned.
pub open spec fn count_of(m: Map<Seq<char>, usize>, k: Seq<char>) -> int {
    if m.contains_key(k) {
        m[k] as int
    } else {
        0
    }
}

/// The table after `k` is interned `n` times.
pub open spec fn intern_times(m: Map<Seq<char>, usize>, k: Seq<char>, n: nat) -> Map<Seq<char>, usize>
    decreases n,
{
    if n == 0 {
        m
    } else {
        after_intern(intern_times(m, k, (n - 1) as nat), k)
    }
}

/// Releasing a handle right after interning the same string gives back the
/// table as it was: a new string leaves again, a present one returns to its
/// former count.
pub proof fn lemma_release_undoes_intern(m: Map<Seq<char>, usize>, k: Seq<char>)
    requires
        m.contains_key(k) ==> 1 <= m[k] < usize::MAX,
    ensures
        after_release(after_intern(m, k), k) == m,
{
    if m.contains_key(k) {
        assert(after_release(after_intern(m, k), k) =~= m);
    } else {
        assert(after_release(after_intern(m, k), k) =~= m);
    }
}

/// Interning a string right after releasing one of its handles gives back
/// the table as it was.
pub proof fn lemma_intern_undoes_release(m: Map<Seq<char>, usize>, k: Seq<char>)
    requires
        m.contains_key(k),
        m[k] >= 1,
    ensures
        after_intern(after_release(m, k), k) == m,
{
    assert(after_intern(after_release(m, k), k) =~= m);
}

/// Interning a string `n` times gives it `n` more handles and leaves every
/// other string as it was; a string that was not interned has exactly `n`.
pub proof fn lemma_intern_times(m: Map<Seq<char>, usize>, k: Seq<char>, n: nat)
    requires
        count_of(m, k) + n <= usize::MAX,
    ensures
        count_of(intern_times(m, k, n), k) == count_of(m, k) + n,
        n > 0 ==> intern_times(m, k, n).contains_key(k),
        forall|j: Seq<char>| j != k ==> #[trigger] intern_times(m, k, n).contains_key(j) == m.contains_key(j),
        forall|j: Seq<char>| j != k && m.contains_key(j) ==> #[trigger] intern_times(m, k, n)[j] == m[j],
    decreases n,
{
    if n > 0 {
        lemma_intern_times(m, k, (n - 1) as nat);
    }
}

/// Interning a string slice interns exactly its characters.
pub proof fn lemma_intern_str_text(s: &str)
    ensures
        s.text() == s@,
{
}

/// Interning a `String` interns exactly its characters.
pub proof fn lemma_intern_string_text(s: String)
    ensures
        s.text() == s@,
{
}

/// Two handles compare equal with `==` exactly when their strings are equal.
pub proof fn lemma_instring_eq(a: InString, b: InString)
    ensures
        <InString as PartialEqSpec>::obeys_eq_spec(),
        a.eq_spec(&b) <==> a@ == b@,
{
}

} // verus!
