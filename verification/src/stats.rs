//! Counters of interned and deduplicated strings.
//!
//! The counters wrap around on overflow, as counters kept in atomic integers
//! with `fetch_add` and `fetch_sub` do.
use vstd::prelude::*;

verus! {

/// Interned string statistics.
/// Mostly useful for introspection and debugging.
#[derive(Copy, Clone, Debug)]
pub struct InStringStats {
    /// Number of interned strings.
    pub interned_strings: usize,
    /// Sum of the length of all currently interned strings.
    pub interned_bytes: usize,
    /// Number of deduplicated strings. I.e. current number of handles that
    /// share their backing storage with one or more other handles.
    pub deduped_strings: usize,
    /// Sum of the length of all deduplicated strings. I.e. number of bytes
    /// saved on the heap because of string interning.
    pub deduped_bytes: usize,
}

/// The number of values a `usize` can hold.
pub open spec fn modulus() -> int {
    usize::MAX as int + 1
}

/// `x` reduced to the range of a `usize`, as a wrapping counter holds it.
pub open spec fn wrap(x: int) -> int {
    x % modulus()
}

/// All counters at zero.
pub fn zero() -> (r: InStringStats)
    ensures
        r.interned_strings == 0,
        r.interned_bytes == 0,
        r.deduped_strings == 0,
        r.deduped_bytes == 0,
{
    InStringStats { interned_strings: 0, interned_bytes: 0, deduped_strings: 0, deduped_bytes: 0 }
}

/// A snapshot of the counters.
pub fn collect(stats: &InStringStats) -> (r: InStringStats)
    ensures
        r == *stats,
{
    InStringStats {
        interned_strings: stats.interned_strings,
        interned_bytes: stats.interned_bytes,
        deduped_strings: stats.deduped_strings,
        deduped_bytes: stats.deduped_bytes,
    }
}

/// Counts one more interned string of `bytes` bytes.
pub fn interned_add(stats: &mut InStringStats, bytes: usize)
    ensures
        final(stats).interned_strings == wrap(old(stats).interned_strings + 1),
        final(stats).interned_bytes == wrap(old(stats).interned_bytes + bytes),
        final(stats).deduped_strings == old(stats).deduped_strings,
        final(stats).deduped_bytes == old(stats).deduped_bytes,
{
    proof {
        lemma_wrapping_add(stats.interned_strings, 1);
        lemma_wrapping_add(stats.interned_bytes, bytes);
    }
    stats.interned_strings = stats.interned_strings.wrapping_add(1);
    stats.interned_bytes = stats.interned_bytes.wrapping_add(bytes);
}

/// Counts one interned string of `bytes` bytes less.
pub fn interned_sub(stats: &mut InStringStats, bytes: usize)
    ensures
        final(stats).interned_strings == wrap(old(stats).interned_strings - 1),
        final(stats).interned_bytes == wrap(old(stats).interned_bytes - bytes),
        final(stats).deduped_strings == old(stats).deduped_strings,
        final(stats).deduped_bytes == old(stats).deduped_bytes,
{
    proof {
        lemma_wrapping_sub(stats.interned_strings, 1);
        lemma_wrapping_sub(stats.interned_bytes, bytes);
    }
    stats.interned_strings = stats.interned_strings.wrapping_sub(1);
    stats.interned_bytes = stats.interned_bytes.wrapping_sub(bytes);
}

/// Counts one more deduplicated string of `bytes` bytes.
pub fn deduped_add(stats: &mut InStringStats, bytes: usize)
    ensures
        final(stats).interned_strings == old(stats).interned_strings,
        final(stats).interned_bytes == old(stats).interned_bytes,
        final(stats).deduped_strings == wrap(old(stats).deduped_strings + 1),
        final(stats).deduped_bytes == wrap(old(stats).deduped_bytes + bytes),
{
    proof {
        lemma_wrapping_add(stats.deduped_strings, 1);
        lemma_wrapping_add(stats.deduped_bytes, bytes);
    }
    stats.deduped_strings = stats.deduped_strings.wrapping_add(1);
    stats.deduped_bytes = stats.deduped_bytes.wrapping_add(bytes);
}

/// Counts one deduplicated string of `bytes` bytes less.
pub fn deduped_sub(stats: &mut InStringStats, bytes: usize)
    ensures
        final(stats).interned_strings == old(stats).interned_strings,
        final(stats).interned_bytes == old(stats).interned_bytes,
        final(stats).deduped_strings == wrap(old(stats).deduped_strings - 1),
        final(stats).deduped_bytes == wrap(old(stats).deduped_bytes - bytes),
{
    proof {
        lemma_wrapping_sub(stats.deduped_strings, 1);
        lemma_wrapping_sub(stats.deduped_bytes, bytes);
    }
    stats.deduped_strings = stats.deduped_strings.wrapping_sub(1);
    stats.deduped_bytes = stats.deduped_bytes.wrapping_sub(bytes);
}

/// Wrapping addition of a counter agrees with `wrap`.
pub proof fn lemma_wrapping_add(x: usize, y: usize)
    ensures
        vstd::wrapping::usize_specs::wrapping_add(x, y) == wrap(x + y),
{
    lemma_wrap_small(x + y);
}

/// Wrapping subtraction of a counter agrees with `wrap`.
pub proof fn lemma_wrapping_sub(x: usize, y: usize)
    ensures
        vstd::wrapping::usize_specs::wrapping_sub(x, y) == wrap(x - y),
{
    lemma_wrap_small(x - y);
}

/// A wrapped value fits in a `usize`.
pub proof fn lemma_wrap_range(x: int)
    ensures
        0 <= wrap(x) < modulus(),
        wrap(x) <= usize::MAX,
{
    vstd::arithmetic::div_mod::lemma_mod_bound(x, modulus());
}

/// Wrapping a running total before adding to it changes nothing.
pub proof fn lemma_wrap_add(a: int, b: int)
    ensures
        wrap(wrap(a) + b) == wrap(a + b),
{
    let m = modulus();
    vstd::arithmetic::div_mod::lemma_add_mod_noop(a, b, m);
    vstd::arithmetic::div_mod::lemma_add_mod_noop(a % m, b, m);
    vstd::arithmetic::div_mod::lemma_mod_twice(a, m);
}

proof fn lemma_wrap_small(z: int)
    requires
        -modulus() <= z < 2 * modulus(),
    ensures
        wrap(z) == (if z < 0 {
            z + modulus()
        } else if z >= modulus() {
            z - modulus()
        } else {
            z
        }),
{
    let m = modulus();
    if z < 0 {
        vstd::arithmetic::div_mod::lemma_fundamental_div_mod_converse(z, m, -1, z + m);
    } else if z >= m {
        vstd::arithmetic::div_mod::lemma_fundamental_div_mod_converse(z, m, 1, z - m);
    } else {
        vstd::arithmetic::div_mod::lemma_fundamental_div_mod_converse(z, m, 0, z);
    }
}

} // verus!
