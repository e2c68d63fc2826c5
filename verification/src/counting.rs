//! How many indices below a bound satisfy a predicate, and counters that
//! follow such a number by one at a time.

use vstd::prelude::*;

verus! {

/// The number of `i` in `0..n` with `p(i)`.
pub open spec fn count_where(n: nat, p: spec_fn(int) -> bool) -> nat
    decreases n,
{
    if n == 0 {
        0
    } else {
        count_where((n - 1) as nat, p) + (if p(n - 1) {
            1nat
        } else {
            0nat
        })
    }
}

/// Predicates that agree below `n` have the same count.
pub proof fn lemma_count_same(n: nat, p: spec_fn(int) -> bool, q: spec_fn(int) -> bool)
    requires
        forall|i: int| 0 <= i < n ==> #[trigger] p(i) == #[trigger] q(i),
    ensures
        count_where(n, p) == count_where(n, q),
    decreases n,
{
    if n > 0 {
        lemma_count_same((n - 1) as nat, p, q);
    }
}

/// Predicates that agree everywhere but at `at` differ in count by what they
/// say of `at`.
pub proof fn lemma_count_update(
    n: nat,
    p: spec_fn(int) -> bool,
    q: spec_fn(int) -> bool,
    at: int,
)
    requires
        0 <= at < n,
        forall|i: int| 0 <= i < n && i != at ==> #[trigger] p(i) == #[trigger] q(i),
    ensures
        count_where(n, q) == count_where(n, p) + (if q(at) {
            1int
        } else {
            0
        }) - (if p(at) {
            1int
        } else {
            0
        }),
    decreases n,
{
    if n - 1 == at {
        lemma_count_same((n - 1) as nat, p, q);
    } else {
        lemma_count_update((n - 1) as nat, p, q, at);
    }
}

/// No more indices satisfy a predicate than there are.
pub proof fn lemma_count_bound(n: nat, p: spec_fn(int) -> bool)
    ensures
        count_where(n, p) <= n,
    decreases n,
{
    if n > 0 {
        lemma_count_bound((n - 1) as nat, p);
    }
}

/// One index satisfying the predicate makes the count positive.
pub proof fn lemma_count_positive(n: nat, p: spec_fn(int) -> bool, at: int)
    requires
        0 <= at < n,
        p(at),
    ensures
        count_where(n, p) > 0,
    decreases n,
{
    if n - 1 != at {
        lemma_count_positive((n - 1) as nat, p, at);
    }
}

/// The counter value after `x`; counters wrap like the machine's.
pub open spec fn inc(x: u64) -> u64 {
    if x == u64::MAX {
        0
    } else {
        (x + 1) as u64
    }
}

/// The counter value before `x`.
pub open spec fn dec(x: u64) -> u64 {
    if x == 0 {
        u64::MAX
    } else {
        (x - 1) as u64
    }
}

/// The counter value `by` after `x`.
pub open spec fn add_wrapping(x: u64, by: u64) -> u64 {
    if x + by > u64::MAX {
        (x + by - 0x1_0000_0000_0000_0000) as u64
    } else {
        (x + by) as u64
    }
}

/// Count one up.
pub fn bump(x: u64) -> (r: u64)
    ensures
        r == inc(x),
{
    x.wrapping_add(1)
}

/// Count one down.
pub fn drop_one(x: u64) -> (r: u64)
    ensures
        r == dec(x),
{
    x.wrapping_sub(1)
}

/// Count `by` up.
pub fn bump_by(x: u64, by: u64) -> (r: u64)
    ensures
        r == add_wrapping(x, by),
{
    x.wrapping_add(by)
}

} // verus!
