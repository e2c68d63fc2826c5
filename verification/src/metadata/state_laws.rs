//! What every operation on the shared state keeps: the counters equal the
//! number of stripes they speak of, a claimed stripe is never released by a
//! late completion, and a stripe whose header says EVICTED lands in one way.

use vstd::prelude::*;
use crate::counting::{count_where, inc, lemma_count_bound, lemma_count_positive};
use crate::counting::{lemma_count_same, lemma_count_update};
use crate::metadata::metadata_flags;
use crate::metadata::shared_state::{
    header_fetch_state, header_satisfies, occupies, opens_evicted, opens_fetched, opens_in_s3,
    opens_resident, Evicted, Evicting, Failed, Fetched, GATE_OPEN, NoSource, NotWritten, StateModel,
    Written,
};
use crate::metadata::stripe_flags;
use crate::metadata::stripe_flags::{any_set, lemma_bits_distinct, lemma_clear_bits, lemma_set_bits};

verus! {

/// The state a stripe counts under: while it is being evicted, the one it was
/// claimed from.
pub open spec fn standing(m: StateModel, claims: Map<int, u8>, i: int) -> u8 {
    if m.fetch[i] == Evicting {
        claims[i]
    } else {
        m.fetch[i]
    }
}

/// Stripes that count as fetched.
pub open spec fn stands_fetched(m: StateModel, claims: Map<int, u8>) -> spec_fn(int) -> bool {
    |i: int| standing(m, claims, i) == Fetched
}

/// Stripes that count as resident.
pub open spec fn stands_resident(m: StateModel, claims: Map<int, u8>) -> spec_fn(int) -> bool {
    |i: int| occupies(standing(m, claims, i), m.write[i])
}

/// Stripes that are not local.
pub open spec fn is_evicted(m: StateModel) -> spec_fn(int) -> bool {
    |i: int| m.fetch[i] == Evicted
}

/// Stripes that are not local and have an object in the store.
pub open spec fn is_in_s3(m: StateModel) -> spec_fn(int) -> bool {
    |i: int| m.fetch[i] == Evicted && m.flag(i, stripe_flags::IN_S3)
}

/// The counters equal the number of stripes they speak of. `claims` gives,
/// for each stripe that is being evicted, the state it was claimed from.
pub open spec fn consistent(m: StateModel, claims: Map<int, u8>) -> bool {
    let n = m.fetch.len();
    &&& m.wf()
    &&& n <= u64::MAX
    &&& forall|i: int|
        0 <= i < n ==> (#[trigger] m.write[i]) == NotWritten || m.write[i] == Written
    &&& forall|i: int|
        0 <= i < n && (#[trigger] m.fetch[i]) == Evicting ==> claims.dom().contains(i) && occupies(
            claims[i],
            m.write[i],
        )
    &&& forall|i: int|
        0 <= i < n && any_set(#[trigger] m.flags[i], stripe_flags::WAS_EVICTED) ==> m.fetch[i]
            == Failed
    &&& m.fetched == count_where(n, stands_fetched(m, claims))
    &&& m.resident == count_where(n, stands_resident(m, claims))
    &&& m.evicted == count_where(n, is_evicted(m))
    &&& m.in_s3 == count_where(n, is_in_s3(m))
}

/// `b` is one if `p`.
spec fn one_if(p: bool) -> int {
    if p {
        1
    } else {
        0
    }
}

/// `m2` agrees with `m` on every stripe but `id`.
spec fn differs_only_at(
    m: StateModel,
    claims: Map<int, u8>,
    m2: StateModel,
    claims2: Map<int, u8>,
    id: int,
) -> bool {
    &&& m2.fetch.len() == m.fetch.len()
    &&& forall|i: int|
        0 <= i < m.fetch.len() && i != id ==> {
            &&& (#[trigger] m2.fetch[i]) == m.fetch[i]
            &&& m2.write[i] == m.write[i]
            &&& m2.flags[i] == m.flags[i]
            &&& claims2[i] == claims[i]
            &&& claims2.dom().contains(i) == claims.dom().contains(i)
        }
}

/// How the counts move when one stripe changes.
proof fn lemma_change_one(
    m: StateModel,
    claims: Map<int, u8>,
    m2: StateModel,
    claims2: Map<int, u8>,
    id: int,
)
    requires
        m.valid(id),
        differs_only_at(m, claims, m2, claims2, id),
    ensures
        ({
            let n = m.fetch.len();
            &&& count_where(n, stands_fetched(m2, claims2)) == count_where(
                n,
                stands_fetched(m, claims),
            ) + one_if(stands_fetched(m2, claims2)(id)) - one_if(stands_fetched(m, claims)(id))
            &&& count_where(n, stands_resident(m2, claims2)) == count_where(
                n,
                stands_resident(m, claims),
            ) + one_if(stands_resident(m2, claims2)(id)) - one_if(stands_resident(m, claims)(id))
            &&& count_where(n, is_evicted(m2)) == count_where(n, is_evicted(m)) + one_if(
                is_evicted(m2)(id),
            ) - one_if(is_evicted(m)(id))
            &&& count_where(n, is_in_s3(m2)) == count_where(n, is_in_s3(m)) + one_if(
                is_in_s3(m2)(id),
            ) - one_if(is_in_s3(m)(id))
            &&& count_where(n, stands_fetched(m2, claims2)) <= n
            &&& count_where(n, stands_resident(m2, claims2)) <= n
            &&& count_where(n, is_evicted(m2)) <= n
            &&& count_where(n, is_in_s3(m2)) <= n
        }),
{
    let n = m.fetch.len();
    assert forall|i: int| 0 <= i < n && i != id implies {
        &&& #[trigger] stands_fetched(m, claims)(i) == #[trigger] stands_fetched(m2, claims2)(i)
        &&& stands_resident(m, claims)(i) == stands_resident(m2, claims2)(i)
        &&& is_evicted(m)(i) == is_evicted(m2)(i)
        &&& is_in_s3(m)(i) == is_in_s3(m2)(i)
    } by {
        assert(m2.fetch[i] == m.fetch[i]);
    }
    assert forall|i: int| 0 <= i < n && i != id implies #[trigger] stands_resident(m, claims)(i)
        == #[trigger] stands_resident(m2, claims2)(i) by {
        assert(m2.fetch[i] == m.fetch[i]);
    }
    assert forall|i: int| 0 <= i < n && i != id implies #[trigger] is_evicted(m)(i)
        == #[trigger] is_evicted(m2)(i) by {
        assert(m2.fetch[i] == m.fetch[i]);
    }
    assert forall|i: int| 0 <= i < n && i != id implies #[trigger] is_in_s3(m)(i)
        == #[trigger] is_in_s3(m2)(i) by {
        assert(m2.fetch[i] == m.fetch[i]);
    }
    lemma_count_update(n, stands_fetched(m, claims), stands_fetched(m2, claims2), id);
    lemma_count_update(n, stands_resident(m, claims), stands_resident(m2, claims2), id);
    lemma_count_update(n, is_evicted(m), is_evicted(m2), id);
    lemma_count_update(n, is_in_s3(m), is_in_s3(m2), id);
    lemma_count_bound(n, stands_fetched(m2, claims2));
    lemma_count_bound(n, stands_resident(m2, claims2));
    lemma_count_bound(n, is_evicted(m2));
    lemma_count_bound(n, is_in_s3(m2));
}

/// The state a device opens with is consistent, with no stripe claimed.
pub proof fn law_opened_state_is_consistent(headers: Seq<u8>, shift: u8)
    requires
        shift < 64,
        headers.len() <= u64::MAX,
    ensures
        consistent(StateModel::opened(headers, shift), Map::empty()),
{
    let m = StateModel::opened(headers, shift);
    let claims = Map::<int, u8>::empty();
    let n = headers.len();
    lemma_bits_distinct();
    assert forall|i: int| 0 <= i < n implies !any_set(
        #[trigger] m.flags[i],
        stripe_flags::WAS_EVICTED,
    ) && (any_set(m.flags[i], stripe_flags::IN_S3) == (headers[i] & metadata_flags::IN_S3
        != 0)) by {
        let h = headers[i];
        assert((h & 0x34) & 0x08 == 0 && (((h & 0x34) & 0x10 != 0) == (h & 0x10 != 0)))
            by (bit_vector);
    }
    assert forall|i: int| 0 <= i < n implies #[trigger] header_satisfies(
        headers,
        opens_fetched(),
    )(i) == #[trigger] stands_fetched(m, claims)(i) by {
        assert(m.fetch[i] == header_fetch_state(headers[i]));
    }
    assert forall|i: int| 0 <= i < n implies #[trigger] header_satisfies(
        headers,
        opens_resident(),
    )(i) == #[trigger] stands_resident(m, claims)(i) by {
        assert(m.fetch[i] == header_fetch_state(headers[i]));
    }
    assert forall|i: int| 0 <= i < n implies #[trigger] header_satisfies(
        headers,
        opens_evicted(),
    )(i) == #[trigger] is_evicted(m)(i) by {
        assert(m.fetch[i] == header_fetch_state(headers[i]));
    }
    assert forall|i: int| 0 <= i < n implies #[trigger] header_satisfies(
        headers,
        opens_in_s3(),
    )(i) == #[trigger] is_in_s3(m)(i) by {
        assert(m.fetch[i] == header_fetch_state(headers[i]));
        assert(m.flags[i] == headers[i] & stripe_flags::PERSISTED_MASK);
    }
    lemma_count_same(n, header_satisfies(headers, opens_fetched()), stands_fetched(m, claims));
    lemma_count_same(n, header_satisfies(headers, opens_resident()), stands_resident(m, claims));
    lemma_count_same(n, header_satisfies(headers, opens_evicted()), is_evicted(m));
    lemma_count_same(n, header_satisfies(headers, opens_in_s3()), is_in_s3(m));
    lemma_count_bound(n, header_satisfies(headers, opens_fetched()));
    lemma_count_bound(n, header_satisfies(headers, opens_resident()));
    lemma_count_bound(n, header_satisfies(headers, opens_evicted()));
    lemma_count_bound(n, header_satisfies(headers, opens_in_s3()));
}

/// What side bits a landing leaves.
proof fn lemma_landing_flags(flags: u8)
    ensures
        any_set(flags | stripe_flags::FETCHED_LIVE, stripe_flags::WAS_EVICTED) == any_set(
            flags,
            stripe_flags::WAS_EVICTED,
        ),
        any_set(flags | stripe_flags::FETCHED_LIVE, stripe_flags::IN_S3) == any_set(
            flags,
            stripe_flags::IN_S3,
        ),
        any_set(flags | stripe_flags::FETCHED_LIVE, stripe_flags::HAS_SOURCE) == any_set(
            flags,
            stripe_flags::HAS_SOURCE,
        ),
{
    lemma_bits_distinct();
    lemma_set_bits(flags, stripe_flags::FETCHED_LIVE, stripe_flags::WAS_EVICTED);
    lemma_set_bits(flags, stripe_flags::FETCHED_LIVE, stripe_flags::IN_S3);
    lemma_set_bits(flags, stripe_flags::FETCHED_LIVE, stripe_flags::HAS_SOURCE);
}

/// Landing a fetched stripe keeps the counters consistent. The one exception
/// is a stripe that neither has a source nor was written: it is counted
/// resident although it holds nothing.
pub proof fn law_mark_fetched_keeps_counts(m: StateModel, claims: Map<int, u8>, id: int)
    requires
        consistent(m, claims),
        m.valid(id),
        m.flag(id, stripe_flags::HAS_SOURCE) || m.write[id] == Written,
    ensures
        consistent(m.after_mark_fetched(id), claims),
{
    let m2 = m.after_mark_fetched(id);
    lemma_landing_flags(m.flags[id]);
    lemma_change_one(m, claims, m2, claims, id);
    assert forall|i: int|
        0 <= i < m.fetch.len() && any_set(
            #[trigger] m2.flags[i],
            stripe_flags::WAS_EVICTED,
        ) implies m2.fetch[i] == Failed by {
        if i != id {
            assert(m2.flags[i] == m.flags[i]);
        } else {
            assert(any_set(m.flags[i], stripe_flags::WAS_EVICTED));
        }
    }
}

/// Landing an evicted stripe keeps the counters consistent, with the same
/// exception.
pub proof fn law_mark_resident_keeps_counts(m: StateModel, claims: Map<int, u8>, id: int)
    requires
        consistent(m, claims),
        m.valid(id),
        m.flag(id, stripe_flags::HAS_SOURCE) || m.write[id] == Written,
    ensures
        consistent(m.after_mark_resident(id), claims),
{
    let m2 = m.after_mark_resident(id);
    lemma_bits_distinct();
    lemma_landing_flags(m.flags[id]);
    let landed = m.after_landing(id).flags[id];
    lemma_clear_bits(landed, stripe_flags::WAS_EVICTED, stripe_flags::IN_S3);
    lemma_change_one(m, claims, m2, claims, id);
    if m.fetch[id] == Evicted {
        lemma_count_positive(m.fetch.len(), is_evicted(m), id);
        if m.flag(id, stripe_flags::IN_S3) {
            lemma_count_positive(m.fetch.len(), is_in_s3(m), id);
        }
    }
    assert forall|i: int|
        0 <= i < m.fetch.len() && any_set(
            #[trigger] m2.flags[i],
            stripe_flags::WAS_EVICTED,
        ) implies m2.fetch[i] == Failed by {
        if i != id {
            assert(m2.flags[i] == m.flags[i]);
        } else {
            assert(any_set(m.flags[i], stripe_flags::WAS_EVICTED));
        }
    }
}

/// Recording a write keeps the counters consistent.
pub proof fn law_mark_written_keeps_counts(m: StateModel, claims: Map<int, u8>, id: int)
    requires
        consistent(m, claims),
        m.valid(id),
    ensures
        consistent(m.after_mark_written(id), claims),
{
    let m2 = m.after_mark_written(id);
    lemma_change_one(m, claims, m2, claims, id);
    assert forall|i: int| 0 <= i < m.fetch.len() implies (#[trigger] m2.write[i]) == NotWritten
        || m2.write[i] == Written by {
        if i != id {
            assert(m2.write[i] == m.write[i]);
        }
    }
    assert(forall|i: int| 0 <= i < m.fetch.len() ==> #[trigger] m2.flags[i] == m.flags[i]);
    assert forall|i: int|
        0 <= i < m.fetch.len() && (#[trigger] m2.fetch[i]) == Evicting implies claims.dom().contains(
        i,
    ) && occupies(claims[i], m2.write[i]) by {
        assert(m.fetch[i] == Evicting);
    }
}

/// A header completion keeps the counters consistent when what it records was
/// recorded before: a write into a NoSource stripe, or an object for a stripe
/// that is not local, is counted when it happens, not when it is persisted.
pub proof fn law_set_header_keeps_counts(
    m: StateModel,
    claims: Map<int, u8>,
    id: int,
    header: u8,
)
    requires
        consistent(m, claims),
        m.valid(id),
        m.flag(id, stripe_flags::HAS_SOURCE) || m.write[id] == Written || header
            & metadata_flags::FETCHED == 0,
        header & metadata_flags::WRITTEN != 0 ==> m.write[id] == Written || m.fetch[id] != NoSource,
        header & metadata_flags::IN_S3 != 0 && m.fetch[id] == Evicted ==> m.flag(
            id,
            stripe_flags::IN_S3,
        ),
    ensures
        consistent(m.after_set_header(id, header), claims),
{
    let landed = if header & metadata_flags::FETCHED != 0 && !m.flag(
        id,
        stripe_flags::WAS_EVICTED,
    ) {
        m.after_mark_fetched(id)
    } else {
        m
    };
    if header & metadata_flags::FETCHED != 0 && !m.flag(id, stripe_flags::WAS_EVICTED) {
        law_mark_fetched_keeps_counts(m, claims, id);
    }
    assert(consistent(landed, claims));
    let m2 = m.after_set_header(id, header);
    let bits = header & stripe_flags::PERSISTED_MASK;
    assert((header & 0x34) & 0x08 == 0 && (((header & 0x34) & 0x10 != 0) == (header & 0x10 != 0)))
        by (bit_vector);
    lemma_set_bits(landed.flags[id], bits, stripe_flags::WAS_EVICTED);
    lemma_set_bits(landed.flags[id], bits, stripe_flags::IN_S3);
    lemma_landing_flags(m.flags[id]);
    lemma_change_one(landed, claims, m2, claims, id);
    assert forall|i: int|
        0 <= i < m.fetch.len() && any_set(
            #[trigger] m2.flags[i],
            stripe_flags::WAS_EVICTED,
        ) implies m2.fetch[i] == Failed by {
        if i != id {
            assert(m2.flags[i] == landed.flags[i]);
        } else {
            assert(any_set(landed.flags[i], stripe_flags::WAS_EVICTED));
        }
    }
    assert forall|i: int| 0 <= i < m.fetch.len() implies (#[trigger] m2.write[i]) == NotWritten
        || m2.write[i] == Written by {
        assert(landed.write[i] == NotWritten || landed.write[i] == Written);
    }
    assert forall|i: int|
        0 <= i < m.fetch.len() && (#[trigger] m2.fetch[i]) == Evicting implies claims.dom().contains(
        i,
    ) && occupies(claims[i], m2.write[i]) by {
        assert(landed.fetch[i] == Evicting);
    }
}

/// A failed fetch keeps the counters consistent, for any stripe that is
/// neither resident nor claimed.
pub proof fn law_set_failed_keeps_counts(m: StateModel, claims: Map<int, u8>, id: int)
    requires
        consistent(m, claims),
        m.valid(id),
        m.fetch[id] != Evicting,
        !m.is_resident(id),
    ensures
        consistent(m.after_set_failed(id), claims),
{
    let m2 = m.after_set_failed(id);
    lemma_bits_distinct();
    lemma_set_bits(m.flags[id], stripe_flags::WAS_EVICTED, stripe_flags::IN_S3);
    lemma_change_one(m, claims, m2, claims, id);
    if m.fetch[id] == Evicted {
        lemma_count_positive(m.fetch.len(), is_evicted(m), id);
        if m.flag(id, stripe_flags::IN_S3) {
            lemma_count_positive(m.fetch.len(), is_in_s3(m), id);
        }
    }
    assert forall|i: int|
        0 <= i < m.fetch.len() && any_set(
            #[trigger] m2.flags[i],
            stripe_flags::WAS_EVICTED,
        ) implies m2.fetch[i] == Failed by {
        if i != id {
            assert(m2.flags[i] == m.flags[i]);
        }
    }
}

/// Claiming a stripe moves no counter.
pub proof fn law_claim_keeps_counts(m: StateModel, claims: Map<int, u8>, id: int)
    requires
        consistent(m, claims),
        m.valid(id),
        m.claimable(id),
    ensures
        consistent(m.with_fetch(id, Evicting), claims.insert(id, m.fetch[id])),
{
    let m2 = m.with_fetch(id, Evicting);
    let claims2 = claims.insert(id, m.fetch[id]);
    lemma_change_one(m, claims, m2, claims2, id);
    assert(forall|i: int| 0 <= i < m.fetch.len() ==> #[trigger] m2.flags[i] == m.flags[i]);
    assert forall|i: int|
        0 <= i < m.fetch.len() && (#[trigger] m2.fetch[i])
            == Evicting implies claims2.dom().contains(i) && occupies(claims2[i], m2.write[i]) by {
        if i != id {
            assert(m.fetch[i] == Evicting);
        }
    }
}

/// Aborting an eviction restores the stripe and moves no counter.
pub proof fn law_abort_keeps_counts(m: StateModel, claims: Map<int, u8>, id: int)
    requires
        consistent(m, claims),
        m.valid(id),
        m.fetch[id] == Evicting,
    ensures
        consistent(m.after_abort_evicting(id, claims[id]), claims.remove(id)),
{
    let m2 = m.after_abort_evicting(id, claims[id]);
    let claims2 = claims.remove(id);
    lemma_change_one(m, claims, m2, claims2, id);
    assert(forall|i: int| 0 <= i < m.fetch.len() ==> #[trigger] m2.flags[i] == m.flags[i]);
    assert forall|i: int|
        0 <= i < m.fetch.len() && (#[trigger] m2.fetch[i])
            == Evicting implies claims2.dom().contains(i) && occupies(claims2[i], m2.write[i]) by {
        assert(m.fetch[i] == Evicting);
    }
}

/// Finishing an eviction keeps the counters consistent. A stripe dropped
/// without an upload must not carry a stale IN_S3.
pub proof fn law_finish_keeps_counts(m: StateModel, claims: Map<int, u8>, id: int, in_s3: bool)
    requires
        consistent(m, claims),
        m.valid(id),
        m.fetch[id] == Evicting,
        in_s3 || !m.flag(id, stripe_flags::IN_S3),
    ensures
        consistent(m.after_finish_evicting(id, claims[id], in_s3), claims.remove(id)),
{
    let m2 = m.after_finish_evicting(id, claims[id], in_s3);
    let claims2 = claims.remove(id);
    lemma_bits_distinct();
    let marked = if in_s3 {
        m.flags[id] | stripe_flags::IN_S3
    } else {
        m.flags[id]
    };
    lemma_set_bits(m.flags[id], stripe_flags::IN_S3, stripe_flags::IN_S3);
    lemma_set_bits(m.flags[id], stripe_flags::IN_S3, stripe_flags::WAS_EVICTED);
    lemma_clear_bits(marked, stripe_flags::FETCHED_LIVE, stripe_flags::IN_S3);
    lemma_clear_bits(marked, stripe_flags::FETCHED_LIVE, stripe_flags::WAS_EVICTED);
    lemma_change_one(m, claims, m2, claims2, id);
    lemma_count_positive(m.fetch.len(), stands_resident(m, claims), id);
    if claims[id] == Fetched {
        lemma_count_positive(m.fetch.len(), stands_fetched(m, claims), id);
    }
    assert forall|i: int|
        0 <= i < m.fetch.len() && any_set(
            #[trigger] m2.flags[i],
            stripe_flags::WAS_EVICTED,
        ) implies m2.fetch[i] == Failed by {
        if i != id {
            assert(m2.flags[i] == m.flags[i]);
        } else {
            assert(any_set(m.flags[i], stripe_flags::WAS_EVICTED));
        }
    }
    assert forall|i: int|
        0 <= i < m.fetch.len() && (#[trigger] m2.fetch[i])
            == Evicting implies claims2.dom().contains(i) && occupies(claims2[i], m2.write[i]) by {
        assert(m.fetch[i] == Evicting);
    }
}

/// An abort undoes the claim: the state is as if the evictor had never looked
/// at the stripe.
pub proof fn law_abort_undoes_claim(m: StateModel, id: int)
    requires
        m.valid(id),
        m.claimable(id),
    ensures
        m.with_fetch(id, Evicting).after_abort_evicting(id, m.fetch[id]) == m,
{
    assert(m.with_fetch(id, Evicting).after_abort_evicting(id, m.fetch[id]) =~= m);
}

/// Neither a landing nor a header completion moves a stripe that is being
/// evicted or is not local: only `mark_stripe_resident` releases it.
pub proof fn law_completions_never_release_an_evicting_stripe(
    m: StateModel,
    id: int,
    header: u8,
)
    requires
        m.wf(),
        m.valid(id),
        m.fetch[id] == Evicting || m.fetch[id] == Evicted,
    ensures
        m.after_mark_fetched(id).fetch == m.fetch,
        m.after_set_header(id, header).fetch == m.fetch,
        m.after_set_header(id, header).fetched == m.fetched,
        m.after_set_header(id, header).resident == m.resident,
{
    assert(m.after_mark_fetched(id).fetch =~= m.fetch);
    assert(m.after_set_header(id, header).fetch =~= m.fetch);
}

/// A stripe whose header still says EVICTED although its state is Failed does
/// not land through `mark_stripe_fetched` or a header completion; it lands
/// through `mark_stripe_resident`, which clears the mark.
pub proof fn law_formerly_evicted_stripe_lands_only_as_resident(
    m: StateModel,
    id: int,
    header: u8,
)
    requires
        m.wf(),
        m.valid(id),
        m.fetch[id] == Failed,
        m.flag(id, stripe_flags::WAS_EVICTED),
    ensures
        m.after_mark_fetched(id) == m.with_anomaly(),
        m.after_set_header(id, header).fetch == m.fetch,
        m.after_set_header(id, header).spill == m.spill,
        m.after_mark_resident(id).fetch[id] == m.landed(id),
        !m.after_mark_resident(id).flag(id, stripe_flags::WAS_EVICTED),
        m.after_mark_resident(id).evicted == m.evicted,
        m.after_mark_resident(id).in_s3 == m.in_s3,
        m.after_mark_resident(id).spill == m.spill,
{
    assert(m.after_set_header(id, header).fetch =~= m.fetch);
    lemma_clear_bits(
        m.after_landing(id).flags[id],
        stripe_flags::WAS_EVICTED,
        stripe_flags::WAS_EVICTED,
    );
}

/// A fetch of an evicted stripe that fails and then lands ends where a fetch
/// that lands at once ends.
pub proof fn law_failing_first_changes_nothing_in_the_end(m: StateModel, id: int)
    requires
        m.wf(),
        m.valid(id),
        m.fetch[id] == Evicted,
        !m.flag(id, stripe_flags::WAS_EVICTED),
    ensures
        m.after_set_failed(id).after_mark_resident(id) == m.after_mark_resident(id),
{
    let f = m.flags[id];
    lemma_bits_distinct();
    lemma_set_bits(f, stripe_flags::WAS_EVICTED, stripe_flags::WAS_EVICTED);
    lemma_set_bits(f, stripe_flags::WAS_EVICTED, stripe_flags::HAS_SOURCE);
    lemma_landing_flags(f);
    assert(f & 0x08 == 0 ==> ((f | 0x08) | 0x80) & !0x08u8 == f | 0x80 && (f | 0x08) & !0x08u8
        == f) by (bit_vector);
    let a = m.after_set_failed(id).after_mark_resident(id);
    let b = m.after_mark_resident(id);
    assert(a.fetch =~= b.fetch);
    assert(a.flags =~= b.flags);
    assert(a =~= b);
}

/// Evicting a stripe and landing it again restores every count.
pub proof fn law_evict_then_land_restores_counts(m: StateModel, id: int, in_s3: bool)
    requires
        m.wf(),
        m.valid(id),
        m.claimable(id),
        m.fetch[id] == m.landed(id),
        !m.flag(id, stripe_flags::WAS_EVICTED),
        in_s3 || !m.flag(id, stripe_flags::IN_S3),
    ensures
        ({
            let evicted = m.with_fetch(id, Evicting).after_finish_evicting(
                id,
                m.fetch[id],
                in_s3,
            );
            let back = evicted.after_mark_resident(id);
            &&& evicted.fetch[id] == Evicted
            &&& evicted.flag(id, stripe_flags::IN_S3) == in_s3
            &&& back.fetch == m.fetch
            &&& back.write == m.write
            &&& back.fetched == m.fetched
            &&& back.resident == m.resident
            &&& back.evicted == m.evicted
            &&& back.in_s3 == m.in_s3
            &&& back.spill == m.spill
            &&& back.flag(id, stripe_flags::FETCHED_LIVE) == m.live
        }),
{
    let f = m.flags[id];
    lemma_bits_distinct();
    let marked = if in_s3 {
        f | stripe_flags::IN_S3
    } else {
        f
    };
    lemma_set_bits(f, stripe_flags::IN_S3, stripe_flags::IN_S3);
    lemma_set_bits(f, stripe_flags::IN_S3, stripe_flags::WAS_EVICTED);
    lemma_set_bits(f, stripe_flags::IN_S3, stripe_flags::HAS_SOURCE);
    lemma_clear_bits(marked, stripe_flags::FETCHED_LIVE, stripe_flags::IN_S3);
    lemma_clear_bits(marked, stripe_flags::FETCHED_LIVE, stripe_flags::WAS_EVICTED);
    lemma_clear_bits(marked, stripe_flags::FETCHED_LIVE, stripe_flags::HAS_SOURCE);
    let cleared = marked & !stripe_flags::FETCHED_LIVE;
    lemma_landing_flags(cleared);
    lemma_set_bits(cleared, stripe_flags::FETCHED_LIVE, stripe_flags::FETCHED_LIVE);
    let evicted = m.with_fetch(id, Evicting).after_finish_evicting(id, m.fetch[id], in_s3);
    let back = evicted.after_mark_resident(id);
    assert(evicted.flags[id] == cleared);
    assert(back.fetch =~= m.fetch);
}

/// Unpinning undoes pinning.
pub proof fn law_unpin_undoes_pin(m: StateModel, first: int, last: int)
    requires
        forall|i: int| first <= i <= last ==> (#[trigger] m.inflight[i]) < u16::MAX,
    ensures
        m.with_pins(first, last, 1).with_pins(first, last, -1) == m,
{
    let back = m.with_pins(first, last, 1).with_pins(first, last, -1);
    assert(back.inflight =~= m.inflight);
    assert(back =~= m);
}

/// A stall is counted when the write gate closes, once: moving a closed gate
/// counts nothing, and neither does opening it.
pub proof fn law_stalls_count_closings(m: StateModel, gate: u8)
    ensures
        m.after_set_gate(gate).gate == gate,
        m.gate == GATE_OPEN && gate != GATE_OPEN ==> m.after_set_gate(gate).spill.stalls == inc(
            m.spill.stalls,
        ),
        m.gate != GATE_OPEN || gate == GATE_OPEN ==> m.after_set_gate(gate).spill == m.spill,
{
}

/// The CLOCK bit never reaches the bits that are persisted.
pub proof fn law_reference_bit_stays_in_memory(flags: u8)
    ensures
        (flags | stripe_flags::REFERENCED) & stripe_flags::PERSISTED_MASK == flags
            & stripe_flags::PERSISTED_MASK,
        (flags & !stripe_flags::REFERENCED) & stripe_flags::PERSISTED_MASK == flags
            & stripe_flags::PERSISTED_MASK,
{
    assert((flags | 0x40) & 0x34 == flags & 0x34 && (flags & !0x40u8) & 0x34 == flags & 0x34)
        by (bit_vector);
}

} // verus!
