//! How a stripe goes from one state to the next.

use vstd::prelude::*;
use crate::metadata::shared_state::{
    contradicts, tally, Evicted, Evicting, Failed, Fetched, GATE_OPEN, NoSource, NotFetched,
    NotWritten, StateModel, Written,
};

verus! {

/// Only stripe `id` differs, and of the counters only those named below; what
/// is in flight, the write gate and the source are as they were.
pub open spec fn only_stripe(a: StateModel, b: StateModel, id: int) -> bool {
    &&& b.fetch.len() == a.fetch.len()
    &&& b.write.len() == a.write.len()
    &&& b.flags.len() == a.flags.len()
    &&& forall|i: int| 0 <= i < a.fetch.len() && i != id ==> #[trigger] b.fetch[i] == a.fetch[i]
    &&& forall|i: int| 0 <= i < a.write.len() && i != id ==> #[trigger] b.write[i] == a.write[i]
    &&& forall|i: int| 0 <= i < a.flags.len() && i != id ==> #[trigger] b.flags[i] == a.flags[i]
    &&& b.inflight == a.inflight && b.gate == a.gate && b.live == a.live
    &&& b.source == a.source && b.shift == a.shift
}

/// An opened device: a stripe whose header says EVICTED and not FETCHED is gone;
/// any other is without a source if its header says so, here if its header says
/// FETCHED, and missing otherwise. It is written if its header says so. Of the
/// other bits those of the source, the store and the push are kept. Nothing is
/// in flight, writes are let through and the source is not live.
pub proof fn law_what_the_headers_of_a_device_stand_for(headers: Seq<u8>, shift: u8, i: int)
    requires
        0 <= i < headers.len(),
    ensures
        ({
            let s = StateModel::opened(headers, shift);
            let h = headers[i];
            let fetched = h & 0x01 != 0;
            let written = h & 0x02 != 0;
            let has_source = h & 0x04 != 0;
            let evicted = h & 0x08 != 0;
            &&& s.fetch.len() == headers.len() && s.write.len() == headers.len()
            &&& s.fetch[i] == if evicted && !fetched {
                Evicted
            } else if !has_source {
                NoSource
            } else if fetched {
                Fetched
            } else {
                NotFetched
            }
            &&& s.write[i] == if written {
                Written
            } else {
                NotWritten
            }
            &&& s.flags[i] == h & 0x34
            &&& s.inflight[i] == 0
            &&& s.gate == GATE_OPEN && !s.live && s.shift == shift
        }),
{
}

/// The counters of an opened device start at zero, but for the headers that say
/// two things at once: each of those is an anomaly from the start.
pub proof fn law_counters_start_at_zero(headers: Seq<u8>, shift: u8)
    ensures
        ({
            let c = StateModel::opened(headers, shift).spill;
            &&& c.evicted_clean == 0 && c.evicted_dirty == 0 && c.evictions_aborted == 0
            &&& c.puts == 0 && c.put_failures == 0 && c.put_bytes == 0
            &&& c.gets == 0 && c.get_failures == 0 && c.get_bytes == 0
            &&& c.punches == 0 && c.punch_failures == 0 && c.startup_punches == 0
            &&& c.stalls == 0 && !c.degraded && c.clean_unrecoverable == 0
            &&& c.encode_ns == 0 && c.decode_ns == 0 && c.free_bytes == 0
            &&& c.degraded_reasons == tally(headers, |h: u8| h & 0x08 != 0 && h & 0x01 != 0)
        }),
{
    let both = |h: u8| h & 0x08 != 0 && h & 0x01 != 0;
    assert(both =~= contradicts());
}

/// A stripe that comes in and was missing or failed is here, or without a
/// source if it never had one, and counts as such; it is marked if the source
/// is live. One that was evicted before does not come in this way, and one that
/// is here, gone or being evicted is left alone.
pub proof fn law_a_missing_stripe_comes_in(s: StateModel, id: int)
    requires
        s.wf(),
        s.valid(id),
        s.fetched < u64::MAX,
        s.resident < u64::MAX,
    ensures
        ({
            let after = s.after_mark_fetched(id);
            let again = s.flags[id] & 0x08 != 0;
            let has_source = s.flags[id] & 0x04 != 0;
            &&& only_stripe(s, after, id)
            &&& !again && (s.fetch[id] == NotFetched || s.fetch[id] == Failed) ==> {
                &&& after.fetch[id] == if has_source {
                    Fetched
                } else {
                    NoSource
                }
                &&& after.resident == s.resident + 1
                &&& after.fetched == s.fetched + if has_source {
                    1int
                } else {
                    0
                }
                &&& after.flags[id] == if s.live {
                    s.flags[id] | 0x80
                } else {
                    s.flags[id]
                }
                &&& after.write == s.write && after.evicted == s.evicted && after.in_s3 == s.in_s3
            }
            &&& again || !(s.fetch[id] == NotFetched || s.fetch[id] == Failed) ==> {
                &&& after.fetch == s.fetch && after.flags == s.flags && after.write == s.write
                &&& after.resident == s.resident && after.fetched == s.fetched
                &&& after.evicted == s.evicted && after.in_s3 == s.in_s3
            }
        }),
{
}

/// A stripe that was evicted comes back: it is here, or without a source if it
/// never had one, and counts as resident and no more as evicted. One whose
/// return failed in between was taken off the evicted ones then.
pub proof fn law_an_evicted_stripe_comes_back(s: StateModel, id: int)
    requires
        s.wf(),
        s.valid(id),
        s.fetched < u64::MAX,
        s.resident < u64::MAX,
        s.evicted > 0,
        s.in_s3 > 0,
    ensures
        ({
            let after = s.after_mark_resident(id);
            let again = s.flags[id] & 0x08 != 0;
            let has_source = s.flags[id] & 0x04 != 0;
            let stored = s.flags[id] & 0x10 != 0;
            let back = if again {
                s.fetch[id] == Failed
            } else {
                s.fetch[id] == Evicted
            };
            &&& only_stripe(s, after, id)
            &&& back ==> {
                &&& after.fetch[id] == if has_source {
                    Fetched
                } else {
                    NoSource
                }
                &&& after.resident == s.resident + 1
                &&& after.fetched == s.fetched + if has_source {
                    1int
                } else {
                    0
                }
                &&& after.evicted == s.evicted - if again {
                    0int
                } else {
                    1
                }
                &&& after.in_s3 == s.in_s3 - if again || !stored {
                    0int
                } else {
                    1
                }
                &&& after.flags[id] & 0x08 == 0
                &&& after.write == s.write
            }
            &&& !back ==> after.fetch == s.fetch && after.flags == s.flags && after.resident
                == s.resident && after.evicted == s.evicted && after.in_s3 == s.in_s3
                && after.fetched == s.fetched && after.write == s.write
        }),
{
    let flags = s.flags[id];
    let live = s.after_landing(id).flags[id];
    assert((flags | 0x80) & 0x08 == flags & 0x08 && (flags | 0x80) & 0x10 == flags & 0x10 && (live
        & !0x08u8) & 0x08 == 0) by (bit_vector);
}

/// A written stripe counts as written, and as resident from then on if it has no
/// source and was not written before.
pub proof fn law_a_stripe_is_written(s: StateModel, id: int)
    requires
        s.wf(),
        s.valid(id),
        s.resident < u64::MAX,
    ensures
        ({
            let after = s.after_mark_written(id);
            &&& only_stripe(s, after, id)
            &&& after.write[id] == Written
            &&& after.fetch == s.fetch && after.flags == s.flags
            &&& after.resident == s.resident + if s.write[id] == NotWritten && s.fetch[id]
                == NoSource {
                1int
            } else {
                0
            }
            &&& after.fetched == s.fetched && after.evicted == s.evicted && after.in_s3 == s.in_s3
        }),
{
}

/// A failed stripe is marked so; one that was evicted is taken off the evicted
/// ones, and remembered as such.
pub proof fn law_a_stripe_fails(s: StateModel, id: int)
    requires
        s.wf(),
        s.valid(id),
        s.evicted > 0,
        s.in_s3 > 0,
    ensures
        ({
            let after = s.after_set_failed(id);
            let stored = s.flags[id] & 0x10 != 0;
            &&& only_stripe(s, after, id)
            &&& after.fetch[id] == Failed
            &&& after.write == s.write
            &&& after.resident == s.resident && after.fetched == s.fetched
            &&& s.fetch[id] == Evicted ==> {
                &&& after.flags[id] == s.flags[id] | 0x08
                &&& after.evicted == s.evicted - 1
                &&& after.in_s3 == s.in_s3 - if stored {
                    1int
                } else {
                    0
                }
            }
            &&& s.fetch[id] != Evicted ==> after.flags == s.flags && after.evicted == s.evicted
                && after.in_s3 == s.in_s3
        }),
{
}

/// A stripe may be claimed exactly if its data occupies local blocks: it is
/// here, or without a source and written.
pub proof fn law_which_stripes_may_be_claimed(s: StateModel, id: int)
    ensures
        s.claimable(id) <==> s.fetch[id] == Fetched || (s.fetch[id] == NoSource && s.write[id]
            == Written),
        s.is_resident(id) == s.claimable(id),
{
}

/// A claimed stripe that is put back is where it was; one that is not claimed
/// stays where it is.
pub proof fn law_a_claim_is_undone(s: StateModel, id: int, previous: u8)
    requires
        s.wf(),
        s.valid(id),
    ensures
        ({
            let after = s.after_abort_evicting(id, previous);
            &&& after.fetch == if s.fetch[id] == Evicting {
                s.fetch.update(id, previous)
            } else {
                s.fetch
            }
            &&& after.write == s.write && after.flags == s.flags && after.inflight == s.inflight
            &&& after.resident == s.resident && after.evicted == s.evicted
            &&& after.fetched == s.fetched && after.in_s3 == s.in_s3
        }),
{
}

/// A claimed stripe that is done is gone: it counts as evicted, as stored if it
/// was, and no more as resident or, if it came from the source, as fetched.
pub proof fn law_a_claim_is_carried_out(s: StateModel, id: int, previous: u8, stored: bool)
    requires
        s.wf(),
        s.valid(id),
        s.fetch[id] == Evicting,
        s.resident > 0,
        s.fetched > 0,
        s.evicted < u64::MAX,
        s.in_s3 < u64::MAX,
    ensures
        ({
            let after = s.after_finish_evicting(id, previous, stored);
            &&& only_stripe(s, after, id)
            &&& after.fetch[id] == Evicted
            &&& after.write == s.write
            &&& after.resident == s.resident - 1
            &&& after.evicted == s.evicted + 1
            &&& after.in_s3 == s.in_s3 + if stored {
                1int
            } else {
                0
            }
            &&& after.fetched == s.fetched - if previous == Fetched {
                1int
            } else {
                0
            }
            &&& after.flags[id] == if stored {
                (s.flags[id] | 0x10) & !0x80u8
            } else {
                s.flags[id] & !0x80u8
            }
        }),
{
}

/// A header that became durable: WRITTEN makes the stripe written, FETCHED
/// brings a missing or failed one in unless it was evicted before, and the bits
/// of the source, the store and the push are taken over.
pub proof fn law_a_durable_header_is_taken_over(s: StateModel, id: int, header: u8)
    requires
        s.wf(),
        s.valid(id),
    ensures
        ({
            let after = s.after_set_header(id, header);
            let again = s.flags[id] & 0x08 != 0;
            &&& only_stripe(s, after, id)
            &&& after.write[id] == if header & 0x02 != 0 {
                Written
            } else {
                s.write[id]
            }
            &&& after.fetch[id] == if header & 0x01 != 0 && !again && (s.fetch[id] == NotFetched
                || s.fetch[id] == Failed) {
                if s.flags[id] & 0x04 != 0 {
                    Fetched
                } else {
                    NoSource
                }
            } else {
                s.fetch[id]
            }
            &&& header & 0x01 == 0 ==> after.flags[id] == s.flags[id] | (header & 0x34)
        }),
{
}

/// A request in flight counts on each of its stripes, once more when it starts
/// and once less when it ends, and on no other.
pub proof fn law_requests_in_flight_are_counted(s: StateModel, first: int, last: int, by: int, i: int)
    requires
        s.wf(),
        0 <= i < s.inflight.len(),
        first <= i <= last ==> 0 <= s.inflight[i] + by <= u16::MAX,
    ensures
        s.with_pins(first, last, by).inflight[i] == s.inflight[i] + if first <= i <= last {
            by
        } else {
            0
        },
        s.with_pins(first, last, by).inflight.len() == s.inflight.len(),
        s.with_pins(first, last, by).fetch == s.fetch,
        s.with_pins(first, last, by).flags == s.flags,
{
}

/// The write gate is where it was put, and each time it closes is counted.
pub proof fn law_the_gate_is_where_it_was_put(s: StateModel, gate: u8)
    requires
        s.spill.stalls < u64::MAX,
    ensures
        s.after_set_gate(gate).gate == gate,
        s.after_set_gate(gate).spill.stalls == s.spill.stalls + if s.gate == 0 && gate != 0 {
            1int
        } else {
            0
        },
        s.after_set_gate(gate).fetch == s.fetch,
        s.after_set_gate(gate).write == s.write,
{
}

} // verus!
