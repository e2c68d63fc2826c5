//! The way of a stripe out of the device, step by step.

use vstd::prelude::*;
use crate::io::{Answer, IoCall, IoError, PunchCall, StoreCall};
use crate::metadata::shared_state::{Evicted, Evicting, Fetched, StateModel};
use crate::metadata_flusher::{MetadataFlusherRequest, PersistOutcome, PersistResult};
use crate::spill::evictor_model::{
    drains, find, ids_where, in_runs, is_active, law_runs_hold_the_numbers, lemma_find,
    lists_evicted, retries, run_bytes, run_calls, run_offset, runs_of, runs_punched, stripe_named,
    take_calls, Eviction, EvictorConfig, EvictorModel, FetchDisposition, HeldPush, Kind,
    PushDisposition, ReadResult, ReleasedPush, Stage, SweepModel, TickInputs, TickModel,
};
use crate::push_gate::PushPermit;
use crate::spill::pressure_laws::{in_use, lemma_none_counted, served_again};
use crate::text::decimal;

verus! {

/// Number `k` is the record of stripe `id`, and the only one.
pub open spec fn record_of(m: EvictorModel, k: int, id: usize) -> bool {
    &&& 0 <= k < m.records.len()
    &&& m.records[k].stripe_id == id
    &&& forall|i: int, j: int|
        0 <= i < j < m.records.len() ==> (#[trigger] m.records[i]).stripe_id != (
        #[trigger] m.records[j]).stripe_id
}

/// The search finds it.
proof fn lemma_record_of(m: EvictorModel, k: int, id: usize)
    requires
        record_of(m, k, id),
    ensures
        find(m.records, id) == k,
        m.tracks(id),
        m.record(id) == m.records[k],
{
    lemma_find(m.records, id, 0);
    let at = find(m.records, id);
    if at < k {
        assert(m.records[at].stripe_id != m.records[k].stripe_id);
    } else if k < at {
        assert(m.records[k].stripe_id != id);
    }
}

/// Replacing a record by one of the same stripe keeps it the only one.
proof fn lemma_record_kept(m: EvictorModel, k: int, id: usize, r: Eviction)
    requires
        record_of(m, k, id),
        r.stripe_id == id,
    ensures
        record_of(m.with_record(id, r), k, id),
        m.with_record(id, r).records == m.records.update(k, r),
{
    lemma_record_of(m, k, id);
}

/// The stripe's first sector and how many the device has of it.
pub open spec fn place(cfg: EvictorConfig, id: usize, offset: int, count: int) -> bool {
    &&& offset == id * cfg.stripe_sector_count
    &&& 0 <= count <= cfg.stripe_sector_count
    &&& offset + count <= cfg.target_sector_count || count == 0
    &&& count == cfg.stripe_sector_count || offset + count == cfg.target_sector_count
        || offset >= cfg.target_sector_count
}

/// The bits of a header op together.
proof fn lemma_header_bits()
    ensures
        0x08u8 | 0x10u8 == 0x18u8,
        0x01u8 | 0x10u8 == 0x11u8,
{
    assert(0x08u8 | 0x10u8 == 0x18u8 && 0x01u8 | 0x10u8 == 0x11u8) by (bit_vector);
}

/// A stripe that nobody uses any more and that the source can serve again has
/// its header written: EVICTED is set, FETCHED and IN_S3 are cleared, under a
/// token that the record keeps. Nothing is read.
pub proof fn law_a_drained_clean_stripe_has_its_header_written(
    t: TickModel,
    k: int,
    id: usize,
    submitted: Answer,
    now: u64,
)
    requires
        record_of(t.m, k, id),
        !t.m.records[k].aborted,
        t.m.records[k].stage == Stage::Draining,
        t.m.records[k].kind == Kind::Clean,
        t.s.inflight[id as int] == 0,
        served_again(t.m, t.s, id as int),
    ensures
        ({
            let after = t.drained(id, submitted is Ok, now);
            let r = after.m.records[k];
            &&& t.drain_calls(id, submitted, now) == Seq::<IoCall<Seq<u8>>>::empty()
            &&& after.s == t.s
            &&& after.m.records.len() == t.m.records.len()
            &&& r.stripe_id == id && r.stage is WritingHeader && !r.aborted
            &&& after.f.queue == t.f.queue.push(
                MetadataFlusherRequest {
                    stripe_id: id,
                    set: 0x08,
                    clear: 0x11,
                    token: r.stage->token,
                },
            )
        }),
{
    lemma_record_of(t.m, k, id);
    lemma_header_bits();
}

/// A stripe that nobody uses any more and that is to be uploaded is read whole,
/// from its place on the device, into a buffer of the evictor's, as soon as one
/// is free.
pub proof fn law_a_drained_dirty_stripe_is_read(
    t: TickModel,
    k: int,
    id: usize,
    submitted: Answer,
    now: u64,
)
    requires
        t.wf(),
        record_of(t.m, k, id),
        !t.m.records[k].aborted,
        t.m.records[k].stage == Stage::Draining,
        t.m.records[k].kind == Kind::Dirty,
        t.s.inflight[id as int] == 0,
        t.m.cfg.stripe_sector_count <= u32::MAX,
        id * t.m.cfg.stripe_sector_count <= u64::MAX,
    ensures
        ({
            let after = t.drained(id, true, now);
            let calls = t.drain_calls(id, submitted, now);
            if t.m.free_buffers == 0 {
                calls == Seq::<IoCall<Seq<u8>>>::empty() && after.m.records[k] == t.m.records[k]
            } else {
                &&& calls.len() == 2
                &&& calls[0] matches IoCall::Read { sector_offset, sector_count, buf, id: under }
                    && under == id && place(
                    t.m.cfg,
                    id,
                    sector_offset as int,
                    sector_count as int,
                ) && buf.len() == t.m.cfg.stripe_sector_count * 512
                &&& calls[1] == IoCall::<Seq<u8>>::Submit { result: submitted }
                &&& after.m.records == t.m.records.update(
                    k,
                    Eviction {
                        stage: Stage::Reading,
                        io_outstanding: true,
                        holds_buffer: true,
                        ..t.m.records[k]
                    },
                )
                &&& after.m.free_buffers == t.m.free_buffers - 1
                &&& after.s == t.s && after.f == t.f
            }
        }),
{
    lemma_record_of(t.m, k, id);
    let r = t.m.records[k];
    assert(Eviction { kind: Kind::Dirty, ..r } == r);
    assert(t.m.records.update(k, r) =~= t.m.records);
    assert(t.m.with_kind(id, Kind::Dirty) =~= t.m);
    let c = t.m.cfg.stripe_sector_count as int;
    assert(0 <= id * c) by (nonlinear_arith)
        requires
            c >= 0,
    ;
}

/// A stripe that was to be dropped and that the source can serve no more is
/// uploaded instead if the store can take it, and put back otherwise.
pub proof fn law_a_stripe_no_longer_clean_is_uploaded_or_put_back(
    t: TickModel,
    k: int,
    id: usize,
    now: u64,
)
    requires
        record_of(t.m, k, id),
        !t.m.records[k].aborted,
        !t.m.records[k].io_outstanding,
        t.m.records[k].stage == Stage::Draining,
        t.m.records[k].kind == Kind::Clean,
        t.s.inflight[id as int] == 0,
        !served_again(t.m, t.s, id as int),
        t.s.fetch[id as int] == Evicting,
        id < t.s.fetch.len(),
    ensures
        ({
            let after = t.drained(id, true, now);
            &&& after.f == t.f
            &&& t.m.dirty_allowed(t.s, now) && t.m.free_buffers > 0 ==> {
                &&& after.m.records[k].kind == Kind::Dirty
                &&& after.m.records[k].stage == Stage::Reading
                &&& after.s == t.s
            }
            &&& !t.m.dirty_allowed(t.s, now) ==> {
                &&& after.m.records == t.m.records.remove(k)
                &&& after.s.fetch == t.s.fetch.update(id as int, t.m.records[k].previous)
                &&& after.m.recent == t.m.recent.insert(id, now)
            }
        }),
{
    lemma_record_of(t.m, k, id);
    let r = t.m.records[k];
    let changed = Eviction { kind: Kind::Dirty, ..r };
    lemma_record_kept(t.m, k, id, changed);
    lemma_record_of(t.m.with_record(id, changed), k, id);
}

/// A stripe in use is waited for, for five seconds from the claim; after that it
/// is put back where it was and spared for a while.
pub proof fn law_a_stripe_in_use_is_waited_for(t: TickModel, k: int, id: usize, now: u64)
    requires
        record_of(t.m, k, id),
        !t.m.records[k].aborted,
        !t.m.records[k].io_outstanding,
        t.m.records[k].stage == Stage::Draining,
        t.s.inflight[id as int] != 0,
        t.s.fetch[id as int] == Evicting,
        id < t.s.fetch.len(),
    ensures
        ({
            let after = t.drained(id, true, now);
            if now <= t.m.records[k].started + 5_000_000_000 {
                after == t
            } else {
                &&& after.m.records == t.m.records.remove(k)
                &&& after.s.fetch == t.s.fetch.update(id as int, t.m.records[k].previous)
                &&& after.m.recent == t.m.recent.insert(id, now)
                &&& after.f == t.f
            }
        }),
{
    lemma_record_of(t.m, k, id);
}

/// A stripe that was read and encoded is handed to the store under the device's
/// name and the stripe's number; its buffer is free again, and the upload is
/// counted.
pub proof fn law_a_read_stripe_is_uploaded(
    t: TickModel,
    k: int,
    id: usize,
    data: Seq<u8>,
    len: u64,
    start: u64,
    end: u64,
    now: u64,
)
    requires
        record_of(t.m, k, id),
        !t.m.records[k].aborted,
        t.m.records[k].stage == Stage::Reading,
        t.m.records[k].holds_buffer,
        t.m.has_store,
        t.m.puts < usize::MAX,
    ensures
        ({
            let result = ReadResult::Encoded { len, start, end };
            let after = t.read(id, true, result, now);
            let puts = t.read_puts(id, true, Some(data), result, now);
            &&& puts.len() == 1
            &&& puts[0] matches StoreCall::Put { name, data: object } && name
                == t.m.cfg.device_id@ + "/"@ + decimal(id as nat)
            &&& after.m.records == t.m.records.update(
                k,
                Eviction {
                    stage: Stage::Putting,
                    io_outstanding: true,
                    holds_buffer: false,
                    object_len: len,
                    ..t.m.records[k]
                },
            )
            &&& after.m.puts == t.m.puts + 1
            &&& after.m.free_buffers == t.m.free_buffers + 1
            &&& after.s.fetch == t.s.fetch && after.f == t.f
            &&& t.s.spill.puts < u64::MAX ==> after.s.spill.puts == t.s.spill.puts + 1
        }),
{
    lemma_record_of(t.m, k, id);
    let over = Eviction { io_outstanding: false, holds_buffer: false, ..t.m.records[k] };
    lemma_record_kept(t.m, k, id, over);
    let m2 = t.m.after_read_over(id);
    assert(record_of(m2, k, id));
    lemma_record_of(m2, k, id);
    assert(t.m.after_read(id, true, now) == m2);
    assert(t.read(id, true, ReadResult::Encoded { len, start, end }, now).m.records
        =~= t.m.records.update(
        k,
        Eviction {
            stage: Stage::Putting,
            io_outstanding: true,
            holds_buffer: false,
            object_len: len,
            ..t.m.records[k]
        },
    ));
}

/// A stripe whose read failed, or whose data is missing or cannot be encoded,
/// is put back where it was; nothing is stored.
pub proof fn law_an_unreadable_stripe_is_put_back(
    t: TickModel,
    k: int,
    id: usize,
    ok: bool,
    data: Option<Seq<u8>>,
    result: ReadResult,
    now: u64,
)
    requires
        record_of(t.m, k, id),
        !t.m.records[k].aborted,
        t.m.records[k].stage == Stage::Reading,
        t.m.records[k].holds_buffer,
        !ok || !(result is Encoded),
        t.s.fetch[id as int] == Evicting,
        id < t.s.fetch.len(),
    ensures
        ({
            let after = t.read(id, ok, result, now);
            &&& t.read_puts(id, ok, data, result, now) == Seq::<StoreCall>::empty()
            &&& after.m.records == t.m.records.remove(k)
            &&& after.s.fetch == t.s.fetch.update(id as int, t.m.records[k].previous)
            &&& after.m.free_buffers == t.m.free_buffers + 1
            &&& after.m.recent == t.m.recent.insert(id, now)
            &&& after.f == t.f
        }),
{
    lemma_record_of(t.m, k, id);
    let over = Eviction { io_outstanding: false, holds_buffer: false, ..t.m.records[k] };
    lemma_record_kept(t.m, k, id, over);
    let m2 = t.m.after_read_over(id);
    assert(record_of(m2, k, id));
    lemma_record_of(m2, k, id);
    let after = t.read(id, ok, result, now);
    assert(after.m.records =~= t.m.records.remove(k));
}

/// A stripe that the store took has its header written: EVICTED and IN_S3 are
/// set and FETCHED is cleared, under a token that the record keeps; the store
/// counts as sound again, and its bytes are counted.
pub proof fn law_a_stored_stripe_has_its_header_written(
    t: TickModel,
    k: int,
    id: usize,
    name: Seq<char>,
    now: u64,
)
    requires
        record_of(t.m, k, id),
        stripe_named(name) == Some(id),
        !t.m.records[k].aborted,
        t.m.records[k].stage == Stage::Putting,
        t.m.records[k].kind == Kind::Dirty,
        t.m.puts > 0,
    ensures
        ({
            let after = t.put(name, true, now);
            let r = after.m.records[k];
            &&& after.m.records.len() == t.m.records.len()
            &&& r.stripe_id == id && r.stage is WritingHeader && !r.aborted && !r.io_outstanding
            &&& after.f.queue == t.f.queue.push(
                MetadataFlusherRequest {
                    stripe_id: id,
                    set: 0x18,
                    clear: 0x01,
                    token: r.stage->token,
                },
            )
            &&& after.m.puts == t.m.puts - 1
            &&& after.m.degraded_until is None && after.m.backoff == 1_000_000_000
            &&& !after.s.spill.degraded
            &&& t.s.spill.put_bytes + t.m.records[k].object_len <= u64::MAX
                ==> after.s.spill.put_bytes == t.s.spill.put_bytes + t.m.records[k].object_len
            &&& after.s.fetch == t.s.fetch
        }),
{
    lemma_record_of(t.m, k, id);
    let over = Eviction { io_outstanding: false, ..t.m.records[k] };
    lemma_record_kept(t.m, k, id, over);
    let m2 = t.m.after_put_over(id).after_recovery();
    assert(record_of(m2, k, id));
    lemma_record_of(m2, k, id);
    lemma_header_bits();
}

/// A stripe that the store refused is put back where it was, and the store
/// pauses: for as long as the last pause asks, and the next one is twice as
/// long, up to a minute.
pub proof fn law_a_refused_upload_puts_the_stripe_back(
    t: TickModel,
    k: int,
    id: usize,
    name: Seq<char>,
    now: u64,
)
    requires
        record_of(t.m, k, id),
        stripe_named(name) == Some(id),
        !t.m.records[k].aborted,
        t.m.records[k].stage == Stage::Putting,
        t.m.puts > 0,
        t.s.fetch[id as int] == Evicting,
        id < t.s.fetch.len(),
        now + t.m.backoff <= u64::MAX,
    ensures
        ({
            let after = t.put(name, false, now);
            &&& after.m.records == t.m.records.remove(k)
            &&& after.s.fetch == t.s.fetch.update(id as int, t.m.records[k].previous)
            &&& after.f == t.f
            &&& after.m.puts == t.m.puts - 1
            &&& after.s.spill.degraded
            &&& after.m.degraded_until == Some((now + t.m.backoff) as u64)
            &&& after.m.backoff == if 2 * t.m.backoff < 60_000_000_000 {
                2 * t.m.backoff
            } else {
                60_000_000_000
            }
            &&& t.s.spill.put_failures < u64::MAX ==> after.s.spill.put_failures
                == t.s.spill.put_failures + 1
        }),
{
    lemma_record_of(t.m, k, id);
    let over = Eviction { io_outstanding: false, ..t.m.records[k] };
    lemma_record_kept(t.m, k, id, over);
    let m2 = t.m.after_put_over(id).after_store_failure(now);
    assert(record_of(m2, k, id));
    lemma_record_of(m2, k, id);
    let after = t.put(name, false, now);
    assert(after.m.records =~= t.m.records.remove(k));
}

/// Once the header that the record waits for is durable, the stripe's blocks
/// are given back, all of them and no others, and the stripe is gone: it counts
/// as evicted and no more as resident, and as stored if it was uploaded. What
/// waited for the end is released.
pub proof fn law_a_durable_header_gives_the_blocks_back(
    t: TickModel,
    k: int,
    id: usize,
    o: PersistOutcome,
    punched: Answer,
    now: u64,
)
    requires
        t.wf(),
        record_of(t.m, k, id),
        !t.m.records[k].aborted,
        t.m.records[k].stage == (Stage::WritingHeader { token: o.token }),
        o.token & 1 == 1,
        o.stripe_id == id,
        o.result == PersistResult::Durable,
        t.s.fetch[id as int] == Evicting,
        t.s.resident > 0,
        t.s.evicted < u64::MAX,
        t.s.in_s3 < u64::MAX,
        t.s.fetched > 0,
    ensures
        ({
            let r = t.m.records[k];
            let calls = t.outcome_calls(o, punched);
            let m2 = t.m.after_outcome(o, punched, now);
            let s2 = t.m.state_after_outcome(t.s, o, punched);
            &&& calls.len() == 1
            &&& calls[0] matches PunchCall::Punch { offset, len, result } && result == punched
                && offset == id * t.m.cfg.stripe_sector_count * 512 && place(
                t.m.cfg,
                id,
                offset as int / 512,
                len as int / 512,
            ) && len as int % 512 == 0
            &&& m2.records == t.m.records.remove(k)
            &&& s2.fetch == t.s.fetch.update(id as int, Evicted)
            &&& s2.resident == t.s.resident - 1
            &&& s2.evicted == t.s.evicted + 1
            &&& s2.in_s3 == t.s.in_s3 + if r.kind == Kind::Dirty {
                1int
            } else {
                0
            }
            &&& s2.fetched == t.s.fetched - if r.previous == Fetched {
                1int
            } else {
                0
            }
            &&& r.kind == Kind::Dirty ==> s2.flags[id as int] & 0x10 != 0
            &&& s2.flags[id as int] & 0x80 == 0
            &&& m2.released_fetches == if r.deferred_fetch {
                t.m.released_fetches.push(id)
            } else {
                t.m.released_fetches
            }
            &&& m2.released_pushes == match r.deferred_push {
                Some(push) => t.m.released_pushes.push(
                    ReleasedPush { stripe_id: id, data: push.data, permit: push.permit },
                ),
                None => t.m.released_pushes,
            }
            &&& punched matches Err(e) ==> m2.punch_supported == (t.m.punch_supported && e.errno
                != 95)
            &&& punched is Ok ==> m2.punch_supported == t.m.punch_supported
        }),
{
    lemma_record_of(t.m, k, id);
    let c = t.m.cfg.stripe_sector_count as int;
    let n = t.s.fetch.len() as int;
    assert(EvictorModel::record_ok(t.m.records[k], t.s.fetch.len()));
    assert(0 <= id * c <= id * c + c <= n * c && id * (c * 512) == id * c * 512 && n * (c * 512)
        == n * c * 512) by (nonlinear_arith)
        requires
            c >= 0,
            0 <= id <= n - 1,
    ;
    let flags = t.s.flags[id as int];
    assert(((flags | 0x10u8) & !0x80u8) & 0x10u8 != 0 && ((flags | 0x10u8) & !0x80u8) & 0x80u8 == 0
        && (flags & !0x80u8) & 0x80u8 == 0) by (bit_vector);
}

/// A header that provably was not written puts the stripe back, unless an
/// earlier one may have been; any other answer leaves the stripe claimed, and
/// the header is written again a second later.
pub proof fn law_an_unwritten_header_puts_the_stripe_back(
    t: TickModel,
    k: int,
    id: usize,
    o: PersistOutcome,
    punched: Answer,
    now: u64,
)
    requires
        record_of(t.m, k, id),
        !t.m.records[k].aborted,
        !t.m.records[k].io_outstanding,
        t.m.records[k].stage == (Stage::WritingHeader { token: o.token }),
        o.token & 1 == 1,
        o.stripe_id == id,
        o.result != PersistResult::Durable,
        t.s.fetch[id as int] == Evicting,
        id < t.s.fetch.len(),
        now + 1_000_000_000 <= u64::MAX,
    ensures
        ({
            let r = t.m.records[k];
            let m2 = t.m.after_outcome(o, punched, now);
            let s2 = t.m.state_after_outcome(t.s, o, punched);
            &&& t.outcome_calls(o, punched) == Seq::<PunchCall>::empty()
            &&& if o.result == PersistResult::NotWritten && !r.committed {
                &&& m2.records == t.m.records.remove(k)
                &&& s2.fetch == t.s.fetch.update(id as int, r.previous)
                &&& m2.recent == t.m.recent.insert(id, now)
            } else {
                &&& m2.records == t.m.records.update(
                    k,
                    Eviction {
                        committed: true,
                        retry_at: Some((now + 1_000_000_000) as u64),
                        ..r
                    },
                )
                &&& s2.fetch == t.s.fetch
            }
        }),
{
    lemma_record_of(t.m, k, id);
}

/// A header that is due again is written again, as it was, under the token of
/// the same claim.
pub proof fn law_a_header_due_again_is_written_again(
    t: TickModel,
    k: int,
    id: usize,
    at: u64,
    now: u64,
)
    requires
        record_of(t.m, k, id),
        !t.m.records[k].aborted,
        t.m.records[k].retry_at == Some(at),
    ensures
        ({
            let after = t.retried(id, now);
            let r = after.m.records[k];
            if at > now {
                after == t
            } else {
                &&& r.stage is WritingHeader && r.retry_at is None && r.epoch
                    == t.m.records[k].epoch
                &&& after.f.queue == t.f.queue.push(
                    MetadataFlusherRequest {
                        stripe_id: id,
                        set: if t.m.records[k].kind == Kind::Dirty {
                            0x18
                        } else {
                            0x08
                        },
                        clear: if t.m.records[k].kind == Kind::Dirty {
                            0x01
                        } else {
                            0x11
                        },
                        token: r.stage->token,
                    },
                )
                &&& after.s == t.s
            }
        }),
{
    lemma_record_of(t.m, k, id);
    lemma_header_bits();
}

/// Every claim that waits for its requests is looked at in a tick, and so is
/// every header that is due again.
pub proof fn law_every_claim_is_looked_at(m: EvictorModel, k: int, now: u64)
    requires
        0 <= k < m.records.len(),
        !m.records[k].aborted,
    ensures
        m.records[k].stage == Stage::Draining ==> m.ids_where(drains()).contains(
            m.records[k].stripe_id,
        ),
        m.records[k].retry_at matches Some(at) ==> at <= now ==> m.ids_where(
            retries(now),
        ).contains(m.records[k].stripe_id),
{
    lemma_listed_record(m.records, drains(), k);
    lemma_listed_record(m.records, retries(now), k);
}

/// A record that satisfies the predicate is listed.
proof fn lemma_listed_record(records: Seq<Eviction>, p: spec_fn(Eviction) -> bool, k: int)
    requires
        0 <= k < records.len(),
    ensures
        p(records[k]) ==> ids_where(records, p).contains(records[k].stripe_id),
    decreases records.len(),
{
    if p(records[k]) {
        let all = ids_where(records, p);
        let front = ids_where(records.drop_last(), p);
        if k < records.len() - 1 {
            lemma_listed_record(records.drop_last(), p, k);
            let j = front.index_of(records[k].stripe_id);
            assert(all[j] == records[k].stripe_id);
        } else {
            assert(all[all.len() - 1] == records[k].stripe_id);
        }
    }
}

/// A pushed stripe that is being uploaded, or that the store holds while the
/// device does not, is dropped: the device's own data is newer. One that is
/// being dropped is kept until the header is durable, if that is being written,
/// and else makes the stripe stay. Any other goes on.
pub proof fn law_what_becomes_of_a_pushed_stripe(m: EvictorModel, s: StateModel, k: int, id: usize)
    requires
        record_of(m, k, id),
    ensures
        ({
            let r = m.records[k];
            let gone = s.fetch[id as int] == Evicted || s.flags[id as int] & 0x08 != 0;
            let stored = s.flags[id as int] & 0x10 != 0;
            m.push_disposition(s, id) == if !r.aborted && r.kind == Kind::Dirty {
                PushDisposition::Ignore
            } else if !r.aborted && r.stage is WritingHeader {
                PushDisposition::Deferred
            } else if !r.aborted {
                PushDisposition::AbortedEviction
            } else if gone && stored {
                PushDisposition::Ignore
            } else {
                PushDisposition::Forward
            }
        }),
{
    lemma_record_of(m, k, id);
}

/// A run of stripes is given back from the start of its first stripe to the end
/// of its last, or of the device where that ends sooner.
pub proof fn law_a_run_is_given_back_whole(cfg: EvictorConfig, run: (usize, usize))
    requires
        run.0 <= run.1,
        run.1 * cfg.stripe_sector_count < cfg.target_sector_count,
    ensures
        ({
            let end = if (run.1 + 1) * cfg.stripe_sector_count <= cfg.target_sector_count {
                (run.1 + 1) * cfg.stripe_sector_count
            } else {
                cfg.target_sector_count as int
            };
            &&& run_offset(cfg, run) == run.0 * cfg.stripe_sector_count * 512
            &&& run_offset(cfg, run) + run_bytes(cfg, run) == end * 512
        }),
{
    let c = cfg.stripe_sector_count as int;
    assert((run.1 + 1) * c == run.1 * c + c) by (nonlinear_arith);
}

/// The free space is asked for at first and then every quarter of a second; an
/// answer is kept, and a refusal changes nothing but the time.
pub proof fn law_the_free_space_is_asked_for_regularly(
    t: TickModel,
    answer: Result<u64, IoError>,
    now: u64,
)
    ensures
        ({
            let due = match t.m.last_statfs {
                Some(at) => now >= at + 250_000_000,
                None => true,
            };
            let after = t.refreshed(answer, now);
            &&& t.refresh_calls(answer, now) == if due {
                seq![PunchCall::FreeBytes { free: answer }]
            } else {
                Seq::empty()
            }
            &&& !due ==> after == t
            &&& due ==> {
                &&& after.m.last_statfs == Some(now)
                &&& after.m.free_bytes == match answer {
                    Ok(free) => Some(free),
                    Err(e) => t.m.free_bytes,
                }
                &&& answer matches Ok(free) ==> after.s.spill.free_bytes == free
            }
        }),
{
    reveal(TickModel::refreshed);
    reveal(TickModel::refresh_calls);
}

/// A stripe that was put back is spared by the hand for a second.
pub proof fn law_a_stripe_put_back_is_spared_for_a_second(t: TickModel, id: usize, now: u64)
    ensures
        t.expired(now).m.recent.contains_key(id) <==> t.m.recent.contains_key(id) && now
            < t.m.recent[id] + 1_000_000_000,
{
    reveal(TickModel::expired);
}

/// When a device starts, the blocks of every stripe whose header says EVICTED
/// and not FETCHED are given back, and those of no other: each such stripe lies
/// within one of the runs the puncher is asked for, and each stripe of a run is
/// such a stripe.
pub proof fn law_every_evicted_stripe_is_given_back_at_startup(
    cfg: EvictorConfig,
    headers: Seq<u8>,
    ids: Seq<usize>,
    punches: Seq<Answer>,
    id: usize,
)
    requires
        lists_evicted(ids, headers),
        punches.len() == runs_of(ids).len(),
        id < headers.len(),
        headers.len() * cfg.stripe_sector_count * 512 <= u64::MAX,
        (headers.len() - 1) * cfg.stripe_sector_count < cfg.target_sector_count,
        cfg.target_sector_count * 512 <= u64::MAX,
        cfg.stripe_sector_count > 0,
    ensures
        headers[id as int] & 0x08 != 0 && headers[id as int] & 0x01 == 0 <==> given_back(
            cfg,
            run_calls(cfg, runs_of(ids), punches),
            id,
        ),
{
    let runs = runs_of(ids);
    let calls = run_calls(cfg, runs, punches);
    let c = cfg.stripe_sector_count as int;
    let n = headers.len() as int;
    law_runs_hold_the_numbers(ids);
    assert(ids.contains(id) <==> headers[id as int] & 0x08 != 0 && headers[id as int] & 0x01 == 0)
        by {
        if ids.contains(id) {
            let k = ids.index_of(id);
            assert(ids[k] == id);
        }
    }
    assert(in_runs(runs, id) == ids.contains(id));
    assert forall|k: int| 0 <= k < runs.len() implies {
        let run = #[trigger] runs[k];
        &&& calls[k] matches PunchCall::Punch { offset, len, result } && offset == run.0 * c * 512
            && offset + len == 512 * least((run.1 + 1) * c, cfg.target_sector_count as int)
        &&& run.0 <= run.1 < n
    } by {
        let run = runs[k];
        assert(ids.contains(run.1));
        let j = ids.index_of(run.1);
        assert(ids[j] < headers.len());
        assert(run.1 * c <= (n - 1) * c && run.0 * c <= run.1 * c && (run.1 + 1) * c <= n * c && (
        run.1 + 1) * c == run.1 * c + c) by (nonlinear_arith)
            requires
                run.0 <= run.1 <= n - 1,
                c >= 0,
        ;
        law_a_run_is_given_back_whole(cfg, run);
    }
    if in_runs(runs, id) {
        let k = choose|k: int| 0 <= k < runs.len() && (#[trigger] runs[k]).0 <= id <= runs[k].1;
        let run = runs[k];
        assert(run.0 * c <= id * c <= (n - 1) * c && (id + 1) * c <= (run.1 + 1) * c && (id + 1) * c
            == id * c + c) by (nonlinear_arith)
            requires
                run.0 <= id <= run.1,
                id <= n - 1,
                c >= 0,
        ;
        assert(gives_back(cfg, calls[k], id));
    }
    if given_back(cfg, calls, id) {
        let k = choose|k: int| 0 <= k < calls.len() && gives_back(cfg, #[trigger] calls[k], id);
        let run = runs[k];
        assert(id * c <= (n - 1) * c && (id + 1) * c == id * c + c) by (nonlinear_arith)
            requires
                id <= n - 1,
                c >= 0,
        ;
        assert(run.0 <= id) by (nonlinear_arith)
            requires
                run.0 * c <= id * c,
                c > 0,
        ;
        assert(id <= run.1) by (nonlinear_arith)
            requires
                id * c < (run.1 + 1) * c,
                c > 0,
        ;
        assert(in_runs(runs, id));
    }
}

/// The smaller of two.
pub open spec fn least(a: int, b: int) -> int {
    if a <= b {
        a
    } else {
        b
    }
}

/// The call gives back all blocks of the stripe.
pub open spec fn gives_back(cfg: EvictorConfig, call: PunchCall, id: usize) -> bool {
    let start = id * cfg.stripe_sector_count * 512;
    let end = 512 * least((id + 1) * cfg.stripe_sector_count, cfg.target_sector_count as int);
    call matches PunchCall::Punch { offset, len, result } && offset <= start < end <= offset + len
}

/// One of the calls gives back all blocks of the stripe.
pub open spec fn given_back(cfg: EvictorConfig, calls: Seq<PunchCall>, id: usize) -> bool {
    exists|k: int| 0 <= k < calls.len() && gives_back(cfg, #[trigger] calls[k], id)
}

/// A guest's fetch is kept: with the record whose header is being written, or,
/// while writes are held or refused, among those held, and there only once.
pub proof fn law_a_guests_fetch_is_kept(m: EvictorModel, s: StateModel, id: usize, now: u64)
    ensures
        ({
            let after = m.after_fetch_request(s, id, now);
            let disposition = m.fetch_disposition(s, id);
            &&& disposition == FetchDisposition::Forward ==> after == m
            &&& disposition == FetchDisposition::HeldForSpace || disposition
                == FetchDisposition::Refused ==> {
                &&& after.held.contains(id)
                &&& m.held.contains(id) ==> after == m
                &&& !m.held.contains(id) ==> after.held == m.held.push(id)
                &&& after.records == m.records
            }
            &&& disposition == FetchDisposition::Deferred ==> {
                &&& after.held == m.held
                &&& after.records.len() == m.records.len()
                &&& after.record(id).deferred_fetch
            }
        }),
{
    lemma_find(m.records, id, 0);
    let at = find(m.records, id);
    if m.fetch_disposition(s, id) == FetchDisposition::Deferred {
        let after = m.after_fetch_request(s, id, now);
        lemma_find(after.records, id, 0);
        assert(after.records[at].stripe_id == id);
        let found = find(after.records, id);
        if found < at {
            assert(after.records[found] == m.records[found]);
        } else if at < found {
            assert(after.records[at].stripe_id != id);
        }
    }
    let disposition = m.fetch_disposition(s, id);
    if (disposition == FetchDisposition::HeldForSpace || disposition == FetchDisposition::Refused)
        && !m.held.contains(id) {
        assert(m.held.push(id)[m.held.len() as int] == id);
    }
}

/// A pushed stripe that waits for an eviction to end is kept with its record,
/// data and slot, in place of an earlier one, whose slot comes back; the slot of
/// one that is dropped comes back at once.
pub proof fn law_a_pushed_stripe_is_kept_or_dropped(
    m: EvictorModel,
    s: StateModel,
    k: int,
    id: usize,
    data: Vec<u8>,
    permit: PushPermit,
    now: u64,
)
    requires
        record_of(m, k, id),
    ensures
        ({
            let after = m.after_pushed_stripe(s, id, data, permit, now);
            let disposition = m.push_disposition(s, id);
            &&& disposition == PushDisposition::Forward ==> after == m
            &&& disposition == PushDisposition::Ignore ==> after.dropped == m.dropped.push(permit)
                && after.records == m.records
            &&& disposition == PushDisposition::AbortedEviction ==> after.dropped.contains(permit)
                && after.recent == m.recent.insert(id, now)
            &&& disposition == PushDisposition::Deferred ==> {
                &&& after.records[k].deferred_push == Some(HeldPush { data, permit })
                &&& after.records.len() == m.records.len()
                &&& after.dropped == match m.records[k].deferred_push {
                    Some(earlier) => m.dropped.push(earlier.permit),
                    None => m.dropped,
                }
            }
        }),
{
    lemma_record_of(m, k, id);
    let after = m.after_pushed_stripe(s, id, data, permit, now);
    if m.push_disposition(s, id) == PushDisposition::AbortedEviction {
        assert(after.dropped[after.dropped.len() - 1] == permit);
    }
}

/// The evictor has something to do exactly if an eviction is under way,
/// something released is to be routed, or the device is under pressure, holes
/// can be punched, there is room for an eviction, stripes can be dropped or
/// uploaded, and the hand has not been round without a claim.
pub proof fn law_when_the_evictor_is_busy(m: EvictorModel, s: StateModel, now: u64)
    ensures
        m.is_busy(s, now) <==> {
            ||| exists|k: int| 0 <= k < m.records.len() && !(#[trigger] m.records[k]).aborted
            ||| m.released_fetches.len() > 0
            ||| m.released_pushes.len() > 0
            ||| m.pressed && m.punch_supported && m.records.len() < m.cfg.max_concurrent_evictions
                && m.idle_examined < s.fetch.len() && ((m.cfg.clean_eviction && s.live)
                || m.dirty_allowed(s, now))
        },
{
    lemma_none_counted(m.records, is_active());
    if exists|k: int| 0 <= k < m.records.len() && !(#[trigger] m.records[k]).aborted {
        let k = choose|k: int| 0 <= k < m.records.len() && !(#[trigger] m.records[k]).aborted;
        assert(is_active()(m.records[k]));
    } else {
        assert forall|k: int| 0 <= k < m.records.len() implies !is_active()(
            #[trigger] m.records[k],
        ) by {
            assert(m.records[k].aborted);
        }
    }
}

/// Reads that could not be handed over are handed over again as long as there is
/// one, and are noted no more once that succeeds.
pub proof fn law_reads_are_handed_over_again(t: TickModel, answer: Answer)
    ensures
        ({
            let wanted = exists|k: int|
                0 <= k < t.m.records.len() && (#[trigger] t.m.records[k]).resubmit_read;
            let after = t.resubmitted(answer is Ok);
            &&& t.resubmit_calls(answer) == if wanted {
                seq![IoCall::<Seq<u8>>::Submit { result: answer }]
            } else {
                Seq::empty()
            }
            &&& !wanted || answer is Err ==> after == t
            &&& wanted && answer is Ok ==> {
                &&& after.m.records.len() == t.m.records.len()
                &&& forall|k: int|
                    0 <= k < t.m.records.len() ==> (#[trigger] after.m.records[k]) == (Eviction {
                        resubmit_read: false,
                        ..t.m.records[k]
                    })
                &&& after.s == t.s && after.f == t.f
            }
        }),
{
    reveal(TickModel::resubmitted);
    reveal(TickModel::resubmit_calls);
}

/// Dirty stripes that were put off are claimed for upload in order, as long as
/// there is room for an eviction, need of one, and a store that can take it.
pub proof fn law_stripes_put_off_are_claimed(x: SweepModel, from: nat, now: u64)
    requires
        from < x.deferred.len(),
        x.m.records.len() < x.m.cfg.max_concurrent_evictions,
        x.m.more_needed(x.s),
        x.m.dirty_allowed(x.s, now),
        in_use(x.s, x.deferred[from as int] as int),
    ensures
        ({
            let id = x.deferred[from as int];
            let next = x.with_claim(id, Kind::Dirty, now);
            &&& x.claimed_deferred(from, now) == next.claimed_deferred(from + 1, now)
            &&& next.m.records.len() == x.m.records.len() + 1
            &&& next.m.records.last().stripe_id == id && next.m.records.last().kind == Kind::Dirty
            &&& next.m.records.last().stage == Stage::Draining
            &&& next.m.records.last().previous == x.s.fetch[id as int]
            &&& next.s.fetch == x.s.fetch.update(id as int, Evicting)
            &&& next.claimed == x.claimed + 1
        }),
{
}

/// Outcomes, finished reads and finished uploads are worked through one by one,
/// in order, none left out.
pub proof fn law_an_evictor_tick_works_item_by_item(
    t: TickModel,
    outcomes: Seq<PersistOutcome>,
    punches: Seq<Answer>,
    reads: Seq<(usize, bool)>,
    data: Seq<Option<Seq<u8>>>,
    results: Seq<ReadResult>,
    puts: Seq<(String, bool)>,
    ids: Seq<usize>,
    submits: Seq<Answer>,
    now: u64,
    count: nat,
)
    requires
        count > 0,
    ensures
        ({
            let before = t.outcomes_applied(outcomes, punches, now, (count - 1) as nat);
            let o = outcomes[count - 1];
            &&& t.outcomes_applied(outcomes, punches, now, count) == (TickModel {
                m: before.m.after_outcome(o, punches[count - 1], now),
                s: before.m.state_after_outcome(before.s, o, punches[count - 1]),
                ..before
            })
            &&& t.all_outcome_calls(outcomes, punches, now, count) == t.all_outcome_calls(
                outcomes,
                punches,
                now,
                (count - 1) as nat,
            ) + before.outcome_calls(o, punches[count - 1])
        }),
        ({
            let before = t.reads_done(reads, results, now, (count - 1) as nat);
            let (id, ok) = reads[count - 1];
            &&& t.reads_done(reads, results, now, count) == before.read(
                id,
                ok,
                results[count - 1],
                now,
            )
            &&& t.all_read_puts(reads, data, results, now, count) == t.all_read_puts(
                reads,
                data,
                results,
                now,
                (count - 1) as nat,
            ) + before.read_puts(id, ok, data[count - 1], results[count - 1], now)
        }),
        t.puts_done(puts, now, count) == t.puts_done(puts, now, (count - 1) as nat).put(
            puts[count - 1].0@,
            puts[count - 1].1,
            now,
        ),
        ({
            let before = t.all_drained(ids, submits, now, (count - 1) as nat);
            &&& t.all_drained(ids, submits, now, count) == before.drained(
                ids[count - 1],
                submits[count - 1] is Ok,
                now,
            )
            &&& t.all_drain_calls(ids, submits, now, count) == t.all_drain_calls(
                ids,
                submits,
                now,
                (count - 1) as nat,
            ) + before.drain_calls(ids[count - 1], submits[count - 1], now)
        }),
{
}

/// A stripe that is put back counts as used, so that the hand spares it, and the
/// eviction as abandoned. A record that a completion is owed to stays for it,
/// marked, without what waited; any other ends. The slot of a push that waited
/// comes back.
pub proof fn law_a_stripe_that_is_put_back(
    m: EvictorModel,
    s: StateModel,
    k: int,
    id: usize,
    now: u64,
)
    requires
        record_of(m, k, id),
        !m.records[k].aborted,
        s.fetch[id as int] == Evicting,
        id < s.fetch.len(),
        id < s.flags.len(),
        s.spill.evictions_aborted < u64::MAX,
    ensures
        ({
            let r = m.records[k];
            let m2 = m.after_abort(id, now);
            let s2 = m.state_after_abort(s, id);
            &&& s2.fetch == s.fetch.update(id as int, r.previous)
            &&& s2.flags == s.flags.update(id as int, s.flags[id as int] | 0x40)
            &&& s2.spill.evictions_aborted == s.spill.evictions_aborted + 1
            &&& s2.resident == s.resident && s2.write == s.write
            &&& m2.recent == m.recent.insert(id, now)
            &&& m2.dropped == match r.deferred_push {
                Some(push) => m.dropped.push(push.permit),
                None => m.dropped,
            }
            &&& m2.records == if r.io_outstanding {
                m.records.update(
                    k,
                    Eviction { deferred_fetch: false, deferred_push: None, aborted: true, ..r },
                )
            } else {
                m.records.remove(k)
            }
        }),
{
    lemma_record_of(m, k, id);
}

/// A stripe that is gone is counted by its kind, and so is the punch, as done or
/// as failed.
pub proof fn law_evictions_and_punches_are_counted(
    m: EvictorModel,
    s: StateModel,
    k: int,
    id: usize,
    punched: Answer,
)
    requires
        record_of(m, k, id),
        s.fetch[id as int] == Evicting,
        s.spill.evicted_clean < u64::MAX,
        s.spill.evicted_dirty < u64::MAX,
        s.spill.punches < u64::MAX,
        s.spill.punch_failures < u64::MAX,
        s.spill.degraded_reasons < u64::MAX,
    ensures
        ({
            let clean = m.records[k].kind == Kind::Clean;
            let after = m.state_after_complete(s, id, punched).spill;
            &&& after.evicted_clean == s.spill.evicted_clean + if clean {
                1int
            } else {
                0
            }
            &&& after.evicted_dirty == s.spill.evicted_dirty + if clean {
                0int
            } else {
                1
            }
            &&& after.punches == s.spill.punches + if punched is Ok {
                1int
            } else {
                0
            }
            &&& after.punch_failures == s.spill.punch_failures + if punched is Ok {
                0int
            } else {
                1
            }
            &&& after.degraded_reasons == s.spill.degraded_reasons + if punched is Ok {
                0int
            } else {
                1
            }
            &&& after.puts == s.spill.puts && after.put_bytes == s.spill.put_bytes
        }),
{
    lemma_record_of(m, k, id);
}

/// The runs given back at startup are counted, each as done or as failed, and so
/// are the stripes of those that were done; a failed one is an anomaly, and says
/// once and for all that nothing can be given back if that is what its error
/// says.
pub proof fn law_runs_given_back_at_startup_are_counted(
    m: EvictorModel,
    s: StateModel,
    runs: Seq<(usize, usize)>,
    punches: Seq<Answer>,
    count: nat,
)
    requires
        0 < count <= runs.len(),
        runs.len() == punches.len(),
    ensures
        runs_punched(m, s, runs, punches, 0) == (m, s, 0int),
        ({
            let (m1, s1, covered1) = runs_punched(m, s, runs, punches, (count - 1) as nat);
            let (m2, s2, covered2) = runs_punched(m, s, runs, punches, count);
            let (first, last) = runs[count - 1];
            let done = punches[count - 1] is Ok;
            let one: int = if done {
                1
            } else {
                0
            };
            &&& covered2 == covered1 + one * (last + 1 - first)
            &&& s1.spill.startup_punches < u64::MAX ==> s2.spill.startup_punches
                == s1.spill.startup_punches + one
            &&& s1.spill.punch_failures < u64::MAX ==> s2.spill.punch_failures
                == s1.spill.punch_failures + 1 - one
            &&& s1.spill.degraded_reasons < u64::MAX ==> s2.spill.degraded_reasons
                == s1.spill.degraded_reasons + 1 - one
            &&& s2.spill.punches == s1.spill.punches
            &&& s2.fetch == s1.fetch && s2.flags == s1.flags && s2.resident == s1.resident
            &&& done ==> m2 == m1
            &&& punches[count - 1] matches Err(e) ==> m2.punch_supported == (m1.punch_supported
                && e.errno != 95)
        }),
{
}

/// The whole of a stripe is uploaded, as far as the device has it: what is read
/// of it decides between an object of exactly those bytes and giving up.
pub proof fn law_the_whole_of_a_stripe_is_uploaded(
    m: EvictorModel,
    id: usize,
    data: Option<Seq<u8>>,
    result: ReadResult,
    count: int,
)
    requires
        m.encodes(id, data, result),
        place(m.cfg, id, id * m.cfg.stripe_sector_count, count),
        id * m.cfg.stripe_sector_count < m.cfg.target_sector_count,
    ensures
        m.data_len(id) == count * 512,
        result is Unusable <==> data is None || data->Some_0.len() < count * 512,
        result is Encoded ==> m.object(id, data->Some_0) == m.codec.encoded(
            id,
            data->Some_0.take(count * 512),
        )->Ok_0,
        result is Refused ==> m.codec.encoded(id, data->Some_0.take(count * 512)) is Err,
{
}

/// The uploads in flight are one fewer for every upload that ends, and a report
/// for a stripe that waits for none changes nothing else.
pub proof fn law_an_upload_that_nobody_waits_for_changes_nothing(
    t: TickModel,
    name: Seq<char>,
    ok: bool,
    now: u64,
)
    requires
        forall|k: int|
            0 <= k < t.m.records.len() ==> stripe_named(name) != Some(
                (#[trigger] t.m.records[k]).stripe_id,
            ) || t.m.records[k].stage != Stage::Putting,
    ensures
        ({
            let after = t.put(name, ok, now);
            &&& after.s == t.s && after.f == t.f
            &&& after.m.records == t.m.records
            &&& t.m.puts > 0 ==> after.m.puts == t.m.puts - 1
            &&& t.m.puts == 0 ==> after.m.puts == 0
        }),
{
    let stripe = stripe_named(name);
    if stripe is Some {
        lemma_find(t.m.records, stripe->0, 0);
        let at = find(t.m.records, stripe->0);
        if at < t.m.records.len() {
            assert(t.m.records[at].stripe_id == stripe->0);
        }
    }
}

/// A tick of the evictor: the free space, the outcomes of header updates, reads
/// to be handed over again, finished reads, finished uploads, claims that wait
/// for their requests, headers that are due again, stripes that were spared long
/// enough, the pressure, and last new claims.
pub proof fn law_the_order_of_an_evictors_tick(
    t: TickModel,
    outcomes: Seq<PersistOutcome>,
    x: TickInputs,
    now: u64,
)
    ensures
        ({
            let a = t.refreshed(x.free, now).outcomes_applied(
                outcomes,
                x.punches,
                now,
                outcomes.len(),
            );
            let b = a.resubmitted(x.resubmitted is Ok);
            let c = b.reads_done(x.reads, x.results, now, x.reads.len());
            let d = c.store_polled(x.puts, now);
            let e = d.advanced(x.submits, now).headers_retried(now).expired(now);
            &&& t.ticked(outcomes, x, now) == e.assessed().selected(now)
            &&& t.punch_calls(outcomes, x, now) == t.refresh_calls(x.free, now) + t.refreshed(
                x.free,
                now,
            ).all_outcome_calls(outcomes, x.punches, now, outcomes.len())
            &&& t.store_calls(outcomes, x, now) == b.all_read_puts(
                x.reads,
                x.data,
                x.results,
                now,
                x.reads.len(),
            ) + c.poll_put_calls(x.puts)
            &&& t.read_calls(outcomes, x, now) == a.resubmit_calls(x.resubmitted) + seq![
                IoCall::Poll { done: x.reads },
            ] + take_calls(x.reads, x.data) + d.advance_calls(x.submits, now)
        }),
{
}

/// Finished uploads are asked for and taken if there is a store; claims that
/// wait and headers that are due again are taken one by one, all of them.
pub proof fn law_an_evictors_tick_leaves_nothing_out(
    t: TickModel,
    puts: Seq<(String, bool)>,
    submits: Seq<Answer>,
    now: u64,
)
    ensures
        t.m.has_store ==> t.store_polled(puts, now) == t.puts_done(puts, now, puts.len()),
        !t.m.has_store ==> t.store_polled(puts, now) == t,
        t.poll_put_calls(puts) == if t.m.has_store {
            seq![StoreCall::PollPuts { done: puts }]
        } else {
            Seq::empty()
        },
        ({
            let ids = t.m.ids_where(drains());
            &&& t.advanced(submits, now) == t.all_drained(ids, submits, now, ids.len())
            &&& t.advance_calls(submits, now) == t.all_drain_calls(ids, submits, now, ids.len())
        }),
        ({
            let ids = t.m.ids_where(retries(now));
            t.headers_retried(now) == t.all_retried(ids, now, ids.len())
        }),
{
    reveal(TickModel::store_polled);
    reveal(TickModel::poll_put_calls);
    reveal(TickModel::advanced);
    reveal(TickModel::advance_calls);
    reveal(TickModel::headers_retried);
}

} // verus!
