//! The counters of the shared state equal the numbers of stripes they speak
//! of, in every state that calls can lead to.

use vstd::prelude::*;
use crate::counting::{count_where, lemma_count_bound, lemma_count_same, lemma_count_update};
use crate::metadata::metadata_flags;
use crate::metadata::shared_state::{
    header_fetch_state, header_write_state, Evicted, Evicting, Fetched, NoSource, NotWritten,
    StateModel, Written,
};
use crate::metadata::state_laws::{
    is_evicted, is_in_s3, law_opened_state_is_consistent, stands_fetched, stands_resident,
};
use crate::metadata::stripe_flags;
use crate::metadata::stripe_flags::{any_set, lemma_bits_distinct, lemma_clear_bits, lemma_set_bits};

verus! {

/// A call that changes the shared state.
pub enum StateCall {
    /// `mark_stripe_fetched`.
    MarkFetched { id: usize },
    /// `mark_stripe_resident`.
    MarkResident { id: usize },
    /// `mark_stripe_written`.
    MarkWritten { id: usize },
    /// `set_stripe_header`.
    SetHeader { id: usize, header: u8 },
    /// `set_stripe_failed`.
    SetFailed { id: usize },
    /// `try_begin_evicting`.
    Claim { id: usize },
    /// `abort_evicting`, with the state that the last claim gave.
    Abort { id: usize },
    /// `finish_evicting`, with the state that the last claim gave.
    Finish { id: usize, in_s3: bool },
    /// `set_stripe_flags`.
    SetFlags { id: usize, bits: u8 },
    /// `clear_stripe_flags`, and `take_reference`.
    ClearFlags { id: usize, bits: u8 },
    /// `touch`.
    Touch { first: usize, last: usize },
    /// `pin_inflight` and `unpin_inflight`.
    Pin { first: usize, last: usize, by: int },
    /// `set_source_live`.
    SetLive { live: bool },
    /// `set_write_gate`.
    SetGate { gate: u8 },
}

/// The shared state, with the states that claims gave.
pub struct StateRun {
    /// The shared state.
    pub m: StateModel,
    /// What the last successful claim of a stripe returned.
    pub claims: Map<int, u8>,
}

/// The stripe a call is about.
pub open spec fn about(call: StateCall) -> Option<int> {
    match call {
        StateCall::MarkFetched { id } => Some(id as int),
        StateCall::MarkResident { id } => Some(id as int),
        StateCall::MarkWritten { id } => Some(id as int),
        StateCall::SetHeader { id, header } => Some(id as int),
        StateCall::SetFailed { id } => Some(id as int),
        StateCall::Claim { id } => Some(id as int),
        StateCall::Abort { id } => Some(id as int),
        StateCall::Finish { id, in_s3 } => Some(id as int),
        StateCall::SetFlags { id, bits } => Some(id as int),
        StateCall::ClearFlags { id, bits } => Some(id as int),
        _ => None,
    }
}

/// Stripes `first` to `last` were used.
pub open spec fn touched(m: StateModel, first: usize, last: usize) -> StateModel {
    StateModel {
        flags: Seq::new(
            m.flags.len(),
            |i: int|
                if first <= i <= last {
                    m.flags[i] | stripe_flags::REFERENCED
                } else {
                    m.flags[i]
                },
        ),
        ..m
    }
}

impl StateRun {
    /// After a call.
    pub open spec fn called(self, call: StateCall) -> StateRun {
        let m = self.m;
        match call {
            StateCall::MarkFetched { id } => StateRun { m: m.after_mark_fetched(id as int), ..self },
            StateCall::MarkResident { id } => StateRun {
                m: m.after_mark_resident(id as int),
                ..self
            },
            StateCall::MarkWritten { id } => StateRun { m: m.after_mark_written(id as int), ..self },
            StateCall::SetHeader { id, header } => StateRun {
                m: m.after_set_header(id as int, header),
                ..self
            },
            StateCall::SetFailed { id } => StateRun { m: m.after_set_failed(id as int), ..self },
            StateCall::Claim { id } => if m.claimable(id as int) {
                StateRun {
                    m: m.with_fetch(id as int, Evicting),
                    claims: self.claims.insert(id as int, m.fetch[id as int]),
                }
            } else {
                self
            },
            StateCall::Abort { id } => StateRun {
                m: m.after_abort_evicting(id as int, self.claims[id as int]),
                ..self
            },
            StateCall::Finish { id, in_s3 } => StateRun {
                m: m.after_finish_evicting(id as int, self.claims[id as int], in_s3),
                ..self
            },
            StateCall::SetFlags { id, bits } => StateRun {
                m: m.with_flags_set(id as int, bits),
                ..self
            },
            StateCall::ClearFlags { id, bits } => StateRun {
                m: m.with_flags_cleared(id as int, bits),
                ..self
            },
            StateCall::Touch { first, last } => StateRun { m: touched(m, first, last), ..self },
            StateCall::Pin { first, last, by } => StateRun {
                m: m.with_pins(first as int, last as int, by),
                ..self
            },
            StateCall::SetLive { live } => StateRun { m: StateModel { live, ..m }, ..self },
            StateCall::SetGate { gate } => StateRun { m: m.after_set_gate(gate), ..self },
        }
    }

    /// After all calls.
    pub open spec fn ran(self, calls: Seq<StateCall>) -> StateRun
        decreases calls.len(),
    {
        if calls.len() == 0 {
            self
        } else {
            self.ran(calls.drop_last()).called(calls.last())
        }
    }

    /// The call is about a stripe of the device, and only a claimed eviction
    /// is aborted or finished.
    pub open spec fn may(self, call: StateCall) -> bool {
        &&& about(call) matches Some(id) ==> self.m.valid(id)
        &&& call matches StateCall::Abort { id } ==> self.claims.dom().contains(id as int)
        &&& call matches StateCall::Finish { id, in_s3 } ==> self.claims.dom().contains(id as int)
    }

    /// The call may be made, and keeps the number of fetched stripes: a stripe
    /// that is here or being evicted is not declared failed.
    pub open spec fn may_for_fetched(self, call: StateCall) -> bool {
        &&& self.may(call)
        &&& call matches StateCall::SetFailed { id } ==> self.m.fetch[id as int] != Fetched
            && self.m.fetch[id as int] != Evicting
    }

    /// The call may be made, and keeps the number of resident stripes: no
    /// stripe that is here, needs no fetching or is being evicted is declared
    /// failed, no source is taken away, and no write of a stripe without a
    /// source is recorded before `mark_stripe_written` did.
    pub open spec fn may_for_resident(self, call: StateCall) -> bool {
        &&& self.may(call)
        &&& call matches StateCall::SetFailed { id } ==> self.m.fetch[id as int] != Fetched
            && self.m.fetch[id as int] != NoSource && self.m.fetch[id as int] != Evicting
        &&& call matches StateCall::ClearFlags { id, bits } ==> bits & stripe_flags::HAS_SOURCE
            == 0
        &&& call matches StateCall::SetHeader { id, header } ==> (header & metadata_flags::WRITTEN
            == 0 || self.m.write[id as int] == Written || self.m.fetch[id as int] != NoSource)
    }

    /// The call may be made, and keeps the number of stripes with an object in
    /// the store: only a finished upload gives a stripe IN_S3, and a stripe
    /// that has it is not dropped without one.
    pub open spec fn may_for_in_s3(self, call: StateCall) -> bool {
        &&& self.may(call)
        &&& call matches StateCall::Finish { id, in_s3 } ==> {
            &&& in_s3 ==> self.m.fetch[id as int] == Evicting
            &&& !in_s3 ==> !self.m.flag(id as int, stripe_flags::IN_S3)
        }
        &&& call matches StateCall::SetHeader { id, header } ==> header & metadata_flags::IN_S3 == 0
            || self.m.fetch[id as int] != Evicted || self.m.flag(id as int, stripe_flags::IN_S3)
        &&& call matches StateCall::SetFlags { id, bits } ==> bits & stripe_flags::IN_S3 == 0
        &&& call matches StateCall::ClearFlags { id, bits } ==> bits & stripe_flags::IN_S3 == 0
    }

    /// Every call satisfies `ok` when it is made.
    pub open spec fn all_ok(
        self,
        calls: Seq<StateCall>,
        ok: spec_fn(StateRun, StateCall) -> bool,
    ) -> bool
        decreases calls.len(),
    {
        calls.len() == 0 || (self.all_ok(calls.drop_last(), ok) && ok(
            self.ran(calls.drop_last()),
            calls.last(),
        ))
    }
}

/// A device that was just opened.
pub open spec fn opened_run(headers: Seq<u8>, shift: u8) -> StateRun {
    StateRun { m: StateModel::opened(headers, shift), claims: Map::empty() }
}

/// A call changes no stripe but the one it is about, apart from the reference
/// bits, and leaves as many stripes.
proof fn lemma_call_elsewhere(r: StateRun, call: StateCall)
    requires
        r.m.wf(),
        r.may(call),
    ensures
        ({
            let m = r.m;
            let m2 = r.called(call).m;
            &&& m2.wf()
            &&& m2.fetch.len() == m.fetch.len()
            &&& forall|i: int|
                0 <= i < m.fetch.len() && Some(i) != about(call) ==> {
                    &&& (#[trigger] m2.fetch[i]) == m.fetch[i]
                    &&& m2.write[i] == m.write[i]
                    &&& m2.flag(i, stripe_flags::IN_S3) == m.flag(i, stripe_flags::IN_S3)
                    &&& m2.flag(i, stripe_flags::HAS_SOURCE) == m.flag(i, stripe_flags::HAS_SOURCE)
                }
            &&& forall|i: int|
                Some(i) != about(call) ==> (#[trigger] r.called(call).claims.dom().contains(i))
                    == r.claims.dom().contains(i) && r.called(call).claims[i] == r.claims[i]
            &&& about(call) is None ==> m2.fetched == m.fetched && m2.resident == m.resident
                && m2.evicted == m.evicted && m2.in_s3 == m.in_s3
        }),
{
    let m = r.m;
    let m2 = r.called(call).m;
    if let StateCall::Touch { first, last } = call {
        assert forall|i: int| 0 <= i < m.fetch.len() implies m2.flag(i, stripe_flags::IN_S3)
            == m.flag(i, stripe_flags::IN_S3) && m2.flag(i, stripe_flags::HAS_SOURCE) == m.flag(
            i,
            stripe_flags::HAS_SOURCE,
        ) by {
            lemma_bits_distinct();
            lemma_set_bits(m.flags[i], stripe_flags::REFERENCED, stripe_flags::IN_S3);
            lemma_set_bits(m.flags[i], stripe_flags::REFERENCED, stripe_flags::HAS_SOURCE);
        }
    }
}

/// How a count moves with a call.
proof fn lemma_count_moves(
    r: StateRun,
    call: StateCall,
    p: spec_fn(int) -> bool,
    q: spec_fn(int) -> bool,
)
    requires
        r.m.wf(),
        r.may(call),
        forall|i: int|
            0 <= i < r.m.fetch.len() && Some(i) != about(call) ==> #[trigger] p(i) == #[trigger] q(
                i,
            ),
    ensures
        ({
            let n = r.m.fetch.len();
            let moved = match about(call) {
                None => 0int,
                Some(id) => (if q(id) {
                    1int
                } else {
                    0
                }) - (if p(id) {
                    1int
                } else {
                    0
                }),
            };
            &&& count_where(n, q) == count_where(n, p) + moved
            &&& count_where(n, q) <= n
            &&& count_where(n, p) <= n
        }),
{
    let n = r.m.fetch.len();
    match about(call) {
        None => {
            lemma_count_same(n, p, q);
        },
        Some(id) => {
            lemma_count_update(n, p, q, id);
        },
    }
    lemma_count_bound(n, p);
    lemma_count_bound(n, q);
}

/// Evicted stripes are counted.
spec fn evicted_counted(r: StateRun) -> bool {
    &&& r.m.wf()
    &&& r.m.fetch.len() <= u64::MAX
    &&& forall|i: int| #[trigger]
        r.claims.dom().contains(i) ==> r.claims[i] == Fetched || r.claims[i] == NoSource
    &&& r.m.evicted == count_where(r.m.fetch.len(), is_evicted(r.m))
}

proof fn lemma_call_keeps_evicted(r: StateRun, call: StateCall)
    requires
        evicted_counted(r),
        r.may(call),
    ensures
        evicted_counted(r.called(call)),
{
    let m = r.m;
    let r2 = r.called(call);
    let m2 = r2.m;
    lemma_call_elsewhere(r, call);
    assert forall|i: int| 0 <= i < m.fetch.len() && Some(i) != about(call) implies #[trigger]
        is_evicted(m)(i) == #[trigger] is_evicted(m2)(i) by {
        assert(m2.fetch[i] == m.fetch[i]);
    }
    lemma_count_moves(r, call, is_evicted(m), is_evicted(m2));
    assert forall|i: int| #[trigger] r2.claims.dom().contains(i) implies r2.claims[i] == Fetched
        || r2.claims[i] == NoSource by {
        if Some(i) != about(call) {
            assert(r.claims.dom().contains(i));
        } else if call is Claim {
            if !m.claimable(i) {
                assert(r.claims.dom().contains(i));
            }
        } else {
            assert(r.claims.dom().contains(i));
        }
    }
    if about(call) is Some {
        let id = about(call)->Some_0;
        assert(call is Abort || call is Finish ==> r.claims.dom().contains(id));
    }
}

/// Fetched stripes are counted, those being evicted under the state they were
/// claimed from.
spec fn fetched_counted(r: StateRun) -> bool {
    &&& r.m.wf()
    &&& r.m.fetch.len() <= u64::MAX
    &&& forall|i: int|
        0 <= i < r.m.fetch.len() && (#[trigger] r.m.fetch[i]) == Evicting
            ==> r.claims.dom().contains(i) && (r.claims[i] == Fetched || r.claims[i] == NoSource)
    &&& r.m.fetched == count_where(r.m.fetch.len(), stands_fetched(r.m, r.claims))
}

proof fn lemma_call_keeps_fetched(r: StateRun, call: StateCall)
    requires
        fetched_counted(r),
        r.may_for_fetched(call),
    ensures
        fetched_counted(r.called(call)),
{
    let m = r.m;
    let r2 = r.called(call);
    let m2 = r2.m;
    lemma_call_elsewhere(r, call);
    let p = stands_fetched(m, r.claims);
    let q = stands_fetched(m2, r2.claims);
    assert forall|i: int| 0 <= i < m.fetch.len() && Some(i) != about(call) implies #[trigger] p(i)
        == #[trigger] q(i) by {
        assert(m2.fetch[i] == m.fetch[i]);
        assert(r2.claims.dom().contains(i) == r.claims.dom().contains(i));
    }
    lemma_count_moves(r, call, p, q);
    assert forall|i: int| 0 <= i < m2.fetch.len() && (#[trigger] m2.fetch[i]) == Evicting implies
        r2.claims.dom().contains(i) && (r2.claims[i] == Fetched || r2.claims[i] == NoSource) by {
        if Some(i) != about(call) {
            assert(m.fetch[i] == Evicting);
            assert(r2.claims.dom().contains(i) == r.claims.dom().contains(i));
        }
    }
}

/// Resident stripes are counted, those being evicted under the state they were
/// claimed from, and whatever can land or be claimed has a source or was
/// written.
spec fn resident_counted(r: StateRun) -> bool {
    &&& r.m.wf()
    &&& r.m.fetch.len() <= u64::MAX
    &&& forall|i: int|
        0 <= i < r.m.fetch.len() ==> (#[trigger] r.m.write[i]) == NotWritten || r.m.write[i]
            == Written
    &&& forall|i: int|
        0 <= i < r.m.fetch.len() && (#[trigger] r.m.fetch[i]) == Evicting
            ==> r.claims.dom().contains(i) && (r.claims[i] == Fetched || (r.claims[i] == NoSource
            && r.m.write[i] == Written))
    &&& forall|i: int|
        0 <= i < r.m.fetch.len() && (#[trigger] r.m.fetch[i]) != NoSource ==> r.m.flag(
            i,
            stripe_flags::HAS_SOURCE,
        ) || r.m.write[i] == Written
    &&& r.m.resident == count_where(r.m.fetch.len(), stands_resident(r.m, r.claims))
}

/// A call leaves the source bit of its stripe, unless it sets or clears it.
proof fn lemma_call_keeps_source(r: StateRun, call: StateCall, id: int)
    requires
        r.m.wf(),
        r.may_for_resident(call),
        about(call) == Some(id),
        r.m.flag(id, stripe_flags::HAS_SOURCE),
    ensures
        r.called(call).m.flag(id, stripe_flags::HAS_SOURCE),
{
    let f = r.m.flags[id];
    lemma_bits_distinct();
    assert(forall|bits: u8| #[trigger] any_set(f | bits, stripe_flags::HAS_SOURCE)) by {
        assert forall|bits: u8| #[trigger] any_set(f | bits, stripe_flags::HAS_SOURCE) by {
            lemma_set_bits(f, bits, stripe_flags::HAS_SOURCE);
        }
    }
    let live = f | stripe_flags::FETCHED_LIVE;
    lemma_clear_bits(f, stripe_flags::WAS_EVICTED, stripe_flags::HAS_SOURCE);
    lemma_clear_bits(live, stripe_flags::WAS_EVICTED, stripe_flags::HAS_SOURCE);
    lemma_clear_bits(f, stripe_flags::FETCHED_LIVE, stripe_flags::HAS_SOURCE);
    lemma_clear_bits(
        f | stripe_flags::IN_S3,
        stripe_flags::FETCHED_LIVE,
        stripe_flags::HAS_SOURCE,
    );
    if let StateCall::ClearFlags { id: at, bits } = call {
        lemma_clear_bits(f, bits, stripe_flags::HAS_SOURCE);
    }
    if let StateCall::SetHeader { id: at, header } = call {
        lemma_set_bits(live, header & stripe_flags::PERSISTED_MASK, stripe_flags::HAS_SOURCE);
    }
}

proof fn lemma_call_keeps_resident(r: StateRun, call: StateCall)
    requires
        resident_counted(r),
        r.may_for_resident(call),
    ensures
        resident_counted(r.called(call)),
{
    let m = r.m;
    let r2 = r.called(call);
    let m2 = r2.m;
    lemma_call_elsewhere(r, call);
    let p = stands_resident(m, r.claims);
    let q = stands_resident(m2, r2.claims);
    assert forall|i: int| 0 <= i < m.fetch.len() && Some(i) != about(call) implies #[trigger] p(i)
        == #[trigger] q(i) by {
        assert(m2.fetch[i] == m.fetch[i]);
        assert(r2.claims.dom().contains(i) == r.claims.dom().contains(i));
    }
    lemma_count_moves(r, call, p, q);
    if about(call) is Some {
        let id = about(call)->Some_0;
        assert(m.write[id] == NotWritten || m.write[id] == Written);
        assert(m.fetch[id] != NoSource ==> m.flag(id, stripe_flags::HAS_SOURCE) || m.write[id]
            == Written);
        if m.flag(id, stripe_flags::HAS_SOURCE) {
            lemma_call_keeps_source(r, call, id);
        }
        assert(m.write[id] == Written ==> m2.write[id] == Written);
        assert(m2.fetch[id] == Evicting && !(call is Claim) ==> m.fetch[id] == Evicting);
    }
    assert forall|i: int| 0 <= i < m2.fetch.len() implies (#[trigger] m2.write[i]) == NotWritten
        || m2.write[i] == Written by {
        assert(m.write[i] == NotWritten || m.write[i] == Written);
        if Some(i) != about(call) {
            assert(m2.fetch[i] == m.fetch[i]);
        }
    }
    assert forall|i: int| 0 <= i < m2.fetch.len() && (#[trigger] m2.fetch[i]) == Evicting implies
        r2.claims.dom().contains(i) && (r2.claims[i] == Fetched || (r2.claims[i] == NoSource
        && m2.write[i] == Written)) by {
        if Some(i) != about(call) {
            assert(m.fetch[i] == Evicting);
            assert(r2.claims.dom().contains(i) == r.claims.dom().contains(i));
        }
    }
    assert forall|i: int| 0 <= i < m2.fetch.len() && (#[trigger] m2.fetch[i]) != NoSource implies
        m2.flag(i, stripe_flags::HAS_SOURCE) || m2.write[i] == Written by {
        if Some(i) != about(call) {
            assert(m.fetch[i] != NoSource);
        }
    }
}

/// Evicted stripes with an object in the store are counted.
spec fn in_s3_counted(r: StateRun) -> bool {
    &&& evicted_counted(r)
    &&& r.m.in_s3 == count_where(r.m.fetch.len(), is_in_s3(r.m))
}

/// What a call does to the IN_S3 bit of its stripe.
proof fn lemma_call_in_s3_bit(r: StateRun, call: StateCall, id: int)
    requires
        r.m.wf(),
        r.may_for_in_s3(call),
        about(call) == Some(id),
    ensures
        ({
            let m2 = r.called(call).m;
            let had = r.m.flag(id, stripe_flags::IN_S3);
            let has_it = m2.flag(id, stripe_flags::IN_S3);
            match call {
                StateCall::Finish { id: at, in_s3 } => has_it == (had || in_s3),
                StateCall::SetHeader { id: at, header } => m2.fetch[id] == Evicted ==> has_it
                    == had,
                _ => has_it == had,
            }
        }),
{
    let f = r.m.flags[id];
    let live = f | stripe_flags::FETCHED_LIVE;
    lemma_bits_distinct();
    lemma_set_bits(f, stripe_flags::FETCHED_LIVE, stripe_flags::IN_S3);
    lemma_set_bits(f, stripe_flags::WAS_EVICTED, stripe_flags::IN_S3);
    lemma_set_bits(f, stripe_flags::IN_S3, stripe_flags::IN_S3);
    lemma_clear_bits(f, stripe_flags::WAS_EVICTED, stripe_flags::IN_S3);
    lemma_clear_bits(live, stripe_flags::WAS_EVICTED, stripe_flags::IN_S3);
    lemma_clear_bits(f, stripe_flags::FETCHED_LIVE, stripe_flags::IN_S3);
    lemma_clear_bits(f | stripe_flags::IN_S3, stripe_flags::FETCHED_LIVE, stripe_flags::IN_S3);
    match call {
        StateCall::SetFlags { id: at, bits } => {
            lemma_set_bits(f, bits, stripe_flags::IN_S3);
        },
        StateCall::ClearFlags { id: at, bits } => {
            lemma_clear_bits(f, bits, stripe_flags::IN_S3);
        },
        StateCall::SetHeader { id: at, header } => {
            let bits = header & stripe_flags::PERSISTED_MASK;
            assert(header & 0x10 == 0 ==> (header & 0x34) & 0x10 == 0) by (bit_vector);
            lemma_set_bits(f, bits, stripe_flags::IN_S3);
        },
        _ => {},
    }
}

proof fn lemma_call_keeps_in_s3(r: StateRun, call: StateCall)
    requires
        in_s3_counted(r),
        r.may_for_in_s3(call),
    ensures
        in_s3_counted(r.called(call)),
{
    let m = r.m;
    let m2 = r.called(call).m;
    lemma_call_keeps_evicted(r, call);
    lemma_call_elsewhere(r, call);
    assert forall|i: int| 0 <= i < m.fetch.len() && Some(i) != about(call) implies #[trigger]
        is_in_s3(m)(i) == #[trigger] is_in_s3(m2)(i) by {
        assert(m2.fetch[i] == m.fetch[i]);
    }
    lemma_count_moves(r, call, is_in_s3(m), is_in_s3(m2));
    if about(call) is Some {
        let id = about(call)->Some_0;
        lemma_call_in_s3_bit(r, call, id);
        assert(call is Abort || call is Finish ==> r.claims.dom().contains(id));
    }
}

/// What a freshly opened state satisfies.
proof fn lemma_opened_run(headers: Seq<u8>, shift: u8)
    requires
        shift < 64,
        headers.len() <= u64::MAX,
    ensures
        evicted_counted(opened_run(headers, shift)),
        fetched_counted(opened_run(headers, shift)),
        in_s3_counted(opened_run(headers, shift)),
        sourced(headers) ==> resident_counted(opened_run(headers, shift)),
{
    law_opened_state_is_consistent(headers, shift);
    let r = opened_run(headers, shift);
    assert forall|i: int| 0 <= i < r.m.fetch.len() implies (#[trigger] r.m.fetch[i])
        != Evicting by {
        assert(r.m.fetch[i] == header_fetch_state(headers[i]));
    }
    if sourced(headers) {
        assert forall|i: int|
            0 <= i < r.m.fetch.len() && (#[trigger] r.m.fetch[i]) != NoSource implies r.m.flag(
            i,
            stripe_flags::HAS_SOURCE,
        ) || r.m.write[i] == Written by {
            let h = headers[i];
            assert(r.m.fetch[i] == header_fetch_state(h));
            assert(r.m.write[i] == header_write_state(h));
            assert(r.m.flags[i] == h & stripe_flags::PERSISTED_MASK);
            assert(h & 0x04 != 0 ==> (h & 0x34) & 0x04 != 0) by (bit_vector);
            assert(sourced_header(h));
        }
    }
}

/// An evicted stripe without a source was written.
pub open spec fn sourced_header(header: u8) -> bool {
    header & metadata_flags::EVICTED != 0 && header & metadata_flags::HAS_SOURCE == 0 ==> header
        & metadata_flags::WRITTEN != 0
}

/// Every evicted stripe without a source was written; no other stripe without
/// a source is ever evicted.
pub open spec fn sourced(headers: Seq<u8>) -> bool {
    forall|i: int| 0 <= i < headers.len() ==> #[trigger] sourced_header(headers[i])
}

proof fn lemma_ran_evicted(r: StateRun, calls: Seq<StateCall>)
    requires
        evicted_counted(r),
        r.all_ok(calls, |s: StateRun, c: StateCall| s.may(c)),
    ensures
        evicted_counted(r.ran(calls)),
    decreases calls.len(),
{
    if calls.len() > 0 {
        lemma_ran_evicted(r, calls.drop_last());
        lemma_call_keeps_evicted(r.ran(calls.drop_last()), calls.last());
    }
}

proof fn lemma_ran_fetched(r: StateRun, calls: Seq<StateCall>)
    requires
        fetched_counted(r),
        r.all_ok(calls, |s: StateRun, c: StateCall| s.may_for_fetched(c)),
    ensures
        fetched_counted(r.ran(calls)),
    decreases calls.len(),
{
    if calls.len() > 0 {
        lemma_ran_fetched(r, calls.drop_last());
        lemma_call_keeps_fetched(r.ran(calls.drop_last()), calls.last());
    }
}

proof fn lemma_ran_resident(r: StateRun, calls: Seq<StateCall>)
    requires
        resident_counted(r),
        r.all_ok(calls, |s: StateRun, c: StateCall| s.may_for_resident(c)),
    ensures
        resident_counted(r.ran(calls)),
    decreases calls.len(),
{
    if calls.len() > 0 {
        lemma_ran_resident(r, calls.drop_last());
        lemma_call_keeps_resident(r.ran(calls.drop_last()), calls.last());
    }
}

proof fn lemma_ran_in_s3(r: StateRun, calls: Seq<StateCall>)
    requires
        in_s3_counted(r),
        r.all_ok(calls, |s: StateRun, c: StateCall| s.may_for_in_s3(c)),
    ensures
        in_s3_counted(r.ran(calls)),
    decreases calls.len(),
{
    if calls.len() > 0 {
        lemma_ran_in_s3(r, calls.drop_last());
        lemma_call_keeps_in_s3(r.ran(calls.drop_last()), calls.last());
    }
}

/// The evicted count is the number of evicted stripes after any calls, refused
/// ones among them.
pub proof fn law_evicted_stripes_are_counted(
    headers: Seq<u8>,
    shift: u8,
    calls: Seq<StateCall>,
)
    requires
        shift < 64,
        headers.len() <= u64::MAX,
        opened_run(headers, shift).all_ok(calls, |s: StateRun, c: StateCall| s.may(c)),
    ensures
        ({
            let m = opened_run(headers, shift).ran(calls).m;
            m.evicted == count_where(m.fetch.len(), is_evicted(m))
        }),
{
    lemma_opened_run(headers, shift);
    lemma_ran_evicted(opened_run(headers, shift), calls);
}

/// The fetched count is the number of fetched stripes once no eviction is in
/// progress. While one is, its stripe counts under the state it was claimed
/// from.
pub proof fn law_fetched_stripes_are_counted(
    headers: Seq<u8>,
    shift: u8,
    calls: Seq<StateCall>,
)
    requires
        shift < 64,
        headers.len() <= u64::MAX,
        opened_run(headers, shift).all_ok(
            calls,
            |s: StateRun, c: StateCall| s.may_for_fetched(c),
        ),
    ensures
        ({
            let r = opened_run(headers, shift).ran(calls);
            let n = r.m.fetch.len();
            &&& r.m.fetched == count_where(n, stands_fetched(r.m, r.claims))
            &&& (forall|i: int| 0 <= i < n ==> (#[trigger] r.m.fetch[i]) != Evicting)
                ==> r.m.fetched == count_where(n, |i: int| r.m.fetch[i] == Fetched)
        }),
{
    lemma_opened_run(headers, shift);
    lemma_ran_fetched(opened_run(headers, shift), calls);
    let r = opened_run(headers, shift).ran(calls);
    let n = r.m.fetch.len();
    let fetched = |i: int| r.m.fetch[i] == Fetched;
    if forall|i: int| 0 <= i < n ==> (#[trigger] r.m.fetch[i]) != Evicting {
        assert forall|i: int| 0 <= i < n implies #[trigger] stands_fetched(r.m, r.claims)(i)
            == #[trigger] fetched(i) by {
            assert(r.m.fetch[i] != Evicting);
        }
        lemma_count_same(n, stands_fetched(r.m, r.claims), fetched);
    }
}

/// The resident count is the number of resident stripes once no eviction is in
/// progress. While one is, its stripe still counts.
pub proof fn law_resident_stripes_are_counted(
    headers: Seq<u8>,
    shift: u8,
    calls: Seq<StateCall>,
)
    requires
        shift < 64,
        headers.len() <= u64::MAX,
        sourced(headers),
        opened_run(headers, shift).all_ok(
            calls,
            |s: StateRun, c: StateCall| s.may_for_resident(c),
        ),
    ensures
        ({
            let r = opened_run(headers, shift).ran(calls);
            let n = r.m.fetch.len();
            &&& r.m.resident == count_where(n, stands_resident(r.m, r.claims))
            &&& (forall|i: int| 0 <= i < n ==> (#[trigger] r.m.fetch[i]) != Evicting)
                ==> r.m.resident == count_where(n, |i: int| r.m.is_resident(i))
        }),
{
    lemma_opened_run(headers, shift);
    lemma_ran_resident(opened_run(headers, shift), calls);
    let r = opened_run(headers, shift).ran(calls);
    let n = r.m.fetch.len();
    let resident = |i: int| r.m.is_resident(i);
    if forall|i: int| 0 <= i < n ==> (#[trigger] r.m.fetch[i]) != Evicting {
        assert forall|i: int| 0 <= i < n implies #[trigger] stands_resident(r.m, r.claims)(i)
            == #[trigger] resident(i) by {
            assert(r.m.fetch[i] != Evicting);
        }
        lemma_count_same(n, stands_resident(r.m, r.claims), resident);
    }
}

/// The in-store count is the number of evicted stripes with an object in the
/// store, and no more than the evicted count. An IN_S3 bit left on a stripe
/// that is local or failed is not counted.
pub proof fn law_stripes_in_the_store_are_counted(
    headers: Seq<u8>,
    shift: u8,
    calls: Seq<StateCall>,
)
    requires
        shift < 64,
        headers.len() <= u64::MAX,
        opened_run(headers, shift).all_ok(calls, |s: StateRun, c: StateCall| s.may_for_in_s3(c)),
    ensures
        ({
            let m = opened_run(headers, shift).ran(calls).m;
            &&& m.in_s3 == count_where(m.fetch.len(), is_in_s3(m))
            &&& m.in_s3 <= m.evicted
        }),
{
    lemma_opened_run(headers, shift);
    lemma_ran_in_s3(opened_run(headers, shift), calls);
    let m = opened_run(headers, shift).ran(calls).m;
    lemma_count_implied(m.fetch.len(), is_in_s3(m), is_evicted(m));
}

/// What implies less is counted no less often.
proof fn lemma_count_implied(n: nat, p: spec_fn(int) -> bool, q: spec_fn(int) -> bool)
    requires
        forall|i: int| 0 <= i < n && #[trigger] p(i) ==> q(i),
    ensures
        count_where(n, p) <= count_where(n, q),
    decreases n,
{
    if n > 0 {
        lemma_count_implied((n - 1) as nat, p, q);
        if p(n - 1) {
            assert(q(n - 1));
        }
    }
}

} // verus!
