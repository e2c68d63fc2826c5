//! What the outside world offers: block devices, the stripe source, the object
//! store and the hole puncher. The library decides what to ask of them; it
//! assumes nothing of their answers.

use vstd::prelude::*;

use crate::text::texts;

verus! {

/// A request that the operating system or a device refused.
#[derive(Debug, Clone, Copy, PartialEq, Eq, Structural)]
pub struct IoError {
    /// The error number the operating system gave.
    pub errno: i32,
}

/// Whether a request was taken.
pub type Answer = Result<(), IoError>;

/// A call of a channel, with what came back.
#[verifier::reject_recursive_types(B)]
pub enum IoCall<B> {
    /// Sectors are to be read.
    Read { sector_offset: u64, sector_count: u32, buf: B, id: usize },
    /// Sectors are to be written.
    Write { sector_offset: u64, sector_count: u32, buf: B, id: usize },
    /// Everything written so far is to be made durable.
    Flush { id: usize },
    /// What was collected was handed over.
    Submit { result: Result<(), IoError> },
    /// Finished requests were asked for.
    Poll { done: Seq<(usize, bool)> },
    /// The buffer of a finished read was asked for.
    TakeRead { id: usize, data: Option<B> },
}

/// A queue of requests to one block device. Requests are collected, handed
/// over by `submit`, and reported by `poll` under the identifier they were
/// given. `B` is the buffer a request reads into or writes from.
///
/// `calls` is the record of what was asked and answered. It exists in proofs
/// alone, and says nothing of which answers come; an implementation that takes
/// part in no proof leaves it out.
pub trait IoChannel<B> {
    /// The calls so far. An implementation that is proved keeps a record of its
    /// own.
    closed spec fn calls(&self) -> Seq<IoCall<B>> {
        Seq::empty()
    }

    /// Read sectors into `buf`.
    fn add_read(&mut self, sector_offset: u64, sector_count: u32, buf: B, id: usize)
        ensures
            final(self).calls() == old(self).calls().push(
                IoCall::Read { sector_offset, sector_count, buf, id },
            ),
    ;

    /// Write sectors from `buf`.
    fn add_write(&mut self, sector_offset: u64, sector_count: u32, buf: B, id: usize)
        ensures
            final(self).calls() == old(self).calls().push(
                IoCall::Write { sector_offset, sector_count, buf, id },
            ),
    ;

    /// Make everything written so far durable.
    fn add_flush(&mut self, id: usize)
        ensures
            final(self).calls() == old(self).calls().push(IoCall::Flush { id }),
    ;

    /// Hand over the requests collected since the last call.
    fn submit(&mut self) -> (r: Result<(), IoError>)
        ensures
            final(self).calls() == old(self).calls().push(IoCall::Submit { result: r }),
    ;

    /// Requests that finished, each with whether it succeeded.
    fn poll(&mut self) -> (r: Vec<(usize, bool)>)
        ensures
            final(self).calls() == old(self).calls().push(IoCall::Poll { done: r@ }),
    ;

    /// The buffer of a finished read, for channels that own their buffers.
    fn take_read(&mut self, id: usize) -> (r: Option<B>)
        ensures
            final(self).calls() == old(self).calls().push(IoCall::TakeRead { id, data: r }),
    ;

    /// Whether a request is outstanding.
    fn busy(&self) -> bool;
}

/// A call of a channel whose buffers are bytes, as mathematical values.
pub open spec fn call_bytes(call: IoCall<Vec<u8>>) -> IoCall<Seq<u8>> {
    match call {
        IoCall::Read { sector_offset, sector_count, buf, id } => IoCall::Read {
            sector_offset,
            sector_count,
            buf: buf@,
            id,
        },
        IoCall::Write { sector_offset, sector_count, buf, id } => IoCall::Write {
            sector_offset,
            sector_count,
            buf: buf@,
            id,
        },
        IoCall::Flush { id } => IoCall::Flush { id },
        IoCall::Submit { result } => IoCall::Submit { result },
        IoCall::Poll { done } => IoCall::Poll { done },
        IoCall::TakeRead { id, data } => IoCall::TakeRead { id, data: bytes_of(data) },
    }
}

/// The bytes of a buffer, if there is one.
pub open spec fn bytes_of(buf: Option<Vec<u8>>) -> Option<Seq<u8>> {
    match buf {
        Some(buf) => Some(buf@),
        None => None,
    }
}

/// Calls of such a channel as mathematical values.
pub open spec fn calls_bytes(calls: Seq<IoCall<Vec<u8>>>) -> Seq<IoCall<Seq<u8>>> {
    calls.map_values(|call: IoCall<Vec<u8>>| call_bytes(call))
}

/// One call more.
pub broadcast proof fn lemma_calls_bytes_push(calls: Seq<IoCall<Vec<u8>>>, call: IoCall<Vec<u8>>)
    ensures
        #[trigger] calls_bytes(calls.push(call)) == calls_bytes(calls).push(call_bytes(call)),
{
    assert(calls_bytes(calls.push(call)) =~= calls_bytes(calls).push(call_bytes(call)));
}

/// A message to the coordinator, with whether it was still there.
pub enum SinkCall {
    /// A stripe was asked for.
    Fetch { stripe_id: usize, there: bool },
    /// A stripe was said to be written.
    SetWritten { stripe_id: usize, there: bool },
}

/// Where a channel's requests to the coordinator go. `calls` is the record of
/// what was sent.
pub trait RequestSink {
    /// The calls so far. An implementation that is proved keeps a record of its
    /// own.
    closed spec fn calls(&self) -> Seq<SinkCall> {
        Seq::empty()
    }

    /// Ask for a stripe; says whether the coordinator is still there.
    fn send_fetch(&mut self, stripe_id: usize) -> (there: bool)
        ensures
            final(self).calls() == old(self).calls().push(SinkCall::Fetch { stripe_id, there }),
    ;

    /// Say that a stripe was written; says whether the coordinator is still
    /// there.
    fn send_set_written(&mut self, stripe_id: usize) -> (there: bool)
        ensures
            final(self).calls() == old(self).calls().push(
                SinkCall::SetWritten { stripe_id, there },
            ),
    ;
}

/// A call of a stripe source, with what came back.
pub enum SourceCall {
    /// A stripe was asked for.
    Request { stripe_id: usize, result: Result<(), IoError> },
    /// Finished stripes were asked for.
    Poll { arrived: Seq<(usize, bool)> },
    /// The data of a stripe was asked for.
    Take { stripe_id: usize, data: Option<Seq<u8>> },
}

/// Where the stripes of a device come from. `calls` is the record of what was
/// asked and answered.
pub trait StripeSource {
    /// The calls so far. An implementation that is proved keeps a record of its
    /// own.
    closed spec fn calls(&self) -> Seq<SourceCall> {
        Seq::empty()
    }

    /// Ask for a stripe.
    fn request(&mut self, stripe_id: usize) -> (r: Result<(), IoError>)
        ensures
            final(self).calls() == old(self).calls().push(
                SourceCall::Request { stripe_id, result: r },
            ),
    ;

    /// Stripes that arrived or failed since the last call.
    fn poll(&mut self) -> (r: Vec<(usize, bool)>)
        ensures
            final(self).calls() == old(self).calls().push(SourceCall::Poll { arrived: r@ }),
    ;

    /// The data of a stripe that arrived.
    fn take_stripe(&mut self, stripe_id: usize) -> (r: Option<Vec<u8>>)
        ensures
            final(self).calls() == old(self).calls().push(
                SourceCall::Take { stripe_id, data: bytes_of(r) },
            ),
    ;

    /// Whether a request is outstanding.
    fn busy(&self) -> bool;

    /// Sectors the source has.
    fn sector_count(&self) -> u64;
}

/// A call of a store, with what came back.
pub enum StoreCall {
    /// An object is to be stored.
    Put { name: Seq<char>, data: Seq<u8> },
    /// An object is to be fetched.
    Get { name: Seq<char> },
    /// Finished PUTs were asked for.
    PollPuts { done: Seq<(String, bool)> },
    /// Finished GETs were asked for.
    PollGets { objects: Seq<(String, Option<Vec<u8>>)> },
    /// Objects were deleted, or not.
    Delete { names: Seq<Seq<char>>, result: Result<(), IoError> },
}

/// A store of named objects. `calls` is the record of what was asked and
/// answered.
pub trait ArchiveStore {
    /// The calls so far. An implementation that is proved keeps a record of its
    /// own.
    closed spec fn calls(&self) -> Seq<StoreCall> {
        Seq::empty()
    }

    /// Start storing `data` under `name`.
    fn start_put_object(&mut self, name: &String, data: Vec<u8>)
        ensures
            final(self).calls() == old(self).calls().push(
                StoreCall::Put { name: name@, data: data@ },
            ),
    ;

    /// Start fetching the object called `name`.
    fn start_get_object(&mut self, name: &String)
        ensures
            final(self).calls() == old(self).calls().push(StoreCall::Get { name: name@ }),
    ;

    /// PUTs that finished since the last call.
    fn poll_puts(&mut self) -> (r: Vec<(String, bool)>)
        ensures
            final(self).calls() == old(self).calls().push(StoreCall::PollPuts { done: r@ }),
    ;

    /// GETs that finished since the last call.
    fn poll_gets(&mut self) -> (r: Vec<(String, Option<Vec<u8>>)>)
        ensures
            final(self).calls() == old(self).calls().push(StoreCall::PollGets { objects: r@ }),
    ;

    /// Delete objects; one that is not there is no error.
    fn delete_objects(&mut self, names: &Vec<String>) -> (r: Result<(), IoError>)
        ensures
            final(self).calls() == old(self).calls().push(
                StoreCall::Delete { names: texts(names@), result: r },
            ),
    ;
}

/// A call of a puncher, with what came back.
pub enum PunchCall {
    /// A hole was to be punched.
    Punch { offset: u64, len: u64, result: Result<(), IoError> },
    /// The available bytes were asked for.
    FreeBytes { free: Result<u64, IoError> },
}

/// Gives a file's blocks back to its filesystem. `calls` is the record of what
/// was asked and answered.
pub trait HolePuncher {
    /// The calls so far. An implementation that is proved keeps a record of its
    /// own.
    closed spec fn calls(&self) -> Seq<PunchCall> {
        Seq::empty()
    }

    /// Punch a hole of `len` bytes at `offset`.
    fn punch(&mut self, offset: u64, len: u64) -> (r: Result<(), IoError>)
        ensures
            final(self).calls() == old(self).calls().push(
                PunchCall::Punch { offset, len, result: r },
            ),
    ;

    /// Bytes available on the filesystem.
    fn free_bytes(&mut self) -> (r: Result<u64, IoError>)
        ensures
            final(self).calls() == old(self).calls().push(PunchCall::FreeBytes { free: r }),
    ;
}

/// Tells the time since some fixed moment. `readings` is the record of what it
/// told.
pub trait Clock {
    /// The readings so far. An implementation that is proved keeps a record of
    /// its own.
    closed spec fn readings(&self) -> Seq<u64> {
        Seq::empty()
    }

    /// Nanoseconds since that moment.
    fn now_ns(&mut self) -> (r: u64)
        ensures
            final(self).readings() == old(self).readings().push(r),
    ;
}

/// A clock that stands still until it is set.
pub struct ManualClock {
    /// The time it tells.
    pub now: u64,
    /// What it told.
    pub told: Ghost<Seq<u64>>,
}

impl ManualClock {
    /// A clock that tells `now`.
    pub fn new(now: u64) -> (r: ManualClock)
        ensures
            r.now == now,
            r.readings() == Seq::<u64>::empty(),
    {
        ManualClock { now, told: Ghost(Seq::empty()) }
    }
}

impl Clock for ManualClock {
    open spec fn readings(&self) -> Seq<u64> {
        self.told@
    }

    fn now_ns(&mut self) -> (r: u64)
        ensures
            r == old(self).now,
            final(self).now == old(self).now,
    {
        self.told = Ghost(self.told@.push(self.now));
        self.now
    }
}

} // verus!
