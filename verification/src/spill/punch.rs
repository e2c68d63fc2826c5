//! Giving blocks back to the filesystem.

use vstd::prelude::*;

use crate::io::{HolePuncher, IoError, PunchCall};

verus! {

/// Input/output error.
pub const EIO: i32 = 5;

/// Value too large for its type.
pub const EOVERFLOW: i32 = 75;

/// A hole's offset and length as file offsets.
pub fn punch_range(offset: u64, len: u64) -> (r: Result<(i64, i64), IoError>)
    ensures
        r == (if offset <= i64::MAX && len <= i64::MAX {
            Ok::<(i64, i64), IoError>((offset as i64, len as i64))
        } else {
            Err(IoError { errno: EOVERFLOW })
        }),
{
    if offset <= i64::MAX as u64 && len <= i64::MAX as u64 {
        Ok((offset as i64, len as i64))
    } else {
        Err(IoError { errno: EOVERFLOW })
    }
}

/// Bytes available on a filesystem with `blocks` available blocks.
pub fn available_bytes(blocks: u64, block_size: u64) -> (r: u64)
    requires
        blocks * block_size <= u64::MAX,
    ensures
        r == blocks * block_size,
{
    blocks * block_size
}

/// A puncher that records what it was asked instead of touching a file.
pub struct RecordingPuncher {
    /// The holes that were punched.
    pub punches: Vec<(u64, u64)>,
    /// What it says is available.
    pub free: u64,
    /// The next punch fails and clears this.
    pub fail_next: bool,
    /// The error number of a failing punch; zero stands for an input/output
    /// error.
    pub fail_errno: i32,
    /// Every call, answered as it was.
    pub log: Ghost<Seq<PunchCall>>,
}

impl RecordingPuncher {
    /// A puncher that was asked nothing yet.
    pub fn new() -> (r: RecordingPuncher)
        ensures
            r.punches@ == Seq::<(u64, u64)>::empty(),
            r.free == 0,
            !r.fail_next,
            r.fail_errno == 0,
            r.log@ == Seq::<PunchCall>::empty(),
    {
        RecordingPuncher {
            punches: Vec::new(),
            free: 0,
            fail_next: false,
            fail_errno: 0,
            log: Ghost(Seq::empty()),
        }
    }

    /// The error number of a failing punch.
    pub open spec fn errno(self) -> i32 {
        if self.fail_errno == 0 {
            EIO
        } else {
            self.fail_errno
        }
    }
}

impl HolePuncher for RecordingPuncher {
    open spec fn calls(&self) -> Seq<PunchCall> {
        self.log@
    }

    fn punch(&mut self, offset: u64, len: u64) -> (r: Result<(), IoError>)
        ensures
            r == (if old(self).fail_next {
                Err::<(), IoError>(IoError { errno: old(self).errno() })
            } else {
                Ok(())
            }),
            final(self).punches@ == (if old(self).fail_next {
                old(self).punches@
            } else {
                old(self).punches@.push((offset, len))
            }),
            !final(self).fail_next,
            final(self).free == old(self).free,
            final(self).fail_errno == old(self).fail_errno,
    {
        if self.fail_next {
            self.fail_next = false;
            let errno: i32 = if self.fail_errno == 0 {
                EIO
            } else {
                self.fail_errno
            };
            let r: Result<(), IoError> = Err(IoError { errno });
            self.log = Ghost(self.log@.push(PunchCall::Punch { offset, len, result: r }));
            return r;
        }
        self.punches.push((offset, len));
        self.log = Ghost(self.log@.push(PunchCall::Punch { offset, len, result: Ok(()) }));
        Ok(())
    }

    fn free_bytes(&mut self) -> (r: Result<u64, IoError>)
        ensures
            r == Ok::<u64, IoError>(old(self).free),
            final(self).punches == old(self).punches,
            final(self).free == old(self).free,
            final(self).fail_next == old(self).fail_next,
            final(self).fail_errno == old(self).fail_errno,
    {
        self.log = Ghost(self.log@.push(PunchCall::FreeBytes { free: Ok(self.free) }));
        Ok(self.free)
    }
}

} // verus!
