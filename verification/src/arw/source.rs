//! Positioned reads of the bytes behind a photograph.
use crate::arw::error::{Fault, IoFailure};
use vstd::prelude::*;

verus! {

/// Bytes that can be read by position. A reader never asks for more than it
/// needs, so an implementation may be a file as well as a buffer.
///
/// The contract takes equal reads of one source to give equal outcomes. A buffer
/// does so. A file does so only while nothing changes it on disk: of a file that
/// is written or truncated during a read, or whose device fails at times, what is
/// said through `outcome` does not hold.
pub trait ByteSource {
    /// What every read of `length` bytes at `offset` gives, equal reads giving
    /// equal outcomes. Nothing more is known of it unless an implementation says
    /// so.
    closed spec fn outcome(&self, offset: u64, length: nat) -> Result<Seq<u8>, Fault> {
        arbitrary()
    }

    /// Fills `out` with the bytes at `offset`.
    fn fetch(&self, offset: u64, out: &mut Vec<u8>) -> (result: Result<(), IoFailure>)
        ensures
            final(out)@.len() == old(out)@.len(),
            match result {
                Ok(()) => self.outcome(offset, old(out)@.len()) == Ok::<Seq<u8>, Fault>(
                    final(out)@,
                ),
                Err(failure) => self.outcome(offset, old(out)@.len()) == Err::<Seq<u8>, Fault>(
                    failure@,
                ),
            },
    ;
}

/// A photograph held in memory.
pub struct MemorySource {
    pub bytes: Vec<u8>,
}

/// The failure of a read behind the end of a buffer.
pub open spec fn short_read() -> Fault {
    Fault::Io { code: None, denied: false, text: "failed to fill whole buffer"@ }
}

impl ByteSource for MemorySource {
    open spec fn outcome(&self, offset: u64, length: nat) -> Result<Seq<u8>, Fault> {
        if offset + length <= self.bytes@.len() {
            Ok(self.bytes@.subrange(offset as int, offset + length))
        } else {
            Err(short_read())
        }
    }

    fn fetch(&self, offset: u64, out: &mut Vec<u8>) -> (result: Result<(), IoFailure>) {
        let length: usize = out.len();
        if length > self.bytes.len() || offset > (self.bytes.len() - length) as u64 {
            return Err(
                IoFailure { code: None, denied: false, text: "failed to fill whole buffer".to_owned() },
            );
        }
        let start: usize = offset as usize;
        let mut i: usize = 0;
        while i < length
            invariant
                i <= length,
                out@.len() == length,
                start + length <= self.bytes.len(),
                forall|k: int| 0 <= k < i ==> out@[k] == self.bytes@[start + k],
            decreases length - i,
        {
            out.set(i, self.bytes[start + i]);
            i += 1;
        }
        assert(out@ =~= self.bytes@.subrange(start as int, start + length));
        Ok(())
    }
}

} // verus!
