//! The hand-off of blocks to an engine that never leaves its own thread: what is refused before a
//! block is sent, and what is made of the answer.
use crate::bits;
use crate::bits::is_finite_single;
use crate::error::{Error, ErrorValue};
use vstd::prelude::*;
use vstd::string::*;

verus! {

broadcast use vstd::string::group_string_axioms;

/// The client's side of the hand-off.
pub struct OwnedProcessor {
    frames: usize,
    failed: bool,
}

/// Whether a converted block has the right size and is finite throughout.
pub open spec fn valid_output(frames: usize, output: Seq<u32>) -> bool {
    output.len() == frames && forall|i: int|
        0 <= i < output.len() ==> bits::single_is_finite(#[trigger] output[i])
}

/// What the owner answers: a converted block that is not valid is an error.
pub fn check_output(frames: usize, output: &[u32]) -> (r: Result<(), Error>)
    ensures
        valid_output(frames, output@) ==> r is Ok,
        !valid_output(frames, output@) ==> (r matches Err(e) && e@ == ErrorValue::Inference(
            "invalid owner output"@,
        )),
{
    if output.len() != frames {
        return Err(Error::Inference("invalid owner output".to_owned()));
    }
    let mut i: usize = 0;
    while i < output.len()
        invariant
            i <= output@.len() == frames,
            forall|j: int| 0 <= j < i ==> bits::single_is_finite(#[trigger] output@[j]),
        decreases output@.len() - i,
    {
        if !is_finite_single(output[i]) {
            return Err(Error::Inference("invalid owner output".to_owned()));
        }
        i += 1;
    }
    Ok(())
}

/// Why a block of `len` samples is not sent.
pub open spec fn refused(failed: bool, frames: usize, len: usize) -> Option<ErrorValue> {
    if failed {
        Some(ErrorValue::Inference("inference owner failed; restart required"@))
    } else if len != frames {
        Some(ErrorValue::BlockSize { expected: frames, got: len })
    } else {
        None
    }
}

/// Whether the hand-off counts as failed after a block was to be sent: so it does while the block is
/// with the owner.
pub open spec fn after_submit(failed: bool, frames: usize, len: usize) -> bool {
    failed || refused(failed, frames, len) is None
}

/// Whether the hand-off counts as failed after blocks were to be sent and none was answered well.
pub open spec fn after_submits(failed: bool, frames: usize, lens: Seq<usize>) -> bool
    decreases lens.len(),
{
    if lens.len() == 0 {
        failed
    } else {
        after_submit(after_submits(failed, frames, lens.drop_last()), frames, lens.last())
    }
}

/// A failure is final: once the owner failed, no block is ever sent to it again.
pub proof fn law_failure_is_final(frames: usize, lens: Seq<usize>, len: usize)
    ensures
        after_submits(true, frames, lens),
        refused(after_submits(true, frames, lens), frames, len) == Some(
            ErrorValue::Inference("inference owner failed; restart required"@),
        ),
    decreases lens.len(),
{
    if lens.len() > 0 {
        law_failure_is_final(frames, lens.drop_last(), len);
    }
}

impl OwnedProcessor {
    pub closed spec fn size(&self) -> usize {
        self.frames
    }

    /// Whether a block failed, or is with the owner.
    pub closed spec fn has_failed(&self) -> bool {
        self.failed
    }

    /// An owner that is ready for blocks of `frames` samples.
    pub fn new(frames: usize) -> (r: OwnedProcessor)
        ensures
            r.size() == frames,
            !r.has_failed(),
    {
        OwnedProcessor { frames, failed: false }
    }

    /// The samples of a block.
    pub fn block_frames(&self) -> (r: usize)
        ensures
            r == self.size(),
    {
        self.frames
    }

    /// A block of `len` samples is to be sent. It counts as failed until the answer is there.
    pub fn submit(&mut self, len: usize) -> (r: Result<(), Error>)
        ensures
            final(self).size() == old(self).size(),
            final(self).has_failed() == after_submit(old(self).has_failed(), old(self).size(), len),
            match refused(old(self).has_failed(), old(self).size(), len) {
                Some(refusal) => r matches Err(e) && e@ == refusal,
                None => r is Ok,
            },
    {
        if self.failed {
            return Err(Error::Inference("inference owner failed; restart required".to_owned()));
        }
        if len != self.frames {
            return Err(Error::BlockSize { expected: self.frames, got: len });
        }
        self.failed = true;
        Ok(())
    }

    /// The answer is there: only a good one lets the next block pass.
    pub fn complete(&mut self, good: bool)
        ensures
            final(self).size() == old(self).size(),
            final(self).has_failed() == (old(self).has_failed() && !good),
    {
        if good {
            self.failed = false;
        }
    }
}

/// A block of the right size is sent to an owner that has not failed, and then no other until it is answered;
/// any other size is refused and changes nothing.
pub proof fn law_one_block_at_a_time(frames: usize, len: usize, next: usize)
    ensures
        refused(false, frames, frames) is None,
        after_submit(false, frames, frames),
        refused(after_submit(false, frames, frames), frames, next) is Some,
        len != frames ==> refused(false, frames, len) == Some(
            ErrorValue::BlockSize { expected: frames, got: len },
        ),
        len != frames ==> !after_submit(false, frames, len),
{
}

/// A converted block is good where it has the size of the block and no sample with the highest exponent.
pub proof fn law_good_output(frames: usize, output: Seq<u32>)
    ensures
        valid_output(frames, output) == (output.len() == frames && forall|i: int|
            0 <= i < output.len() ==> (#[trigger] output[i]) as int / 0x80_0000 % 0x100 != 0xff),
{
    assert forall|i: int| 0 <= i < output.len() implies bits::single_is_finite(#[trigger] output[i]) == (
    output[i] as int / 0x80_0000 % 0x100 != 0xff) by {
        bits::law_highest_exponent_is_not_finite(0, output[i], 0);
    }
}

} // verus!
