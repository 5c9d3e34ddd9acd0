//! Calls into the device runtime: what a status means, how a stream is waited for, and how the graph
//! of a stage is set up.
use crate::plan::{put_dimension, Dimension};
use crate::text::{join3, signed_decimal};
use crate::{mel, plan, text};
use vstd::prelude::*;
use vstd::string::*;

verus! {

broadcast use vstd::string::group_string_axioms;

/// What is reported of an operation whose status is not zero.
pub open spec fn failure(operation: Seq<char>, code: i32) -> Seq<char> {
    operation + " failed: "@ + text::signed_decimal_of(code as int)
}

/// Checks the status of an operation.
pub fn check(code: i32, operation: &str) -> (r: Result<(), String>)
    ensures
        if code == 0 {
            r is Ok
        } else {
            r matches Err(e) && e@ == failure(operation@, code)
        },
{
    if code == 0 {
        return Ok(());
    }
    let number = signed_decimal(code);
    Err(join3(operation, " failed: ", number.as_str()))
}

/// What is to be done next while the host waits for a stream.
pub enum Wait {
    /// Record the event behind the work of the stream.
    Record,
    /// Wait for the event.
    Event,
    /// Drain the stream, and report the failure.
    Drain(String),
    /// Nothing: the wait went through or failed.
    Done(Result<(), String>),
}

/// What follows a step that gave the status `code`.
pub open spec fn followed(step: Wait, code: i32, next: Wait) -> bool {
    match step {
        Wait::Record => if code == 0 {
            next is Event
        } else {
            next matches Wait::Drain(e) && e@ == failure("record blocking completion event"@, code)
        },
        Wait::Event => if code == 0 {
            next == Wait::Done(Ok(()))
        } else {
            next matches Wait::Drain(e) && e@ == failure("wait for blocking completion event"@, code)
        },
        Wait::Drain(e) => next == Wait::Done(Err(e)),
        Wait::Done(result) => next == Wait::Done(result),
    }
}

impl Wait {
    /// The event is recorded anew before every wait.
    pub fn begin() -> (r: Wait)
        ensures
            r is Record,
    {
        Wait::Record
    }

    /// A step was done and gave the status `code`. Where the event cannot be recorded or waited for,
    /// the stream is drained before anything is reported, and what drained it says nothing.
    pub fn next(self, code: i32) -> (r: Wait)
        ensures
            followed(self, code, r),
    {
        match self {
            Wait::Record => match check(code, "record blocking completion event") {
                Ok(_) => Wait::Event,
                Err(e) => Wait::Drain(e),
            },
            Wait::Event => match check(code, "wait for blocking completion event") {
                Ok(_) => Wait::Done(Ok(())),
                Err(e) => Wait::Drain(e),
            },
            Wait::Drain(e) => Wait::Done(Err(e)),
            Wait::Done(result) => Wait::Done(result),
        }
    }
}

/// No failure is reported before the stream was drained, whatever the statuses were; an event is
/// waited for only after it was recorded; and draining keeps the failure that led to it.
pub proof fn law_drained_before_failing(step: Wait, code: i32, next: Wait)
    requires
        followed(step, code, next),
    ensures
        next matches Wait::Done(Err(e)) ==> (step == Wait::Drain(e) || step == next),
        next is Event ==> step is Record && code == 0,
        next matches Wait::Done(Ok(_)) ==> (step is Event && code == 0) || step == next,
{
}

/// What a stage computes.
#[derive(Clone, Copy, PartialEq, Eq, Structural)]
pub enum GraphKind {
    Pitch,
    ContentVec,
    Dsp,
    Generator,
}

/// How the graph of a stage is set up.
#[derive(Clone, Copy, PartialEq, Eq, Structural)]
pub struct StageOptions {
    /// All optimizations, and a search through all algorithms; otherwise the basic ones and the
    /// heuristic.
    pub thorough: bool,
    /// Batch norms are kept apart from the convolutions before them.
    pub norms_apart: bool,
    pub deterministic: bool,
    /// The host waits for the device after every run.
    pub device_sync: bool,
}

/// How the graph of a stage is set up. The feature and generator graphs keep what they were made
/// with and have to give the same result on every replay; the pitch graph needs its halves
/// normalised on their own; the small graphs need the wait after every run.
pub fn stage_options(kind: GraphKind) -> (r: StageOptions)
    ensures
        r.thorough == (kind == GraphKind::ContentVec || kind == GraphKind::Generator),
        r.norms_apart == (kind == GraphKind::Pitch),
        r.deterministic == (kind == GraphKind::ContentVec || kind == GraphKind::Generator),
        r.device_sync == (kind == GraphKind::Dsp),
{
    let whole: bool = match kind {
        GraphKind::ContentVec | GraphKind::Generator => true,
        _ => false,
    };
    StageOptions {
        thorough: whole,
        norms_apart: match kind {
            GraphKind::Pitch => true,
            _ => false,
        },
        deterministic: whole,
        device_sync: match kind {
            GraphKind::Dsp => true,
            _ => false,
        },
    }
}

/// The sizes of the dimensions of an analysis of `length` samples.
pub open spec fn analysis_dimensions(length: usize) -> Seq<(Seq<char>, int)> {
    let frames = mel::frames_of(length as int);
    seq![
        ("audio_len"@, length as int),
        ("real_frames"@, frames),
        ("mel_frames"@, mel::padded_of(frames)),
        ("audio_dynamic_axes_1"@, length as int),
    ]
}

/// The sizes of the dimensions of an analysis of `length` samples.
pub fn stage_dimensions(length: usize) -> (r: Vec<Dimension>)
    ensures
        plan::dimensions(r@) == analysis_dimensions(length),
{
    let frames: usize = length / 160 + 1;
    let mut out: Vec<Dimension> = Vec::new();
    assert(plan::dimensions(out@) =~= seq![]);
    put_dimension(&mut out, "audio_len", length);
    put_dimension(&mut out, "real_frames", frames);
    put_dimension(&mut out, "mel_frames", (frames + 31) / 32 * 32);
    put_dimension(&mut out, "audio_dynamic_axes_1", length);
    out
}

/// A wait goes on one way only, records before it waits, and fails with the code that it was given.
pub proof fn law_waits_go_one_way(step: Wait, code: i32, a: Wait, b: Wait)
    requires
        followed(step, code, a),
        followed(step, code, b),
    ensures
        a is Record == b is Record && a is Event == b is Event && a is Done == b is Done,
        a is Drain ==> b is Drain && a->Drain_0@ == b->Drain_0@,
        a matches Wait::Done(r) ==> b == Wait::Done(r),
        step is Record && code == 0 ==> a is Event,
        step is Event && code == 0 ==> a matches Wait::Done(Ok(_)),
        (step is Record || step is Event) && code != 0 ==> a is Drain
            && text::signed_decimal_of(code as int).is_suffix_of(a->Drain_0@),
{
    let shown = text::signed_decimal_of(code as int);
    let m = failure("record blocking completion event"@, code);
    let w = failure("wait for blocking completion event"@, code);
    assert(m.skip(m.len() - shown.len()) =~= shown);
    assert(w.skip(w.len() - shown.len()) =~= shown);
}

/// The pitch is analysed every 10 ms, from the first sample to the last, and in whole groups of 32 frames with
/// less than one group of padding.
pub proof fn law_analysis_covers_the_signal(length: usize)
    ensures
        ({
            let d = analysis_dimensions(length);
            &&& d.len() == 4
            &&& d[0].0 == "audio_len"@ && d[1].0 == "real_frames"@ && d[2].0 == "mel_frames"@ && d[3].0
                == "audio_dynamic_axes_1"@
            &&& d[0].1 == length && d[3].1 == length
            &&& (d[1].1 - 1) * 160 <= length < d[1].1 * 160
            &&& d[2].1 % 32 == 0
            &&& d[1].1 <= d[2].1 < d[1].1 + 32
        }),
{
}

} // verus!
