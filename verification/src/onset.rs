//! Passive onset measurement at the application's input and output.
//!
//! A new utterance is one that follows 300 ms of quiet on both sides. What is measured is the time
//! from the delivery of its input block to the readiness of the first output block with sound in
//! it. Times are nanoseconds of one monotonic clock; whether a window of samples is loud is decided
//! by the caller, who has the energies.
use crate::bits;
use crate::bits::is_finite_single;
use vstd::prelude::*;

verus! {

/// The first loud window of a run.
#[derive(Clone, Copy, PartialEq, Eq, Structural)]
pub struct Edge {
    pub window: u64,
    pub block: u64,
    pub time: u128,
}

/// One utterance, paired with the first output block that has sound in it. Blocks are counted by
/// calls of [`OnsetLatency::observe`].
#[derive(Clone, Copy, PartialEq, Eq, Structural)]
pub struct Measurement {
    pub input_block: u64,
    pub output_block: u64,
    pub input_received: u128,
    pub output_written: u128,
}

impl Measurement {
    /// Whether the output does not come before the input.
    pub open spec fn in_order(self) -> bool {
        self.input_block <= self.output_block && self.input_received <= self.output_written
    }

    /// The nanoseconds from input to output.
    pub fn elapsed(self) -> (r: u128)
        requires
            self.in_order(),
        ensures
            r == self.output_written - self.input_received,
    {
        self.output_written - self.input_received
    }

    /// The distance in blocks and the bits of the elapsed milliseconds in one word, so that both are
    /// published together.
    pub fn packed(self, elapsed_ms: u32) -> (r: u64)
        requires
            self.in_order(),
        ensures
            r as int % 0x1_0000_0000 == elapsed_ms,
            r as int / 0x1_0000_0000 == if self.output_block - self.input_block <= u32::MAX {
                self.output_block - self.input_block
            } else {
                u32::MAX as int
            },
    {
        let distance: u64 = self.output_block - self.input_block;
        let high: u64 = if distance <= 0xffff_ffff {
            distance
        } else {
            0xffff_ffff
        };
        high * 0x1_0000_0000 + elapsed_ms as u64
    }
}

/// The longest time from input to output that counts, in nanoseconds.
pub const LONGEST: u128 = 3_000_000_000;

/// The detector.
#[derive(Clone, Copy)]
pub struct OnsetLatency {
    pub window_frames: usize,
    pub quiet_windows: usize,
    pub attack_windows: usize,
    /// The samples of the window that is not complete yet.
    pub count: usize,
    pub window: u64,
    pub next_block: u64,
    /// The quiet windows in a row, up to as many as are asked for.
    pub quiet: usize,
    /// Whether the next utterance is to be measured.
    pub armed: bool,
    pub input_run: usize,
    pub output_run: usize,
    pub input_edge: Option<Edge>,
    pub output_edge: Option<Edge>,
    /// The utterance that waits for its output.
    pub pending: Option<Edge>,
}

/// `a` divided by `b`, rounded up.
pub open spec fn ceiling(a: int, b: int) -> int {
    (a + b - 1) / b
}

/// The first sample that is not finite on one of the sides.
pub open spec fn first_bad(input: Seq<u32>, output: Seq<u32>, from: int) -> Option<int>
    decreases input.len() - from,
{
    if from < 0 || from >= input.len() {
        None
    } else if !bits::single_is_finite(input[from]) || !bits::single_is_finite(output[from]) {
        Some(from)
    } else {
        first_bad(input, output, from + 1)
    }
}

/// The smaller of two sizes.
pub open spec fn at_most(a: int, b: usize) -> usize {
    if a <= b {
        a as usize
    } else {
        b
    }
}

impl OnsetLatency {
    /// Whether the counters are in their ranges and every edge is of a window and a block that was
    /// seen.
    pub open spec fn valid(self) -> bool {
        &&& self.window_frames >= 1
        &&& self.attack_windows >= 1
        &&& self.count < self.window_frames
        &&& self.quiet <= self.quiet_windows
        &&& self.input_run <= self.attack_windows
        &&& self.output_run <= self.attack_windows
        &&& (self.input_run == 0) == (self.input_edge is None)
        &&& (self.output_run == 0) == (self.output_edge is None)
        &&& self.input_edge matches Some(e) ==> e.block < self.next_block
        &&& self.output_edge matches Some(e) ==> e.block < self.next_block
        &&& self.pending matches Some(e) ==> e.block < self.next_block
        &&& self.input_edge matches Some(e) ==> e.window <= self.window
        &&& self.output_edge matches Some(e) ==> e.window <= self.window
        &&& self.pending matches Some(e) ==> e.window <= self.window
        &&& self.input_edge matches Some(e) ==> self.output_edge matches Some(f) ==> (e.block
            < f.block ==> e.window < f.window) && (f.block < e.block ==> f.window < e.window)
        &&& self.pending matches Some(e) ==> self.output_edge matches Some(f) ==> (f.block < e.block
            ==> f.window < e.window)
        &&& self.pending matches Some(e) ==> self.armed == false
    }

    /// The detector without an utterance, with everything to be heard anew.
    pub open spec fn cancelled(self) -> OnsetLatency {
        OnsetLatency {
            count: 0,
            quiet: 0,
            armed: false,
            input_run: 0,
            output_run: 0,
            input_edge: None,
            output_edge: None,
            pending: None,
            ..self
        }
    }

    /// The detector after a window counts as quiet or not. Enough quiet ones in a row arm it, unless
    /// an utterance waits for its output.
    pub open spec fn rested(self, active: bool) -> OnsetLatency {
        if active {
            OnsetLatency { quiet: 0, ..self }
        } else {
            let quiet = at_most(self.quiet + 1, self.quiet_windows);
            OnsetLatency {
                quiet,
                armed: self.armed || (quiet == self.quiet_windows && self.pending is None),
                ..self
            }
        }
    }

    /// The detector after the input side of a window: an armed one takes a run that is long enough
    /// as an utterance, from the run's first window on.
    pub open spec fn spoken(self, active: bool, block: u64, time: u128) -> OnsetLatency {
        if active {
            let edge = if self.input_run == 0 {
                Some(Edge { window: self.window, block, time })
            } else {
                self.input_edge
            };
            let run = at_most(self.input_run + 1, self.attack_windows);
            if self.armed && run == self.attack_windows {
                OnsetLatency {
                    input_edge: edge,
                    input_run: run,
                    pending: edge,
                    armed: false,
                    ..self
                }
            } else {
                OnsetLatency { input_edge: edge, input_run: run, ..self }
            }
        } else {
            OnsetLatency { input_edge: None, input_run: 0, ..self }
        }
    }

    /// The detector after the output side of a window: a run that is long enough answers the
    /// utterance that waits.
    pub open spec fn answered(self, active: bool, block: u64, time: u128) -> OnsetLatency {
        if active {
            let edge = if self.output_run == 0 {
                Some(Edge { window: self.window, block, time })
            } else {
                self.output_edge
            };
            let run = at_most(self.output_run + 1, self.attack_windows);
            if run == self.attack_windows {
                OnsetLatency {
                    output_edge: edge,
                    output_run: run,
                    pending: None,
                    armed: false,
                    ..self
                }
            } else {
                OnsetLatency { output_edge: edge, output_run: run, ..self }
            }
        } else {
            OnsetLatency { output_edge: None, output_run: 0, ..self }
        }
    }

    /// What is measured when the output side of a window was heard: the utterance that waited, where
    /// the output began no earlier and within the longest time.
    pub open spec fn measured(self, active: bool, block: u64, time: u128) -> Option<Measurement> {
        let after = self.answered(active, block, time);
        if active && after.output_run == self.attack_windows {
            match (self.pending, after.output_edge) {
                (Some(input), Some(output)) => if output.window >= input.window && input.time
                    <= output.time && output.time - input.time <= LONGEST {
                    Some(
                        Measurement {
                            input_block: input.block,
                            output_block: output.block,
                            input_received: input.time,
                            output_written: output.time,
                        },
                    )
                } else {
                    None
                },
                _ => None,
            }
        } else {
            None
        }
    }

    /// The detector without an utterance that waited too long.
    pub open spec fn expired(self, now: u128) -> OnsetLatency {
        match self.pending {
            Some(edge) => if now > edge.time + LONGEST {
                OnsetLatency { pending: None, ..self }
            } else {
                self
            },
            None => self,
        }
    }

    /// The detector before the output side of the next window.
    pub open spec fn before_output(self, active: (bool, bool), block: u64, seen: u128) -> OnsetLatency {
        OnsetLatency { window: (self.window + 1) as u64, ..self }.rested(
            active.0 || active.1,
        ).spoken(active.0, block, seen)
    }

    /// The detector after one more window.
    pub open spec fn heard(
        self,
        active: (bool, bool),
        block: u64,
        seen: u128,
        ready: u128,
    ) -> OnsetLatency {
        self.before_output(active, block, seen).answered(active.1, block, ready).expired(ready)
    }

    /// What one more window measures.
    pub open spec fn news(
        self,
        active: (bool, bool),
        block: u64,
        seen: u128,
        ready: u128,
    ) -> Option<Measurement> {
        self.before_output(active, block, seen).measured(active.1, block, ready)
    }

    /// The detector after the first `n` windows of a block, and the last thing that they measured.
    pub open spec fn listened(
        self,
        active: Seq<(bool, bool)>,
        n: int,
        block: u64,
        seen: u128,
        ready: u128,
    ) -> (OnsetLatency, Option<Measurement>)
        decreases n,
    {
        if n <= 0 {
            (self, None)
        } else {
            let (before, known) = self.listened(active, n - 1, block, seen, ready);
            let news = before.news(active[n - 1], block, seen, ready);
            (
                before.heard(active[n - 1], block, seen, ready),
                if news is Some {
                    news
                } else {
                    known
                },
            )
        }
    }

    /// The windows that are complete after `frames` more samples.
    pub open spec fn windows_in(self, frames: int) -> int {
        (self.count + frames) / self.window_frames as int
    }

    /// The detector after a block, and what the block measured. `active` says of each window that
    /// the block completes whether it is loud on the two sides. Blocks that do not fit together or
    /// hold samples that are not finite cancel everything.
    pub open spec fn observed(
        self,
        input: Seq<u32>,
        output: Seq<u32>,
        active: Seq<(bool, bool)>,
        seen: u128,
        ready: u128,
    ) -> (OnsetLatency, Option<Measurement>) {
        let next = OnsetLatency { next_block: (self.next_block + 1) as u64, ..self };
        if input.len() != output.len() || ready < seen {
            (next.cancelled(), None)
        } else {
            match first_bad(input, output, 0) {
                Some(bad) => (
                    OnsetLatency {
                        window: (self.window + self.windows_in(bad)) as u64,
                        ..next
                    }.cancelled(),
                    None,
                ),
                None => {
                    let n = self.windows_in(input.len() as int);
                    let (after, news) = next.listened(active, n, self.next_block, seen, ready);
                    (
                        OnsetLatency {
                            count: ((self.count + input.len()) % self.window_frames as int) as usize,
                            ..after
                        },
                        news,
                    )
                },
            }
        }
    }

    /// A detector for a stream of `sample_rate` samples in a second: windows of a millisecond, 300 ms
    /// of quiet and 5 ms of sound.
    pub fn new(sample_rate: u32) -> (r: OnsetLatency)
        ensures
            detects(r, sample_rate),
    {
        let rate: u64 = sample_rate as u64;
        let window_frames: u64 = if rate < 1000 {
            1
        } else {
            rate / 1000
        };
        let quiet: u64 = (rate * 300 + (1000 * window_frames - 1)) / (1000 * window_frames);
        let attack: u64 = (rate * 5 + (1000 * window_frames - 1)) / (1000 * window_frames);
        proof {
            let w = 1000 * window_frames as int;
            assert(quiet <= 2_000_000) by (nonlinear_arith)
                requires
                    quiet == (rate * 300 + (w - 1)) / w,
                    w >= 1000,
                    rate < 1000 ==> w == 1000,
                    rate >= 1000 ==> rate < 2 * w,
            ;
            assert(attack <= 2_000_000) by (nonlinear_arith)
                requires
                    attack == (rate * 5 + (w - 1)) / w,
                    w >= 1000,
                    rate < 1000 ==> w == 1000,
                    rate >= 1000 ==> rate < 2 * w,
            ;
            if rate > 0 {
                assert(attack >= 1) by (nonlinear_arith)
                    requires
                        attack == (rate * 5 + (w - 1)) / w,
                        w >= 1000,
                        rate > 0,
                ;
            }
        }
        OnsetLatency {
            window_frames: window_frames as usize,
            quiet_windows: quiet as usize,
            attack_windows: if rate == 0 {
                1
            } else {
                attack as usize
            },
            count: 0,
            window: 0,
            next_block: 0,
            quiet: 0,
            armed: false,
            input_run: 0,
            output_run: 0,
            input_edge: None,
            output_edge: None,
            pending: None,
        }
    }
}

impl OnsetLatency {
    /// Cancels a measurement that samples were lost from.
    pub fn reset(&mut self)
        ensures
            *final(self) == old(self).cancelled(),
    {
        self.count = 0;
        self.quiet = 0;
        self.armed = false;
        self.input_run = 0;
        self.output_run = 0;
        self.input_edge = None;
        self.output_edge = None;
        self.pending = None;
    }

    /// Hears one more window.
    fn hear(&mut self, active: (bool, bool), block: u64, seen: u128, ready: u128) -> (r: Option<
        Measurement,
    >)
        requires
            old(self).window < u64::MAX,
            old(self).input_run <= old(self).attack_windows,
            old(self).output_run <= old(self).attack_windows,
            old(self).quiet <= old(self).quiet_windows,
        ensures
            *final(self) == old(self).heard(active, block, seen, ready),
            r == old(self).news(active, block, seen, ready),
    {
        self.window = self.window + 1;
        if !active.0 && !active.1 {
            if self.quiet < self.quiet_windows {
                self.quiet = self.quiet + 1;
            }
            if self.quiet == self.quiet_windows && self.pending.is_none() {
                self.armed = true;
            }
        } else {
            self.quiet = 0;
        }
        if active.0 {
            if self.input_run == 0 {
                self.input_edge = Some(Edge { window: self.window, block, time: seen });
            }
            if self.input_run < self.attack_windows {
                self.input_run = self.input_run + 1;
            }
            if self.armed && self.input_run == self.attack_windows {
                self.pending = self.input_edge;
                self.armed = false;
            }
        } else {
            self.input_run = 0;
            self.input_edge = None;
        }
        let mut news: Option<Measurement> = None;
        if active.1 {
            if self.output_run == 0 {
                self.output_edge = Some(Edge { window: self.window, block, time: ready });
            }
            if self.output_run < self.attack_windows {
                self.output_run = self.output_run + 1;
            }
            if self.output_run == self.attack_windows {
                self.armed = false;
                if let (Some(input), Some(output)) = (self.pending, self.output_edge) {
                    if output.window >= input.window && input.time <= output.time && output.time
                        - input.time <= LONGEST {
                        news =
                        Some(
                            Measurement {
                                input_block: input.block,
                                output_block: output.block,
                                input_received: input.time,
                                output_written: output.time,
                            },
                        );
                    }
                }
                self.pending = None;
            }
        } else {
            self.output_run = 0;
            self.output_edge = None;
        }
        if let Some(edge) = self.pending {
            if ready > edge.time && ready - edge.time > LONGEST {
                self.pending = None;
            }
        }
        news
    }

    /// The first sample that is not finite on one of the sides.
    fn find_bad(input: &[u32], output: &[u32]) -> (r: Option<usize>)
        requires
            input@.len() == output@.len(),
        ensures
            match first_bad(input@, output@, 0) {
                Some(i) => r matches Some(j) && i == j && i < input@.len(),
                None => r is None,
            },
    {
        let mut i: usize = 0;
        while i < input.len()
            invariant
                i <= input@.len() == output@.len(),
                first_bad(input@, output@, 0) == first_bad(input@, output@, i as int),
            decreases input@.len() - i,
        {
            if !is_finite_single(input[i]) || !is_finite_single(output[i]) {
                return Some(i);
            }
            i += 1;
        }
        None
    }

    /// Hears a block: the bits of its samples on the two sides, whether each window that it completes
    /// is loud, and the times at which its input came and its output was ready. Gives a measurement
    /// only once, when it is new.
    pub fn observe(
        &mut self,
        input: &[u32],
        output: &[u32],
        active: &[(bool, bool)],
        seen: u128,
        ready: u128,
    ) -> (r: Option<Measurement>)
        requires
            old(self).valid(),
            old(self).next_block < u64::MAX,
            old(self).count + input@.len() <= usize::MAX,
            old(self).window + old(self).windows_in(input@.len() as int) <= u64::MAX,
            input@.len() == output@.len() ==> active@.len() == old(self).windows_in(
                input@.len() as int,
            ),
        ensures
            final(self).valid(),
            (*final(self), r) == old(self).observed(input@, output@, active@, seen, ready),
            r matches Some(m) ==> m.in_order() && m.output_written - m.input_received <= LONGEST,
    {
        let ghost before = *self;
        let block: u64 = self.next_block;
        self.next_block = block + 1;
        if input.len() != output.len() || ready < seen {
            self.reset();
            return None;
        }
        let n: usize = input.len();
        if let Some(bad) = Self::find_bad(input, output) {
            let windows: usize = (self.count + bad) / self.window_frames;
            proof {
                vstd::arithmetic::div_mod::lemma_div_is_ordered(
                    before.count + bad,
                    before.count + n,
                    before.window_frames as int,
                );
            }
            self.window = self.window + windows as u64;
            self.reset();
            return None;
        }
        let ghost start = *self;
        let mut news: Option<Measurement> = None;
        let windows: usize = (self.count + n) / self.window_frames;
        let mut i: usize = 0;
        while i < windows
            invariant
                i <= windows == active@.len(),
                before.valid(),
                start == (OnsetLatency { next_block: (before.next_block + 1) as u64, ..before }),
                block == before.next_block < u64::MAX,
                seen <= ready,
                before.window + windows <= u64::MAX,
                (*self, news) == start.listened(active@, i as int, block, seen, ready),
                self.valid(),
                self.window == before.window + i,
                self.next_block == block + 1,
                self.count == before.count,
                self.window_frames == before.window_frames,
                news matches Some(m) ==> m.in_order() && m.output_written - m.input_received
                    <= LONGEST,
            decreases windows - i,
        {
            proof {
                lemma_heard(*self, active@[i as int], block, seen, ready);
            }
            if let Some(m) = self.hear(active[i], block, seen, ready) {
                news = Some(m);
            }
            i += 1;
        }
        self.count = (self.count + n) % self.window_frames;
        news
    }
}

/// One more window keeps the detector valid, and what it measures is in order.
proof fn lemma_heard(d: OnsetLatency, active: (bool, bool), block: u64, seen: u128, ready: u128)
    requires
        d.valid(),
        d.window < u64::MAX,
        d.next_block == block + 1,
    ensures
        d.heard(active, block, seen, ready).valid(),
        d.heard(active, block, seen, ready).window == d.window + 1,
        d.heard(active, block, seen, ready).next_block == d.next_block,
        d.heard(active, block, seen, ready).count == d.count,
        d.heard(active, block, seen, ready).window_frames == d.window_frames,
        d.news(active, block, seen, ready) matches Some(m) ==> m.in_order() && m.output_written
            - m.input_received <= LONGEST,
{
}

/// Without an utterance that waits and without enough quiet, a window measures nothing and leaves
/// the detector unarmed.
proof fn lemma_unarmed(d: OnsetLatency, active: (bool, bool), block: u64, seen: u128, ready: u128)
    requires
        !d.armed,
        d.pending is None,
        active.0 || active.1 || d.quiet + 1 < d.quiet_windows,
    ensures
        d.news(active, block, seen, ready) is None,
        !d.heard(active, block, seen, ready).armed,
        d.heard(active, block, seen, ready).pending is None,
        d.heard(active, block, seen, ready).quiet_windows == d.quiet_windows,
        d.heard(active, block, seen, ready).quiet == if active.0 || active.1 {
            0
        } else {
            d.quiet + 1
        },
{
}

/// The quiet windows in a row at the end of the first `n`, after `quiet` before them.
pub open spec fn quiet_run(quiet: int, active: Seq<(bool, bool)>, n: int) -> int
    decreases n,
{
    if n <= 0 {
        quiet
    } else if active[n - 1].0 || active[n - 1].1 {
        0
    } else {
        quiet_run(quiet, active, n - 1) + 1
    }
}

/// Nothing is measured before enough quiet: however loud a block is, a detector that is not armed
/// and waits for nothing measures nothing in it and stays so, as long as the quiet windows in a row
/// stay fewer than are asked for.
pub proof fn law_silence_comes_first(
    d: OnsetLatency,
    active: Seq<(bool, bool)>,
    n: int,
    block: u64,
    seen: u128,
    ready: u128,
)
    requires
        0 <= n <= active.len(),
        !d.armed,
        d.pending is None,
        forall|k: int| 0 <= k <= n ==> #[trigger] quiet_run(d.quiet as int, active, k)
            < d.quiet_windows,
    ensures
        ({
            let (after, news) = d.listened(active, n, block, seen, ready);
            &&& news is None
            &&& !after.armed
            &&& after.pending is None
            &&& after.quiet_windows == d.quiet_windows
            &&& after.quiet == quiet_run(d.quiet as int, active, n)
        }),
    decreases n,
{
    if n > 0 {
        law_silence_comes_first(d, active, n - 1, block, seen, ready);
        let (before, _) = d.listened(active, n - 1, block, seen, ready);
        assert(quiet_run(d.quiet as int, active, n) < d.quiet_windows);
        lemma_unarmed(before, active[n - 1], block, seen, ready);
    }
}

/// A click is no utterance: a window of input makes an utterance wait only as the last of a run that
/// is long enough, and then the run's first window is where it began.
pub proof fn law_clicks_are_no_utterances(
    d: OnsetLatency,
    active: (bool, bool),
    block: u64,
    seen: u128,
    ready: u128,
)
    requires
        d.valid(),
        d.pending is None,
        d.heard(active, block, seen, ready).pending is Some,
    ensures
        active.0,
        d.input_run + 1 >= d.attack_windows,
        d.heard(active, block, seen, ready).pending == if d.input_run == 0 {
            Some(Edge { window: (d.window + 1) as u64, block, time: seen })
        } else {
            d.input_edge
        },
{
}

/// After a reset nothing that was heard before counts: the detector is that of a fresh one of the
/// same stream but for its counters of windows and blocks.
pub proof fn law_reset_forgets(d: OnsetLatency)
    ensures
        d.cancelled().pending is None,
        !d.cancelled().armed,
        d.cancelled().quiet == 0,
        d.cancelled().cancelled() == d.cancelled(),
        d.valid() ==> d.cancelled().valid(),
{
}

/// A measurement is given once: the window that gives it leaves no utterance waiting, and the
/// detector has to be armed by quiet again.
pub proof fn law_measured_once(d: OnsetLatency, active: (bool, bool), block: u64, seen: u128, ready: u128)
    requires
        d.valid(),
        d.news(active, block, seen, ready) is Some,
    ensures
        d.heard(active, block, seen, ready).pending is None,
        !d.heard(active, block, seen, ready).armed,
{
}

/// A block as it is handed to [`OnsetLatency::observe`].
pub struct Block {
    pub input: Seq<u32>,
    pub output: Seq<u32>,
    pub active: Seq<(bool, bool)>,
    pub seen: u128,
    pub ready: u128,
}

impl Block {
    /// Whether the two sides fit together and every sample is finite.
    pub open spec fn sound(self) -> bool {
        &&& self.input.len() == self.output.len()
        &&& self.seen <= self.ready
        &&& first_bad(self.input, self.output, 0) is None
    }
}

/// A call on a detector.
pub enum Event {
    Observe(Block),
    Reset,
}

impl OnsetLatency {
    /// The detector after a call, and what the call answers.
    pub open spec fn told(self, event: Event) -> (OnsetLatency, Option<Measurement>) {
        match event {
            Event::Observe(b) => self.observed(b.input, b.output, b.active, b.seen, b.ready),
            Event::Reset => (self.cancelled(), None),
        }
    }

    /// The detector after calls in a row.
    pub open spec fn told_all(self, events: Seq<Event>) -> OnsetLatency
        decreases events.len(),
    {
        if events.len() == 0 {
            self
        } else {
            self.told_all(events.drop_last()).told(events.last()).0
        }
    }

    /// What the last of calls in a row answers.
    pub open spec fn answer(self, events: Seq<Event>) -> Option<Measurement> {
        self.told_all(events.drop_last()).told(events.last()).1
    }

    /// Whether the counters have room for a block, and whether it comes with a word for every window.
    pub open spec fn has_room(self, b: Block) -> bool {
        &&& self.next_block < u64::MAX
        &&& self.count + b.input.len() <= usize::MAX
        &&& self.window + self.windows_in(b.input.len() as int) <= u64::MAX
        &&& b.input.len() == b.output.len() ==> b.active.len() == self.windows_in(
            b.input.len() as int,
        )
    }

    /// Whether there is room for every block of calls in a row.
    pub open spec fn has_room_for_all(self, events: Seq<Event>) -> bool
        decreases events.len(),
    {
        events.len() > 0 ==> {
            &&& self.has_room_for_all(events.drop_last())
            &&& events.last() matches Event::Observe(b) ==> self.told_all(
                events.drop_last(),
            ).has_room(b)
        }
    }

    /// Whether calls in a row never complete as many quiet windows as are asked for.
    pub open spec fn never_quiet(self, events: Seq<Event>) -> bool
        decreases events.len(),
    {
        events.len() > 0 ==> {
            let before = self.told_all(events.drop_last());
            &&& self.never_quiet(events.drop_last())
            &&& events.last() matches Event::Observe(b) ==> b.sound() ==> forall|k: int|
                0 <= k <= before.windows_in(b.input.len() as int) ==> #[trigger] quiet_run(
                    before.quiet as int,
                    b.active,
                    k,
                ) < before.quiet_windows
        }
    }

    /// Whether every edge has the time of the block that it names: that of the input on the input side, and
    /// that of the output on the output side.
    spec fn dated(self, times: Seq<(u128, u128)>) -> bool {
        &&& self.input_edge matches Some(e) ==> e.block < times.len() && e.time
            == times[e.block as int].0
        &&& self.pending matches Some(e) ==> e.block < times.len() && e.time
            == times[e.block as int].0
        &&& self.output_edge matches Some(e) ==> e.block < times.len() && e.time
            == times[e.block as int].1
    }
}

/// The two times of every block among calls in a row, in their order.
pub open spec fn times(events: Seq<Event>) -> Seq<(u128, u128)>
    decreases events.len(),
{
    if events.len() == 0 {
        Seq::empty()
    } else {
        match events.last() {
            Event::Observe(b) => times(events.drop_last()).push((b.seen, b.ready)),
            Event::Reset => times(events.drop_last()),
        }
    }
}

/// Whether a measurement has the times of the two blocks that it names.
pub open spec fn dates(m: Measurement, times: Seq<(u128, u128)>) -> bool {
    &&& m.input_block <= m.output_block < times.len()
    &&& m.input_received == times[m.input_block as int].0
    &&& m.output_written == times[m.output_block as int].1
    &&& m.input_received <= m.output_written
    &&& m.output_written - m.input_received <= LONGEST
}

proof fn lemma_listened(
    d: OnsetLatency,
    b: Block,
    n: int,
    block: u64,
    all: Seq<(u128, u128)>,
)
    requires
        d.valid(),
        0 <= n <= b.active.len(),
        d.window + n <= u64::MAX,
        d.next_block == block + 1 == all.len(),
        all[block as int] == (b.seen, b.ready),
        d.dated(all),
    ensures
        ({
            let (after, news) = d.listened(b.active, n, block, b.seen, b.ready);
            &&& after.valid()
            &&& after.dated(all)
            &&& after.window == d.window + n
            &&& after.next_block == d.next_block
            &&& after.count == d.count
            &&& after.window_frames == d.window_frames
            &&& news matches Some(m) ==> dates(m, all)
        }),
    decreases n,
{
    if n > 0 {
        lemma_listened(d, b, n - 1, block, all);
        let (before, _) = d.listened(b.active, n - 1, block, b.seen, b.ready);
        lemma_heard(before, b.active[n - 1], block, b.seen, b.ready);
    }
}

/// A block keeps the detector valid and its edges dated.
proof fn lemma_told(d: OnsetLatency, b: Block, before: Seq<(u128, u128)>)
    requires
        d.valid(),
        d.has_room(b),
        d.next_block == before.len(),
        d.dated(before),
    ensures
        ({
            let (after, news) = d.told(Event::Observe(b));
            let all = before.push((b.seen, b.ready));
            &&& after.valid()
            &&& after.dated(all)
            &&& after.next_block == all.len()
            &&& news matches Some(m) ==> dates(m, all)
        }),
{
    let all = before.push((b.seen, b.ready));
    if b.sound() {
        let next = OnsetLatency { next_block: (d.next_block + 1) as u64, ..d };
        let n = d.windows_in(b.input.len() as int);
        vstd::arithmetic::div_mod::lemma_div_pos_is_pos(
            d.count + b.input.len(),
            d.window_frames as int,
        );
        vstd::arithmetic::div_mod::lemma_mod_bound(
            d.count + b.input.len(),
            d.window_frames as int,
        );
        lemma_listened(next, b, n, d.next_block, all);
    }
}

proof fn lemma_told_all(fresh: OnsetLatency, events: Seq<Event>)
    requires
        fresh.valid(),
        fresh.next_block == 0,
        fresh == fresh.cancelled(),
        fresh.has_room_for_all(events),
    ensures
        ({
            let d = fresh.told_all(events);
            &&& d.valid()
            &&& d.dated(times(events))
            &&& d.next_block == times(events).len()
        }),
    decreases events.len(),
{
    if events.len() > 0 {
        lemma_told_all(fresh, events.drop_last());
        if let Event::Observe(b) = events.last() {
            lemma_told(fresh.told_all(events.drop_last()), b, times(events.drop_last()));
        }
    }
}

/// Whatever calls a new detector gets, a measurement has the times that were handed to the two calls which
/// it names: when the input of the first was seen, and when the output of the second was ready. The second
/// is no later than the call that answers with it, and no earlier than the first.
pub proof fn law_times_are_those_of_the_calls(fresh: OnsetLatency, events: Seq<Event>)
    requires
        fresh.valid(),
        fresh.next_block == 0,
        fresh == fresh.cancelled(),
        fresh.has_room_for_all(events),
        events.len() > 0,
    ensures
        fresh.answer(events) matches Some(m) ==> dates(m, times(events)),
        fresh.told_all(events).next_block == times(events).len(),
{
    lemma_told_all(fresh, events.drop_last());
    lemma_told_all(fresh, events);
    if let Event::Observe(b) = events.last() {
        lemma_told(fresh.told_all(events.drop_last()), b, times(events.drop_last()));
    }
}

proof fn lemma_still_unarmed(d: OnsetLatency, events: Seq<Event>)
    requires
        d.valid(),
        !d.armed,
        d.pending is None,
        d.has_room_for_all(events),
        d.never_quiet(events),
    ensures
        !d.told_all(events).armed,
        d.told_all(events).pending is None,
        d.told_all(events).window_frames >= 1,
    decreases events.len(),
{
    if events.len() > 0 {
        let before = d.told_all(events.drop_last());
        lemma_still_unarmed(d, events.drop_last());
        lemma_one_still_unarmed(before, events.last());
    }
}

proof fn lemma_one_still_unarmed(d: OnsetLatency, event: Event)
    requires
        !d.armed,
        d.pending is None,
        d.window_frames >= 1,
        event matches Event::Observe(b) ==> d.has_room(b),
        event matches Event::Observe(b) ==> b.sound() ==> forall|k: int|
            0 <= k <= d.windows_in(b.input.len() as int) ==> #[trigger] quiet_run(
                d.quiet as int,
                b.active,
                k,
            ) < d.quiet_windows,
    ensures
        d.told(event).1 is None,
        !d.told(event).0.armed,
        d.told(event).0.pending is None,
        d.told(event).0.window_frames == d.window_frames,
{
    if let Event::Observe(b) = event {
        if b.sound() {
            let next = OnsetLatency { next_block: (d.next_block + 1) as u64, ..d };
            let n = d.windows_in(b.input.len() as int);
            vstd::arithmetic::div_mod::lemma_div_pos_is_pos(
                d.count + b.input.len(),
                d.window_frames as int,
            );
            law_silence_comes_first(next, b.active, n, d.next_block, b.seen, b.ready);
            lemma_same_frames(next, b, n, d.next_block);
        }
    }
}

proof fn lemma_same_frames(d: OnsetLatency, b: Block, n: int, block: u64)
    ensures
        d.listened(b.active, n, block, b.seen, b.ready).0.window_frames == d.window_frames,
    decreases n,
{
    if n > 0 {
        lemma_same_frames(d, b, n - 1, block);
    }
}

/// A block that does not fit together or holds a sample that is not finite measures nothing and uses up its
/// number, and every later call answers as after a reset: nothing is measured until as many quiet windows in
/// a row as are asked for were heard again.
pub proof fn law_bad_block_is_a_reset(d: OnsetLatency, bad: Block, later: Seq<Event>)
    requires
        d.valid(),
        d.next_block < u64::MAX,
        !bad.sound(),
        later.len() > 0,
    ensures
        ({
            let (after, news) = d.told(Event::Observe(bad));
            &&& news is None
            &&& after.next_block == d.next_block + 1
            &&& after.told_all(later) == after.told(Event::Reset).0.told_all(later)
            &&& after.answer(later) == after.told(Event::Reset).0.answer(later)
            &&& after.has_room_for_all(later) && after.never_quiet(later) ==> after.answer(later) is None
        }),
{
    let after = d.told(Event::Observe(bad)).0;
    assert(after == after.cancelled());
    if after.has_room_for_all(later) && after.never_quiet(later) {
        assert(after.valid());
        lemma_still_unarmed(after, later.drop_last());
        lemma_one_still_unarmed(after.told_all(later.drop_last()), later.last());
    }
}

/// As many windows as it takes to fill a time, the last one begun counted.
pub proof fn law_windows_fill_the_time(a: int, b: int)
    requires
        0 <= a,
        0 < b,
    ensures
        a <= ceiling(a, b) * b < a + b,
{
    let n = a + b - 1;
    vstd::arithmetic::div_mod::lemma_fundamental_div_mod(n, b);
    let q = n / b;
    assert(b * q == q * b) by (nonlinear_arith);
}

/// The first bad sample is the first at which the input or the output is not finite.
pub proof fn law_first_bad_sample(input: Seq<u32>, output: Seq<u32>, at: int, from: int)
    requires
        input.len() == output.len(),
        0 <= from <= at <= input.len(),
        forall|i: int|
            from <= i < at ==> #[trigger] input[i] % 0x8000_0000 < 0x7f80_0000 && output[i] % 0x8000_0000
                < 0x7f80_0000,
        at < input.len() ==> input[at] % 0x8000_0000 >= 0x7f80_0000 || output[at] % 0x8000_0000
            >= 0x7f80_0000,
    ensures
        first_bad(input, output, from) == if at < input.len() {
            Some(at)
        } else {
            None
        },
    decreases at - from,
{
    if from < at {
        assert(input[from] % 0x8000_0000 < 0x7f80_0000);
        law_first_bad_sample(input, output, at, from + 1);
    }
}

/// Quiet adds up window by window until it is enough, and then the next utterance is measured unless one still
/// waits; a sound begins the quiet anew and arms nothing.
pub proof fn law_quiet_arms(d: OnsetLatency)
    requires
        d.valid(),
    ensures
        d.rested(true).quiet == 0 && d.rested(true).armed == d.armed,
        d.quiet < d.quiet_windows ==> d.rested(false).quiet == d.quiet + 1,
        d.quiet == d.quiet_windows ==> d.rested(false).quiet == d.quiet,
        d.quiet + 1 >= d.quiet_windows && d.pending is None ==> d.rested(false).armed,
        d.quiet + 1 < d.quiet_windows ==> d.rested(false).armed == d.armed,
        d.pending is Some ==> d.rested(false).armed == d.armed,
        d.rested(true).pending == d.pending && d.rested(false).pending == d.pending,
{
}

/// An utterance waits for its answer once it lasts long enough while armed, from its first window on; a pause
/// forgets it before that.
pub proof fn law_utterances_begin_at_their_edge(d: OnsetLatency, block: u64, time: u128)
    requires
        d.valid(),
    ensures
        ({
            let s = d.spoken(true, block, time);
            let edge = if d.input_run == 0 {
                Some(Edge { window: d.window, block, time })
            } else {
                d.input_edge
            };
            &&& s.input_edge == edge
            &&& d.input_run < d.attack_windows ==> s.input_run == d.input_run + 1
            &&& d.armed && d.input_run + 1 >= d.attack_windows ==> s.pending == edge && !s.armed
            &&& !d.armed || d.input_run + 1 < d.attack_windows ==> s.pending == d.pending && s.armed
                == d.armed
            &&& d.spoken(false, block, time).input_run == 0
            &&& d.spoken(false, block, time).input_edge is None
            &&& d.spoken(false, block, time).pending == d.pending
        }),
{
}

/// An answer that lasts long enough is measured from the first window of the utterance to its own first window,
/// exactly where it does not begin before it and comes within three seconds. A shorter one measures nothing, and
/// neither does one that nobody waits for.
pub proof fn law_answers_within_three_seconds_are_measured(d: OnsetLatency, block: u64, time: u128)
    requires
        d.valid(),
    ensures
        ({
            let out = if d.output_run == 0 {
                Edge { window: d.window, block, time }
            } else {
                d.output_edge->Some_0
            };
            let m = d.measured(true, block, time);
            &&& m is Some <==> {
                &&& d.output_run + 1 >= d.attack_windows
                &&& d.pending is Some
                &&& d.pending->Some_0.window <= out.window
                &&& d.pending->Some_0.time <= out.time
                &&& out.time - d.pending->Some_0.time <= 3 * 1_000_000_000
            }
            &&& m matches Some(x) ==> {
                &&& x.input_block == d.pending->Some_0.block && x.input_received
                    == d.pending->Some_0.time
                &&& x.output_block == out.block && x.output_written == out.time
            }
            &&& d.output_run + 1 >= d.attack_windows ==> d.answered(true, block, time).pending is None
                && !d.answered(true, block, time).armed
            &&& d.output_run + 1 < d.attack_windows ==> d.answered(true, block, time).pending == d.pending
                && d.answered(true, block, time).output_run == d.output_run + 1
            &&& d.measured(false, block, time) is None
            &&& d.answered(false, block, time).output_run == 0
            &&& d.answered(false, block, time).pending == d.pending
        }),
{
}

/// An utterance is given up once more than three seconds have passed since, and not before.
pub proof fn law_utterances_are_given_up(d: OnsetLatency, now: u128)
    ensures
        d.pending matches Some(e) ==> (d.expired(now).pending is None <==> now > e.time + 3 * 1_000_000_000),
        d.pending matches Some(e) ==> now <= e.time + 3 * 1_000_000_000 ==> d.expired(now) == d,
        d.pending is None ==> d.expired(now) == d,
        d.expired(now) == (OnsetLatency { pending: d.expired(now).pending, ..d }),
{
}

/// Listening to windows one after the other is listening to them all: the last measurement counts.
pub proof fn law_windows_are_heard_in_order(
    d: OnsetLatency,
    active: Seq<(bool, bool)>,
    more: Seq<(bool, bool)>,
    block: u64,
    seen: u128,
    ready: u128,
)
    ensures
        ({
            let (middle, first) = d.listened(active, active.len() as int, block, seen, ready);
            let (last, second) = middle.listened(more, more.len() as int, block, seen, ready);
            d.listened(active + more, (active + more).len() as int, block, seen, ready) == (
                last,
                if second is Some {
                    second
                } else {
                    first
                },
            )
        }),
    decreases more.len(),
{
    let (middle, first) = d.listened(active, active.len() as int, block, seen, ready);
    if more.len() == 0 {
        assert(active + more =~= active);
    } else {
        let rest = more.drop_last();
        law_windows_are_heard_in_order(d, active, rest, block, seen, ready);
        let all = active + more;
        let n = all.len() as int;
        lemma_heard_prefix(d, all, active + rest, n - 1, block, seen, ready);
        lemma_heard_prefix(middle, more, rest, more.len() - 1, block, seen, ready);
        assert(all[n - 1] == more[more.len() - 1]);
    }
}

proof fn lemma_heard_prefix(
    d: OnsetLatency,
    a: Seq<(bool, bool)>,
    b: Seq<(bool, bool)>,
    n: int,
    block: u64,
    seen: u128,
    ready: u128,
)
    requires
        0 <= n <= a.len(),
        n <= b.len(),
        forall|i: int| 0 <= i < n ==> #[trigger] a[i] == b[i],
    ensures
        d.listened(a, n, block, seen, ready) == d.listened(b, n, block, seen, ready),
    decreases n,
{
    if n > 0 {
        lemma_heard_prefix(d, a, b, n - 1, block, seen, ready);
    }
}

/// No sample is lost between the windows: those that wait and those that come fill whole windows, and the rest
/// waits.
pub proof fn law_samples_fill_windows(
    d: OnsetLatency,
    input: Seq<u32>,
    output: Seq<u32>,
    active: Seq<(bool, bool)>,
    seen: u128,
    ready: u128,
)
    requires
        d.valid(),
        input.len() == output.len(),
        seen <= ready,
        first_bad(input, output, 0) is None,
        d.next_block < u64::MAX,
        active.len() == d.windows_in(input.len() as int),
        d.window + d.windows_in(input.len() as int) <= u64::MAX,
        d.count + input.len() <= usize::MAX,
    ensures
        ({
            let after = d.observed(input, output, active, seen, ready).0;
            let n = d.windows_in(input.len() as int);
            &&& after.count < d.window_frames
            &&& n * d.window_frames + after.count == d.count + input.len()
            &&& after.window == d.window + n
            &&& after.next_block == d.next_block + 1
        }),
{
    let w = d.window_frames as int;
    let total = d.count + input.len();
    vstd::arithmetic::div_mod::lemma_fundamental_div_mod(total, w);
    let n = total / w;
    assert(w * n == n * w) by (nonlinear_arith);
    assert(n >= 0) by (nonlinear_arith)
        requires
            total == w * n + total % w,
            0 <= total % w < w,
            total >= 0,
            w >= 1,
    ;
    let next = OnsetLatency { next_block: (d.next_block + 1) as u64, ..d };
    lemma_windows_pass(next, active, n, d.next_block, seen, ready);
}

proof fn lemma_windows_pass(
    d: OnsetLatency,
    active: Seq<(bool, bool)>,
    n: int,
    block: u64,
    seen: u128,
    ready: u128,
)
    requires
        0 <= n,
        d.window + n <= u64::MAX,
    ensures
        ({
            let after = d.listened(active, n, block, seen, ready).0;
            after.window == d.window + n && after.next_block == d.next_block
        }),
    decreases n,
{
    if n > 0 {
        lemma_windows_pass(d, active, n - 1, block, seen, ready);
    }
}

/// Whether a detector is a fresh one for a stream of `sample_rate` samples in a second.
pub open spec fn detects(d: OnsetLatency, sample_rate: u32) -> bool {
    &&& d.valid()
    &&& d.window_frames == if sample_rate < 1000 {
        1
    } else {
        sample_rate as int / 1000
    }
    &&& d.quiet_windows == ceiling(sample_rate * 300, 1000 * d.window_frames)
    &&& d.attack_windows == if sample_rate == 0 {
        1
    } else {
        ceiling(sample_rate * 5, 1000 * d.window_frames)
    }
    &&& d.window == 0
    &&& d.next_block == 0
    &&& d == d.cancelled()
}

/// A window takes a millisecond, the quiet before an utterance at least 300 ms and an attack at least 5 ms, each
/// by less than a window more. A detector waits for nothing at first.
pub proof fn law_windows_take_a_millisecond(d: OnsetLatency, sample_rate: u32)
    requires
        detects(d, sample_rate),
        sample_rate >= 1000,
    ensures
        1000 * d.window_frames <= sample_rate < 1000 * (d.window_frames + 1),
        sample_rate * 300 <= 1000 * (d.quiet_windows * d.window_frames) < sample_rate * 300 + 1000
            * d.window_frames,
        sample_rate * 5 <= 1000 * (d.attack_windows * d.window_frames) < sample_rate * 5 + 1000
            * d.window_frames,
        !d.armed && d.pending is None && d.count == 0 && d.quiet == 0,
{
    let w = d.window_frames as int;
    law_windows_fill_the_time(sample_rate * 300, 1000 * w);
    law_windows_fill_the_time(sample_rate * 5, 1000 * w);
    let q = d.quiet_windows as int;
    let a = d.attack_windows as int;
    assert(q * (1000 * w) == 1000 * (q * w)) by (nonlinear_arith);
    assert(a * (1000 * w) == 1000 * (a * w)) by (nonlinear_arith);
}

} // verus!
