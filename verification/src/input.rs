//! The input on a continuous 16 kHz grid: past samples are kept so that every output sample sees the
//! taps of its filter, and nothing waits for samples to come. Samples are the bits of singles; the
//! filter itself is applied to the taps elsewhere.
use crate::bits;
use crate::bits::is_finite_single;
use vstd::prelude::*;
use vstd::string::*;

verus! {

broadcast use vstd::string::group_string_axioms;

/// The taps of one output sample: which row of the filter it takes, and the samples for the row's
/// coefficients, silent where there is none.
pub struct OutputTaps {
    pub phase: usize,
    pub samples: Vec<u32>,
}

/// The resampled input.
pub struct InputTimeline {
    source: usize,
    block: usize,
    /// The input samples that `phases` output samples take.
    grid: usize,
    phases: usize,
    /// The samples of the filter on either side.
    width: usize,
    delay_samples: usize,
    history_frames: usize,
    history: Vec<u32>,
    start: u64,
    total_input: u64,
    total_output: u64,
    stream: Ghost<Seq<u32>>,
}

/// The rates without their common divisor, and the reach of the filter.
pub open spec fn grid_of(source: usize) -> int {
    if source == 44100 {
        441
    } else {
        3
    }
}

pub open spec fn phases_of(source: usize) -> int {
    if source == 44100 {
        160
    } else {
        1
    }
}

pub open spec fn width_of(source: usize) -> int {
    if source == 44100 {
        17
    } else {
        19
    }
}

/// The input samples that are kept at least.
pub open spec fn history_of(source: usize) -> int {
    if source == 44100 {
        14994
    } else {
        1920
    }
}

/// The first of the samples that are kept at least, of `n` samples.
pub open spec fn needed_from(source: usize, n: int) -> int {
    if n > history_of(source) {
        n - history_of(source)
    } else {
        0
    }
}

/// The output samples of `n` input samples: rounded up.
pub open spec fn outputs_of(source: usize, n: int) -> int {
    (n * 16000 + source - 1) / source as int
}

/// The place in the stream of a tap of an output sample.
pub open spec fn tap_place(source: usize, delay: int, output: int, tap: int) -> int {
    output / phases_of(source) * grid_of(source) + tap - width_of(source) - delay
}

/// The sample of a tap.
pub open spec fn tap_sample(source: usize, delay: int, stream: Seq<u32>, output: int, tap: int) -> u32 {
    let place = tap_place(source, delay, output, tap);
    if 0 <= place < stream.len() {
        stream[place]
    } else {
        0
    }
}

/// The taps of an output sample.
pub open spec fn taps_of(source: usize, delay: int, stream: Seq<u32>, output: int) -> Seq<u32> {
    Seq::new(
        (2 * width_of(source) + grid_of(source)) as nat,
        |t: int| tap_sample(source, delay, stream, output, t),
    )
}

/// Whether a block is of the right size and finite.
pub open spec fn good_block(block: Seq<u32>, size: usize) -> bool {
    block.len() == size && forall|i: int|
        0 <= i < block.len() ==> bits::single_is_finite(#[trigger] block[i])
}

/// Why a block is not taken.
pub open spec fn refused(block: Seq<u32>, size: usize, total: int) -> Option<Seq<char>> {
    if !good_block(block, size) {
        Some("invalid input block"@)
    } else if total + block.len() > u64::MAX {
        Some("input timeline overflow"@)
    } else if (total + block.len()) * 16000 > u64::MAX {
        Some("output timeline overflow"@)
    } else {
        None
    }
}

impl View for InputTimeline {
    type V = Seq<u32>;

    /// Everything that was pushed since the start.
    closed spec fn view(&self) -> Seq<u32> {
        self.stream@
    }
}

impl InputTimeline {
    pub closed spec fn rate(&self) -> usize {
        self.source
    }

    pub closed spec fn size(&self) -> usize {
        self.block
    }

    pub closed spec fn delay(&self) -> int {
        self.delay_samples as int
    }

    pub closed spec fn emitted(&self) -> int {
        self.total_output as int
    }

    /// Whether what is kept is the end of the stream, from a place on the grid, and reaches back far
    /// enough for the next output sample.
    pub closed spec fn wf(&self) -> bool {
        &&& self.source == 44100 || self.source == 48000
        &&& 1 <= self.block <= 32768
        &&& self.grid == grid_of(self.source)
        &&& self.phases == phases_of(self.source)
        &&& self.width == width_of(self.source)
        &&& self.delay_samples == 0 || self.delay_samples == self.width
        &&& self.history_frames == history_of(self.source)
        &&& self.stream@.len() == self.total_input
        &&& self.total_input * 16000 <= u64::MAX
        &&& self.total_output == outputs_of(self.source, self.total_input as int)
        &&& self.start <= needed_from(self.source, self.total_input as int)
        &&& self.start as int % grid_of(self.source) == 0
        &&& self.history@ == self.stream@.skip(self.start as int)
        &&& self.total_input - self.start <= 20_000
        &&& self.start > 0 ==> self.start + self.width + self.delay_samples <= self.total_output
            as int / phases_of(self.source) * grid_of(self.source)
    }

    /// A timeline for blocks of `block` samples.
    pub fn new(source: usize, block: usize) -> (r: Result<InputTimeline, String>)
        ensures
            if (source == 44100 || source == 48000) && 1 <= block <= 32768 {
                &&& r matches Ok(t)
                &&& t.wf()
                &&& t.rate() == source
                &&& t.size() == block
                &&& t.delay() == 0
                &&& t.emitted() == 0
                &&& t@ == Seq::<u32>::empty()
            } else {
                r matches Err(e) && e@ == "unsupported input dimensions"@
            },
    {
        if !(source == 44100 || source == 48000) || block < 1 || block > 32768 {
            return Err("unsupported input dimensions".to_owned());
        }
        let wide: bool = source == 44100;
        let history: Vec<u32> = Vec::new();
        let stream: Ghost<Seq<u32>> = Ghost(Seq::empty());
        assert(history@ =~= stream@.skip(0));
        Ok(
            InputTimeline {
                source,
                block,
                grid: if wide {
                    441
                } else {
                    3
                },
                phases: if wide {
                    160
                } else {
                    1
                },
                width: if wide {
                    17
                } else {
                    19
                },
                delay_samples: 0,
                history_frames: if wide {
                    14994
                } else {
                    1920
                },
                history,
                start: 0,
                total_input: 0,
                total_output: 0,
                stream,
            },
        )
    }

    /// A timeline whose filter is shifted by its reach, so that the end of a block is not taken for
    /// silence. It adds that much delay, but waits for no further block and counts the same samples.
    pub fn new_delayed(source: usize, block: usize) -> (r: Result<InputTimeline, String>)
        ensures
            if (source == 44100 || source == 48000) && 1 <= block <= 32768 {
                &&& r matches Ok(t)
                &&& t.wf()
                &&& t.rate() == source
                &&& t.size() == block
                &&& t.delay() == width_of(source)
                &&& t.emitted() == 0
                &&& t@ == Seq::<u32>::empty()
            } else {
                r matches Err(e) && e@ == "unsupported input dimensions"@
            },
    {
        match InputTimeline::new(source, block) {
            Ok(t) => {
                let mut input = t;
                input.delay_samples = input.width;
                Ok(input)
            },
            Err(e) => Err(e),
        }
    }

    /// The output samples so far.
    pub fn total_output(&self) -> (r: u64)
        ensures
            r == self.emitted(),
    {
        self.total_output
    }

    /// Starts over.
    pub fn reset(&mut self)
        requires
            old(self).wf(),
        ensures
            final(self).wf(),
            final(self)@ == Seq::<u32>::empty(),
            final(self).rate() == old(self).rate(),
            final(self).size() == old(self).size(),
            final(self).delay() == old(self).delay(),
            final(self).emitted() == 0,
    {
        self.history = Vec::new();
        self.start = 0;
        self.total_input = 0;
        self.total_output = 0;
        self.stream = Ghost(Seq::empty());
        assert(self.history@ =~= self.stream@.skip(0));
    }

    fn is_good(&self, block: &[u32]) -> (r: bool)
        ensures
            r == good_block(block@, self.size()),
    {
        if block.len() != self.block {
            return false;
        }
        let mut i: usize = 0;
        while i < block.len()
            invariant
                i <= block@.len(),
                forall|j: int| 0 <= j < i ==> bits::single_is_finite(#[trigger] block@[j]),
            decreases block@.len() - i,
        {
            if !is_finite_single(block[i]) {
                return false;
            }
            i += 1;
        }
        true
    }

    /// The taps of one output sample, from what is kept.
    fn taps(&self, output: u64) -> (r: OutputTaps)
        requires
            self.source == 44100 || self.source == 48000,
            self.grid == grid_of(self.source),
            self.phases == phases_of(self.source),
            self.width == width_of(self.source),
            self.delay_samples == 0 || self.delay_samples == self.width,
            self.start as int % grid_of(self.source) == 0,
            self.start * 16000 <= u64::MAX,
            self.history@ == self.stream@.skip(self.start as int),
            self.start <= self.stream@.len(),
            self.stream@.len() - self.start <= 100_000,
            output < outputs_of(self.source, self.stream@.len() as int),
            self.start > 0 ==> self.start + self.width + self.delay_samples <= output as int
                / phases_of(self.source) * grid_of(self.source),
        ensures
            r.phase == output as int % phases_of(self.source),
            r.samples@ == taps_of(
                self.source,
                self.delay_samples as int,
                self.stream@,
                output as int,
            ),
    {
        let start_out: u64 = self.start * 16000 / self.source as u64;
        let ghost k = self.start as int / grid_of(self.source);
        let ghost g = grid_of(self.source);
        let ghost p = phases_of(self.source);
        proof {
            assert(self.start == k * g);
            if self.source == 44100 {
                assert(self.start * 16000 == (k * 160) * 44100);
                assert(start_out == k * 160);
            } else {
                assert(self.source == 48000);
                assert(self.start * 16000 == k * 48000);
                assert(start_out == (k * 48000) / 48000);
                assert(start_out == k);
            }
            assert(start_out == k * p);
            if self.source == 44100 {
                assert(output as int / 160 >= k);
            }
            assert(output >= start_out);
        }
        let position: usize = (output - start_out) as usize;
        let frame: usize = position / self.phases;
        let phase: usize = position % self.phases;
        proof {
            assert(output as int / p * g == self.start + frame * g && phase == output as int % p) by {
                if self.source == 44100 {
                    assert(output as int == (frame + k) * 160 + phase);
                }
            }
            assert(frame * g <= 110_000) by {
                if self.source == 44100 {
                } else {
                }
            }
        }
        let origin: usize = frame * self.grid;
        let offset: usize = self.width + self.delay_samples;
        let taps: usize = 2 * self.width + self.grid;
        let mut samples: Vec<u32> = Vec::new();
        let mut t: usize = 0;
        while t < taps
            invariant
                t <= taps == 2 * width_of(self.source) + grid_of(self.source),
                taps <= 1000,
                offset == width_of(self.source) + self.delay_samples,
                origin <= 110_000,
                output as int / phases_of(self.source) * grid_of(self.source) == self.start + origin,
                self.start > 0 ==> offset <= origin,
                self.history@ == self.stream@.skip(self.start as int),
                self.start <= self.stream@.len(),
                samples@ == taps_of(
                    self.source,
                    self.delay_samples as int,
                    self.stream@,
                    output as int,
                ).take(t as int),
            decreases taps - t,
        {
            let index: usize = origin + t;
            let sample: u32 = if index >= offset && index - offset < self.history.len() {
                self.history[index - offset]
            } else {
                0
            };
            samples.push(sample);
            t += 1;
            assert(samples@ =~= taps_of(
                self.source,
                self.delay_samples as int,
                self.stream@,
                output as int,
            ).take(t as int));
        }
        assert(samples@ =~= taps_of(
            self.source,
            self.delay_samples as int,
            self.stream@,
            output as int,
        ));
        OutputTaps { phase, samples }
    }

    /// Whether the newest samples were put behind the kept ones, and not counted yet.
    spec fn holding(&self, end: int) -> bool {
        &&& self.source == 44100 || self.source == 48000
        &&& 1 <= self.block <= 32768
        &&& self.grid == grid_of(self.source)
        &&& self.phases == phases_of(self.source)
        &&& self.width == width_of(self.source)
        &&& self.delay_samples == 0 || self.delay_samples == self.width
        &&& self.history_frames == history_of(self.source)
        &&& self.stream@.len() == end
        &&& end * 16000 <= u64::MAX
        &&& self.total_input <= end <= self.total_input + 32768
        &&& self.total_output == outputs_of(self.source, self.total_input as int)
        &&& self.start <= needed_from(self.source, self.total_input as int)
        &&& self.start as int % grid_of(self.source) == 0
        &&& self.history@ == self.stream@.skip(self.start as int)
        &&& self.total_input - self.start <= 20_000
        &&& self.start > 0 ==> self.start + self.width + self.delay_samples <= self.total_output
            as int / phases_of(self.source) * grid_of(self.source)
    }

    /// The taps of the output samples up to `end_out`.
    fn emit(&self, end_out: u64) -> (out: Vec<OutputTaps>)
        requires
            self.holding(self.stream@.len() as int),
            self.total_output <= end_out == outputs_of(self.source, self.stream@.len() as int),
        ensures
            out@.len() == end_out - self.total_output,
            forall|i: int|
                0 <= i < out@.len() ==> (#[trigger] out@[i]).phase == (self.total_output + i)
                    % phases_of(self.source) && out@[i].samples@ == taps_of(
                    self.source,
                    self.delay_samples as int,
                    self.stream@,
                    self.total_output + i,
                ),
    {
        let first: u64 = self.total_output;
        let mut out: Vec<OutputTaps> = Vec::new();
        let mut output: u64 = first;
        while output < end_out
            invariant
                first <= output <= end_out,
                first == self.total_output,
                end_out == outputs_of(self.source, self.stream@.len() as int),
                self.holding(self.stream@.len() as int),
                out@.len() == output - first,
                forall|i: int|
                    0 <= i < out@.len() ==> (#[trigger] out@[i]).phase == (first + i) % phases_of(
                        self.source,
                    ) && out@[i].samples@ == taps_of(
                        self.source,
                        self.delay_samples as int,
                        self.stream@,
                        first + i,
                    ),
            decreases end_out - output,
        {
            proof {
                if self.source == 44100 {
                    assert(first as int / 160 <= output as int / 160);
                }
            }
            let taps = self.taps(output);
            out.push(taps);
            output += 1;
        }
        out
    }

    /// Counts the newest samples and forgets those that no further output sample needs.
    fn forget(&mut self, end: u64, end_out: u64)
        requires
            old(self).holding(end as int),
            end_out == outputs_of(old(self).source, end as int),
        ensures
            final(self).wf(),
            final(self)@ == old(self)@,
            final(self).rate() == old(self).rate(),
            final(self).size() == old(self).size(),
            final(self).delay() == old(self).delay(),
            final(self).emitted() == end_out,
    {
        let history_frames: u64 = self.history_frames as u64;
        let grid: u64 = self.grid as u64;
        let wanted: u64 = if end > history_frames {
            end - history_frames
        } else {
            0
        };
        proof {
            vstd::arithmetic::div_mod::lemma_mod_decreases(wanted as nat, grid as nat);
        }
        let keep_start: u64 = wanted - wanted % grid;
        proof {
            lemma_keep(
                self.source,
                self.start as int,
                self.total_input as int,
                end as int,
                keep_start as int,
            );
            lemma_reach(self.source, self.delay_samples as int, end as int, keep_start as int);
        }
        let discard: usize = (keep_start - self.start) as usize;
        let ghost stream = self.stream@;
        let kept = kept_from(&self.history, discard);
        assert(kept@ =~= stream.skip(keep_start as int));
        self.history = kept;
        self.start = keep_start;
        self.total_input = end;
        self.total_output = end_out;
    }

    /// Takes a block and gives the taps of the output samples that it makes.
    pub fn push(&mut self, block: &[u32]) -> (r: Result<Vec<OutputTaps>, String>)
        requires
            old(self).wf(),
        ensures
            final(self).wf(),
            final(self).rate() == old(self).rate(),
            final(self).size() == old(self).size(),
            final(self).delay() == old(self).delay(),
            match refused(block@, old(self).size(), old(self)@.len() as int) {
                Some(text) => {
                    &&& r matches Err(e)
                    &&& e@ == text
                    &&& final(self)@ == old(self)@
                    &&& final(self).emitted() == old(self).emitted()
                },
                None => {
                    &&& r matches Ok(out)
                    &&& final(self)@ == old(self)@ + block@
                    &&& final(self).emitted() == outputs_of(
                        old(self).rate(),
                        final(self)@.len() as int,
                    )
                    &&& out@.len() == final(self).emitted() - old(self).emitted()
                    &&& forall|i: int|
                        0 <= i < out@.len() ==> (#[trigger] out@[i]).phase == (old(self).emitted()
                            + i) % phases_of(old(self).rate()) && out@[i].samples@ == taps_of(
                            old(self).rate(),
                            old(self).delay(),
                            final(self)@,
                            old(self).emitted() + i,
                        )
                },
            },
    {
        if !self.is_good(block) {
            return Err("invalid input block".to_owned());
        }
        let end: u64 = match self.total_input.checked_add(block.len() as u64) {
            Some(n) => n,
            None => {
                return Err("input timeline overflow".to_owned());
            },
        };
        let scaled: u64 = match end.checked_mul(16000) {
            Some(n) => n,
            None => {
                return Err("output timeline overflow".to_owned());
            },
        };
        let source: u64 = self.source as u64;
        let end_out: u64 = if scaled % source == 0 {
            scaled / source
        } else {
            scaled / source + 1
        };
        let ghost before = *self;
        proof {
            lemma_outputs(self.source, end as int);
            assert(end_out == outputs_of(self.source, end as int));
        }
        append(&mut self.history, block);
        let ghost stream = before.stream@ + block@;
        self.stream = Ghost(stream);
        assert(self.history@ =~= stream.skip(self.start as int));
        proof {
            lemma_outputs_grow(self.source, before.total_input as int, end as int);
        }
        let out = self.emit(end_out);
        self.forget(end, end_out);
        Ok(out)
    }
}

fn append(xs: &mut Vec<u32>, more: &[u32])
    ensures
        final(xs)@ == old(xs)@ + more@,
{
    let ghost before = xs@;
    let mut i: usize = 0;
    assert(xs@ =~= before + more@.take(0));
    while i < more.len()
        invariant
            i <= more@.len(),
            xs@ == before + more@.take(i as int),
        decreases more@.len() - i,
    {
        xs.push(more[i]);
        i += 1;
        assert(xs@ =~= before + more@.take(i as int));
    }
    assert(more@.take(more@.len() as int) =~= more@);
}

fn kept_from(xs: &Vec<u32>, from: usize) -> (r: Vec<u32>)
    requires
        from <= xs@.len(),
    ensures
        r@ == xs@.skip(from as int),
{
    let mut out: Vec<u32> = Vec::new();
    let n: usize = xs.len();
    let mut i: usize = from;
    while i < n
        invariant
            from <= i <= n == xs@.len(),
            out@ == xs@.subrange(from as int, i as int),
        decreases n - i,
    {
        out.push(xs[i]);
        i += 1;
        assert(out@ =~= xs@.subrange(from as int, i as int));
    }
    assert(out@ =~= xs@.skip(from as int));
    out
}

/// As many output samples were given as the input so far makes.
pub proof fn lemma_emitted(t: &InputTimeline)
    requires
        t.wf(),
    ensures
        t.emitted() == outputs_of(t.rate(), t@.len() as int),
{
}

proof fn lemma_outputs(source: usize, n: int)
    requires
        source == 44100 || source == 48000,
        0 <= n,
    ensures
        outputs_of(source, n) == if n * 16000 % source as int == 0 {
            n * 16000 / source as int
        } else {
            n * 16000 / source as int + 1
        },
        outputs_of(source, n) == (n * phases_of(source) + grid_of(source) - 1) / grid_of(source),
{
}

proof fn lemma_outputs_grow(source: usize, a: int, b: int)
    requires
        source == 44100 || source == 48000,
        0 <= a <= b,
    ensures
        outputs_of(source, a) <= outputs_of(source, b),
{
    vstd::arithmetic::div_mod::lemma_div_is_ordered(
        a * 16000 + source - 1,
        b * 16000 + source - 1,
        source as int,
    );
}

/// The kept part begins no earlier than before, and where it began later, the grid was reached.
proof fn lemma_keep(source: usize, start: int, total: int, end: int, keep: int)
    requires
        source == 44100 || source == 48000,
        0 <= start <= total <= end,
        start % grid_of(source) == 0,
        total - start <= 20_000,
        keep == needed_from(source, end) - needed_from(source, end) % grid_of(source),
        start <= needed_from(source, total),
    ensures
        start <= keep <= end,
        keep % grid_of(source) == 0,
        end - keep <= 20_000,
{
}

proof fn lemma_reach(source: usize, delay: int, end: int, keep: int)
    requires
        source == 44100 || source == 48000,
        0 <= delay <= width_of(source),
        0 <= keep,
        0 <= end,
        keep > 0 ==> keep <= end - history_of(source),
    ensures
        keep > 0 ==> keep + width_of(source) + delay <= outputs_of(source, end) / phases_of(source)
            * grid_of(source),
{
    lemma_outputs(source, end);
}

/// Whatever the blocks are, a delayed timeline has every tap of an output sample up to the sample's
/// own time: the taps are those of the whole stream, of which more may have come in since.
pub proof fn law_delayed_taps_do_not_depend_on_blocks(
    source: usize,
    stream: Seq<u32>,
    more: Seq<u32>,
    output: int,
    tap: int,
)
    requires
        source == 44100 || source == 48000,
        0 <= output < outputs_of(source, stream.len() as int),
        0 <= tap < 2 * width_of(source) + grid_of(source),
        tap_place(source, width_of(source), output, tap) * phases_of(source) <= output * grid_of(
            source,
        ),
    ensures
        tap_sample(source, width_of(source), stream, output, tap) == tap_sample(
            source,
            width_of(source),
            stream + more,
            output,
            tap,
        ),
{
    let place = tap_place(source, width_of(source), output, tap);
    let n = stream.len() as int;
    lemma_outputs(source, n);
    if source == 44100 {
        assert(output * 441 < n * 160);
        assert(place * 160 <= output * 441);
        assert(place < n);
    } else {
        assert(source == 48000);
        assert(phases_of(source) == 1 && grid_of(source) == 3);
        assert(output * 3 < n);
        assert(place * phases_of(source) == place) by (nonlinear_arith)
            requires
                phases_of(source) == 1,
        ;
        assert(output * grid_of(source) == output * 3) by (nonlinear_arith)
            requires
                grid_of(source) == 3,
        ;
        assert(place < n);
    }
}

/// The output samples are counted over the whole stream: however it is cut into blocks, `n` input
/// samples have made `n` at the rate of the output, rounded up, and more input never takes one back.
pub proof fn law_outputs_follow_the_input(source: usize, n: int, more: int)
    requires
        source == 44100 || source == 48000,
        0 <= n,
        0 <= more,
    ensures
        outputs_of(source, n) <= outputs_of(source, n + more),
        outputs_of(source, n) * source >= n * 16000,
        n > 0 ==> (outputs_of(source, n) - 1) * source < n * 16000,
        outputs_of(source, 0) == 0,
{
    lemma_outputs_grow(source, n, n + more);
}

/// The grid is that of the two rates: as many output samples as there are phases last as long as the input
/// samples of one step.
pub proof fn law_grid_is_the_ratio_of_the_rates(source: usize)
    requires
        source == 44100 || source == 48000,
    ensures
        phases_of(source) * source == grid_of(source) * 16000,
        phases_of(source) > 0,
        grid_of(source) > 0,
{
}

/// The filter is centred on the time of its output sample: behind as many taps as it reaches to either side
/// stand the samples of the step in which the output sample lies, in their order, and a delayed timeline takes
/// those that came as much earlier. There is silence before the stream and behind it.
pub proof fn law_taps_are_centred(
    source: usize,
    delay: int,
    stream: Seq<u32>,
    step: int,
    phase: int,
    i: int,
)
    requires
        source == 44100 || source == 48000,
        0 <= step,
        0 <= phase < phases_of(source),
        -width_of(source) <= i < grid_of(source) + width_of(source),
    ensures
        ({
            let output = step * phases_of(source) + phase;
            let place = step * grid_of(source) + i - delay;
            let taps = taps_of(source, delay, stream, output);
            &&& taps.len() == grid_of(source) + 2 * width_of(source)
            &&& 0 <= place < stream.len() ==> taps[width_of(source) + i] == stream[place]
            &&& place < 0 || place >= stream.len() ==> taps[width_of(source) + i] == 0
        }),
        width_of(source) == if source == 44100 { 17int } else { 19 },
{
    vstd::arithmetic::div_mod::lemma_fundamental_div_mod_converse(
        step * phases_of(source) + phase,
        phases_of(source),
        step,
        phase,
    );
}

/// A block is taken where it has the size of the timeline and every sample is finite, as long as the samples
/// can be counted; any other is refused.
pub proof fn law_good_blocks_are_taken(block: Seq<u32>, size: usize, total: int)
    requires
        0 <= total,
    ensures
        refused(block, size, total) is None <==> {
            &&& block.len() == size
            &&& forall|i: int|
                0 <= i < block.len() ==> (#[trigger] block[i]) as int / 0x80_0000 % 0x100 != 0xff
            &&& (total + block.len()) * 16000 <= u64::MAX
        },
{
    assert forall|i: int| 0 <= i < block.len() implies bits::single_is_finite(#[trigger] block[i]) == (
    block[i] as int / 0x80_0000 % 0x100 != 0xff) by {
        bits::law_highest_exponent_is_not_finite(0, block[i], 0);
    }
}

} // verus!
