//! The device's own input: blocks of the stream are resampled to 16 kHz where they are, and the host
//! only keeps count of the samples.
use crate::bits;
use crate::bits::is_finite_single;
use crate::generator;
use crate::generator::are_finite_singles;
use crate::plan::{
    put_dimension, put_port, put_table, range, shape0, shape1, shape2, Dimension, Elem, Port,
    PortValue, Table,
};
use crate::startup::Dims;
use crate::{dsp, plan, startup};
use vstd::prelude::*;
use vstd::string::*;

verus! {

broadcast use vstd::string::group_string_axioms;

/// The lengths of the resampling: from `rate` to 16 kHz `grid` samples become `phases`.
#[derive(Clone, Copy, PartialEq, Eq, Structural)]
pub struct Grid {
    pub rate: usize,
    pub grid: usize,
    pub phases: usize,
    /// The reach of the filter.
    pub width: usize,
}

impl Grid {
    /// Whether the two lengths are those of a device rate.
    pub open spec fn sound(self) -> bool {
        &&& self.grid * 16000 == self.phases * self.rate
        &&& self.rate == 44100 && self.phases == 160 && self.grid == 441 || self.rate == 48000
            && self.phases == 1 && self.grid == 3
        &&& self.width <= 1_000_000
    }

    /// The taps of the filter.
    pub open spec fn taps(self) -> int {
        2 * self.width + self.grid
    }

    /// The samples of the stream that are kept from block to block.
    pub open spec fn history(self) -> int {
        if 2 * self.width * self.grid < 1920 {
            1920
        } else {
            2 * self.width * self.grid
        }
    }

    /// The samples that come of the first `input` ones.
    pub open spec fn outputs(self, input: int) -> int {
        (input * 16000 + self.rate - 1) / self.rate as int
    }
}

/// What a device rate makes of a filter of the reach `width`.
pub fn grid(rate: usize, width: usize) -> (r: Grid)
    requires
        startup::device_rate(rate),
        width <= 1_000_000,
    ensures
        r.sound(),
        r.rate == rate,
        r.width == width,
{
    if rate == 44100 {
        Grid { rate, grid: 441, phases: 160, width }
    } else {
        Grid { rate, grid: 3, phases: 1, width }
    }
}

/// The grid of a device rate is the one of the resampling to 16 kHz.
pub proof fn law_grid_is_the_resampling(g: Grid)
    requires
        g.sound(),
    ensures
        startup::resample_size(g.rate, 16000, 1, g.width).0 == g.phases,
        startup::resample_size(g.rate, 16000, 1, g.width).1 == g.taps(),
{
    if g.rate == 44100 {
        assert(dsp::gcd_of(100, 0) == 100);
        assert(dsp::gcd_of(300, 100) == 100);
        assert(dsp::gcd_of(400, 300) == 100);
        assert(dsp::gcd_of(3900, 400) == 100);
        assert(dsp::gcd_of(12100, 3900) == 100);
        assert(dsp::gcd_of(16000, 12100) == 100);
        assert(dsp::gcd_of(44100, 16000) == 100);
    } else {
        assert(dsp::gcd_of(16000, 0) == 16000);
        assert(dsp::gcd_of(48000, 16000) == 16000);
    }
}

/// What the graph of the input is bound to.
pub struct PrePlan {
    pub dimensions: Vec<Dimension>,
    pub inputs: Vec<Port>,
    pub outputs: Vec<Port>,
    pub tables: Vec<Table>,
}

/// The largest number of samples that a block becomes.
pub open spec fn block_outputs(d: Dims, g: Grid) -> int {
    g.outputs(d.block as int)
}

pub open spec fn pre_dimensions(d: Dims, g: Grid) -> Seq<(Seq<char>, int)> {
    seq![
        ("block_samples"@, d.block as int),
        ("source_history_samples"@, g.history()),
        ("resample_phases"@, g.phases as int),
        ("resample_output_samples"@, block_outputs(d, g)),
        ("resample_taps"@, g.taps()),
        ("audio_buffer_samples"@, d.audio as int),
        ("context_samples"@, d.convert as int),
        ("pitch_input_samples"@, d.convert - d.silence_front),
    ]
}

pub open spec fn port(name: Seq<char>, elem: Elem, shape: Seq<usize>) -> PortValue {
    PortValue { name, elem, shape }
}

pub open spec fn pre_inputs(d: Dims, g: Grid) -> Seq<PortValue> {
    let n = block_outputs(d, g) as usize;
    let history = g.history() as usize;
    let taps = g.taps() as usize;
    let none = Seq::<usize>::empty();
    seq![
        port("block"@, Elem::Single, seq![d.block]),
        port("source_history"@, Elem::Single, seq![history]),
        port("audio_buffer"@, Elem::Half, seq![d.audio]),
        port("context_buffer"@, Elem::Half, seq![d.convert]),
        port("resample_kernel"@, Elem::Single, seq![g.phases, taps]),
        port("resample_sample_index"@, Elem::Long, seq![g.phases, n]),
        port("resample_tap_index"@, Elem::Long, seq![taps]),
        port("resample_kernel_index"@, Elem::Long, seq![g.phases, n]),
        port("phase"@, Elem::Long, none),
        port("origin"@, Elem::Long, none),
        port("valid"@, Elem::Long, none),
        port("source_limit"@, Elem::Long, none),
        port("source_history_commit_index"@, Elem::Long, seq![history]),
        port("audio_append_index"@, Elem::Long, seq![d.audio]),
        port("context_append_index"@, Elem::Long, seq![d.convert]),
        port("pitch_input_index"@, Elem::Long, seq![(d.convert - d.silence_front) as usize]),
        port("sensitivity"@, Elem::Single, none),
    ]
}

pub open spec fn pre_outputs(d: Dims, g: Grid) -> Seq<PortValue> {
    let none = Seq::<usize>::empty();
    seq![
        port("audio16"@, Elem::Half, seq![block_outputs(d, g) as usize]),
        port("next_source_history"@, Elem::Single, seq![g.history() as usize]),
        port("next_audio_buffer"@, Elem::Half, seq![d.audio]),
        port("next_context_buffer"@, Elem::Half, seq![d.convert]),
        port("cv_audio"@, Elem::Half, seq![1, d.convert]),
        port("pitch_audio"@, Elem::Half, seq![(d.convert - d.silence_front) as usize]),
        port("volume"@, Elem::Half, none),
        port("active"@, Elem::Flag, none),
    ]
}

/// For every phase that a block can begin in and every sample of it, where its filter begins.
pub open spec fn sample_table(g: Grid, n: int) -> Seq<i64> {
    Seq::new(
        (g.phases * n) as nat,
        |i: int| ((i / n + i % n) / g.phases as int * g.grid) as i64,
    )
}

/// For every phase that a block can begin in and every sample of it, the phase of its filter.
pub open spec fn kernel_table(g: Grid, n: int) -> Seq<i64> {
    Seq::new((g.phases * n) as nat, |i: int| ((i / n + i % n) % g.phases as int) as i64)
}

/// How far the taps lie from where the filter begins.
pub open spec fn tap_table(g: Grid) -> Seq<i64> {
    Seq::new(g.taps() as nat, |i: int| (i - g.width) as i64)
}

pub open spec fn pre_tables(d: Dims, g: Grid) -> Seq<(Seq<char>, Seq<i64>)> {
    let n = block_outputs(d, g);
    seq![
        ("resample_sample_index"@, sample_table(g, n)),
        ("resample_kernel_index"@, kernel_table(g, n)),
        ("resample_tap_index"@, tap_table(g)),
        ("source_limit"@, seq![(g.history() + d.block) as i64]),
        ("source_history_commit_index"@, plan::range_of(d.block as int, d.block + g.history())),
        ("audio_append_index"@, plan::range_of(0, d.audio as int)),
        ("context_append_index"@, plan::range_of(0, d.convert as int)),
        ("pitch_input_index"@, plan::range_of(d.silence_front as int, d.convert as int)),
    ]
}

/// Whether the lengths are those of a block that can be counted.
pub open spec fn countable(d: Dims) -> bool {
    &&& 128 <= d.block <= 32768
    &&& d.silence_front <= d.convert <= i64::MAX
    &&& d.audio <= i64::MAX
}

/// Whether the lengths are those of a block that can be counted.
pub fn is_countable(d: &Dims) -> (r: bool)
    ensures
        r == countable(*d),
{
    128 <= d.block && d.block <= 32768 && d.silence_front <= d.convert && d.convert as u64
        <= 0x7fff_ffff_ffff_ffff && d.audio as u64 <= 0x7fff_ffff_ffff_ffff
}

fn history_len(g: &Grid) -> (r: usize)
    requires
        g.sound(),
    ensures
        r == g.history(),
        r <= 900_000_000,
{
    proof {
        lemma_reach(*g);
    }
    let reach: usize = 2 * g.width * g.grid;
    if reach < 1920 {
        1920
    } else {
        reach
    }
}

proof fn lemma_reach(g: Grid)
    requires
        g.sound(),
    ensures
        0 <= 2 * g.width * g.grid <= 882_000_000,
{
    assert(0 <= 2 * g.width * g.grid <= 882_000_000) by (nonlinear_arith)
        requires
            0 <= g.width <= 1_000_000,
            0 <= g.grid <= 441,
    ;
}

fn output_len(block: usize, g: &Grid) -> (r: usize)
    requires
        128 <= block <= 32768,
        g.sound(),
    ensures
        r == g.outputs(block as int),
        1 <= r <= 12_000,
{
    let r: usize = (block * 16000 + g.rate - 1) / g.rate;
    proof {
        if g.rate == 44100 {
            assert(r as int == (block * 16000 + 44099) / 44100);
        } else {
            assert(r as int == (block * 16000 + 47999) / 48000);
        }
    }
    r
}

/// What the graph of the input is bound to.
pub fn pre_plan(d: &Dims, g: &Grid) -> (r: PrePlan)
    requires
        countable(*d),
        g.sound(),
    ensures
        plan::dimensions(r.dimensions@) == pre_dimensions(*d, *g),
        plan::ports(r.inputs@) == pre_inputs(*d, *g),
        plan::ports(r.outputs@) == pre_outputs(*d, *g),
        plan::tables(r.tables@) == pre_tables(*d, *g),
{
    let history: usize = history_len(g);
    let n: usize = output_len(d.block, g);
    PrePlan {
        dimensions: pre_sizes(d, g, history, n),
        inputs: pre_input_ports(d, g, history, n),
        outputs: pre_output_ports(d, g, history, n),
        tables: pre_index_tables(d, g, history, n),
    }
}

fn pre_sizes(d: &Dims, g: &Grid, history: usize, n: usize) -> (r: Vec<Dimension>)
    requires
        countable(*d),
        g.sound(),
        history == g.history(),
        n == block_outputs(*d, *g),
    ensures
        plan::dimensions(r@) == pre_dimensions(*d, *g),
{
    let mut out: Vec<Dimension> = Vec::new();
    assert(plan::dimensions(out@) =~= seq![]);
    put_dimension(&mut out, "block_samples", d.block);
    put_dimension(&mut out, "source_history_samples", history);
    put_dimension(&mut out, "resample_phases", g.phases);
    put_dimension(&mut out, "resample_output_samples", n);
    put_dimension(&mut out, "resample_taps", 2 * g.width + g.grid);
    put_dimension(&mut out, "audio_buffer_samples", d.audio);
    put_dimension(&mut out, "context_samples", d.convert);
    put_dimension(&mut out, "pitch_input_samples", d.convert - d.silence_front);
    out
}

fn pre_input_ports(d: &Dims, g: &Grid, history: usize, n: usize) -> (r: Vec<Port>)
    requires
        countable(*d),
        g.sound(),
        history == g.history(),
        n == block_outputs(*d, *g),
    ensures
        plan::ports(r@) == pre_inputs(*d, *g),
{
    let taps: usize = 2 * g.width + g.grid;
    let mut out: Vec<Port> = Vec::new();
    assert(plan::ports(out@) =~= seq![]);
    put_port(&mut out, "block", Elem::Single, shape1(d.block));
    put_port(&mut out, "source_history", Elem::Single, shape1(history));
    put_port(&mut out, "audio_buffer", Elem::Half, shape1(d.audio));
    put_port(&mut out, "context_buffer", Elem::Half, shape1(d.convert));
    put_port(&mut out, "resample_kernel", Elem::Single, shape2(g.phases, taps));
    put_port(&mut out, "resample_sample_index", Elem::Long, shape2(g.phases, n));
    put_port(&mut out, "resample_tap_index", Elem::Long, shape1(taps));
    put_port(&mut out, "resample_kernel_index", Elem::Long, shape2(g.phases, n));
    put_port(&mut out, "phase", Elem::Long, shape0());
    put_port(&mut out, "origin", Elem::Long, shape0());
    put_port(&mut out, "valid", Elem::Long, shape0());
    put_port(&mut out, "source_limit", Elem::Long, shape0());
    put_port(&mut out, "source_history_commit_index", Elem::Long, shape1(history));
    put_port(&mut out, "audio_append_index", Elem::Long, shape1(d.audio));
    put_port(&mut out, "context_append_index", Elem::Long, shape1(d.convert));
    put_port(&mut out, "pitch_input_index", Elem::Long, shape1(d.convert - d.silence_front));
    put_port(&mut out, "sensitivity", Elem::Single, shape0());
    out
}

fn pre_output_ports(d: &Dims, g: &Grid, history: usize, n: usize) -> (r: Vec<Port>)
    requires
        countable(*d),
        g.sound(),
        history == g.history(),
        n == block_outputs(*d, *g),
    ensures
        plan::ports(r@) == pre_outputs(*d, *g),
{
    let mut out: Vec<Port> = Vec::new();
    assert(plan::ports(out@) =~= seq![]);
    put_port(&mut out, "audio16", Elem::Half, shape1(n));
    put_port(&mut out, "next_source_history", Elem::Single, shape1(history));
    put_port(&mut out, "next_audio_buffer", Elem::Half, shape1(d.audio));
    put_port(&mut out, "next_context_buffer", Elem::Half, shape1(d.convert));
    put_port(&mut out, "cv_audio", Elem::Half, shape2(1, d.convert));
    put_port(&mut out, "pitch_audio", Elem::Half, shape1(d.convert - d.silence_front));
    put_port(&mut out, "volume", Elem::Half, shape0());
    put_port(&mut out, "active", Elem::Flag, shape0());
    out
}

fn pre_index_tables(d: &Dims, g: &Grid, history: usize, n: usize) -> (r: Vec<Table>)
    requires
        countable(*d),
        g.sound(),
        history == g.history(),
        history <= 900_000_000,
        n == block_outputs(*d, *g),
        1 <= n <= 12_000,
    ensures
        plan::tables(r@) == pre_tables(*d, *g),
{
    let (samples, kernels) = phase_tables(g, n);
    let limit: Vec<i64> = vec![(history + d.block) as i64];
    assert(limit@ =~= seq![(g.history() + d.block) as i64]);
    let mut out: Vec<Table> = Vec::new();
    assert(plan::tables(out@) =~= seq![]);
    put_table(&mut out, "resample_sample_index", samples);
    put_table(&mut out, "resample_kernel_index", kernels);
    put_table(&mut out, "resample_tap_index", tap_distances(g));
    put_table(&mut out, "source_limit", limit);
    put_table(&mut out, "source_history_commit_index", range(d.block, d.block + history));
    put_table(&mut out, "audio_append_index", range(0, d.audio));
    put_table(&mut out, "context_append_index", range(0, d.convert));
    put_table(&mut out, "pitch_input_index", range(d.silence_front, d.convert));
    out
}

fn tap_distances(g: &Grid) -> (r: Vec<i64>)
    requires
        g.sound(),
    ensures
        r@ == tap_table(*g),
{
    let taps: usize = 2 * g.width + g.grid;
    let mut out: Vec<i64> = Vec::new();
    let mut i: usize = 0;
    while i < taps
        invariant
            i <= taps == g.taps(),
            g.sound(),
            out@ == tap_table(*g).take(i as int),
        decreases taps - i,
    {
        out.push(i as i64 - g.width as i64);
        i += 1;
        assert(out@ =~= tap_table(*g).take(i as int));
    }
    assert(tap_table(*g).take(taps as int) =~= tap_table(*g));
    out
}

fn phase_tables(g: &Grid, n: usize) -> (r: (Vec<i64>, Vec<i64>))
    requires
        g.sound(),
        1 <= n <= 12_000,
    ensures
        r.0@ == sample_table(*g, n as int),
        r.1@ == kernel_table(*g, n as int),
{
    let ghost want_samples = sample_table(*g, n as int);
    let ghost want_kernels = kernel_table(*g, n as int);
    let mut samples: Vec<i64> = Vec::new();
    let mut kernels: Vec<i64> = Vec::new();
    let mut p: usize = 0;
    while p < g.phases
        invariant
            p <= g.phases,
            g.sound(),
            1 <= n <= 12_000,
            want_samples == sample_table(*g, n as int),
            want_kernels == kernel_table(*g, n as int),
            samples@ == want_samples.take(p * n),
            kernels@ == want_kernels.take(p * n),
        decreases g.phases - p,
    {
        proof {
            assert((p + 1) * n <= g.phases * n) by (nonlinear_arith)
                requires
                    p + 1 <= g.phases,
            ;
            assert((p + 1) * n == p * n + n) by (nonlinear_arith);
            assert(0 <= p * n) by (nonlinear_arith);
        }
        let mut i: usize = 0;
        while i < n
            invariant
                i <= n,
                p < g.phases,
                g.sound(),
                1 <= n <= 12_000,
                0 <= p * n,
                p * n + n <= g.phases * n,
                want_samples == sample_table(*g, n as int),
                want_kernels == kernel_table(*g, n as int),
                samples@ == want_samples.take(p * n + i),
                kernels@ == want_kernels.take(p * n + i),
            decreases n - i,
        {
            let at: usize = p + i;
            proof {
                let k = p * n + i;
                vstd::arithmetic::div_mod::lemma_fundamental_div_mod_converse(
                    k,
                    n as int,
                    p as int,
                    i as int,
                );
                assert(at as int / g.phases as int <= at);
                let q = at as int / g.phases as int;
                assert(0 <= q * g.grid <= 12_160 * 441) by (nonlinear_arith)
                    requires
                        0 <= q <= 12_160,
                        0 <= g.grid <= 441,
                ;
            }
            let sample: i64 = (at / g.phases * g.grid) as i64;
            let kernel: i64 = (at % g.phases) as i64;
            assert(want_samples[p * n + i] == sample);
            assert(want_kernels[p * n + i] == kernel);
            samples.push(sample);
            kernels.push(kernel);
            i += 1;
            assert(samples@ =~= want_samples.take(p * n + i));
            assert(kernels@ =~= want_kernels.take(p * n + i));
        }
        p += 1;
    }
    assert(want_samples.take(g.phases * n) =~= want_samples);
    assert(want_kernels.take(g.phases * n) =~= want_kernels);
    (samples, kernels)
}

/// Where the next block stands in the stream.
#[derive(Clone, Copy, PartialEq, Eq, Structural)]
pub struct Position {
    /// The phase of its first sample.
    pub phase: i64,
    /// Where the filter of its first phase begins, counted from the start of the history.
    pub origin: i64,
    /// The samples that it makes.
    pub valid: usize,
}

/// The count of the samples of a stream.
pub struct GpuPre {
    block: usize,
    grid: Grid,
    input: u64,
    output: u64,
    valid: usize,
    failed: bool,
}

/// What a [`GpuPre`] counts.
pub struct PreValue {
    pub input: int,
    /// The samples of the last block.
    pub valid: int,
    pub failed: bool,
}

impl View for GpuPre {
    type V = PreValue;

    closed spec fn view(&self) -> PreValue {
        PreValue { input: self.input as int, valid: self.valid as int, failed: self.failed }
    }
}

/// Where a block stands that follows `input` samples.
pub open spec fn position(g: Grid, input: int, block: int) -> Position {
    let before = g.outputs(input);
    Position {
        phase: (before % g.phases as int) as i64,
        origin: (before / g.phases as int * g.grid - input + g.history()) as i64,
        valid: (g.outputs(input + block) - before) as usize,
    }
}

/// Why a block cannot be counted.
pub open spec fn count_fault(input: int, block: int) -> Option<Seq<char>> {
    if input + block > u64::MAX {
        Some("input counter overflow"@)
    } else if (input + block) * 16000 > u64::MAX {
        Some("output counter overflow"@)
    } else {
        None
    }
}

/// Whether a block can be taken.
pub open spec fn block_good(samples: Seq<u32>, block: int, sensitivity: u32) -> bool {
    samples.len() == block && generator::all_finite_singles(samples) && bits::single_is_finite(
        sensitivity,
    )
}

impl GpuPre {
    pub closed spec fn block_len(&self) -> int {
        self.block as int
    }

    pub closed spec fn grid(&self) -> Grid {
        self.grid
    }

    /// The counts go together.
    pub closed spec fn sound(&self) -> bool {
        &&& self.grid.sound()
        &&& 128 <= self.block <= 32768
        &&& self.input * 16000 <= u64::MAX
        &&& self.output == self.grid.outputs(self.input as int)
        &&& self.valid <= self.grid.outputs(self.block as int)
    }

    /// The start of a stream.
    pub fn new(block: usize, grid: Grid) -> (r: GpuPre)
        requires
            128 <= block <= 32768,
            grid.sound(),
        ensures
            r.sound(),
            r.block_len() == block,
            r.grid() == grid,
            r@ == (PreValue { input: 0, valid: 0, failed: false }),
    {
        proof {
            assert(grid.outputs(0) == 0) by {
                vstd::arithmetic::div_mod::lemma_basic_div(grid.rate - 1, grid.rate as int);
            }
            lemma_outputs_grow(grid, 0, block as int);
        }
        GpuPre { block, grid, input: 0, output: 0, valid: 0, failed: false }
    }

    /// Whether a block can be taken.
    pub fn check(&self, samples: &[u32], sensitivity: u32) -> (r: Result<(), String>)
        ensures
            if !self@.failed && block_good(samples@, self.block_len(), sensitivity) {
                r is Ok
            } else {
                r matches Err(e) && e@ == "invalid GPU pre input or failed state"@
            },
    {
        if self.failed || samples.len() != self.block || !are_finite_singles(samples)
            || !is_finite_single(sensitivity) {
            return Err("invalid GPU pre input or failed state".to_owned());
        }
        Ok(())
    }

    /// Where the next block stands. One that cannot be counted ends the stream.
    pub fn enqueue(&mut self) -> (r: Result<Position, String>)
        requires
            old(self).sound(),
        ensures
            final(self).sound(),
            final(self).block_len() == old(self).block_len(),
            final(self).grid() == old(self).grid(),
            placed(old(self)@, old(self).grid(), old(self).block_len(), final(self)@, r),
    {
        let end: u64 = match self.input.checked_add(self.block as u64) {
            Some(n) => n,
            None => {
                self.failed = true;
                return Err("input counter overflow".to_owned());
            },
        };
        let scaled: u64 = match end.checked_mul(16000) {
            Some(n) => n,
            None => {
                self.failed = true;
                return Err("output counter overflow".to_owned());
            },
        };
        let end_out: u64 = rounded_up(scaled, &self.grid);
        proof {
            lemma_outputs_grow(self.grid, self.input as int, self.block as int);
            lemma_position(self.grid, self.input as int);
            assert(self.grid.outputs(end as int) == end_out);
        }
        let valid: usize = (end_out - self.output) as usize;
        let phases: u64 = self.grid.phases as u64;
        let phase: i64 = (self.output % phases) as i64;
        let start: i64 = (self.output / phases * self.grid.grid as u64) as i64;
        let history: usize = history_len(&self.grid);
        let origin: i64 = start - self.input as i64 + history as i64;
        Ok(Position { phase, origin, valid })
    }

    /// The block went through, or the device failed.
    pub fn commit(&mut self, done: Result<(), String>) -> (r: Result<usize, String>)
        requires
            old(self).sound(),
            count_fault(old(self)@.input, old(self).block_len()) is None,
        ensures
            final(self).sound(),
            final(self).block_len() == old(self).block_len(),
            final(self).grid() == old(self).grid(),
            commits(old(self)@, old(self).grid(), old(self).block_len(), done, final(self)@, r),
    {
        match done {
            Ok(_) => {
                let end: u64 = self.input + self.block as u64;
                let end_out: u64 = rounded_up(end * 16000, &self.grid);
                proof {
                    lemma_outputs_grow(self.grid, self.input as int, self.block as int);
                }
                self.valid = (end_out - self.output) as usize;
                self.input = end;
                self.output = end_out;
                Ok(self.valid)
            },
            Err(e) => {
                self.failed = true;
                Err(e)
            },
        }
    }

    /// The samples that were made since the start of the stream.
    pub fn total_output(&self) -> (r: u64)
        requires
            self.sound(),
        ensures
            r == self.grid().outputs(self@.input),
    {
        self.output
    }

    /// The samples of the last block, out of the buffer that they are at the start of.
    pub fn audio16(&self, buffer: &[u16]) -> (r: Vec<u16>)
        requires
            self.sound(),
            buffer@.len() == self.grid().outputs(self.block_len()),
        ensures
            r@ == buffer@.take(self@.valid),
    {
        let mut out: Vec<u16> = Vec::new();
        let mut i: usize = 0;
        while i < self.valid
            invariant
                i <= self.valid <= buffer@.len(),
                out@ == buffer@.take(i as int),
            decreases self.valid - i,
        {
            out.push(buffer[i]);
            i += 1;
            assert(out@ =~= buffer@.take(i as int));
        }
        out
    }

    /// Whether the stream can be started over.
    pub fn check_reset(&self) -> (r: Result<(), String>)
        ensures
            if self@.failed {
                r matches Err(e) && e@ == "failed GPU pre must be recreated"@
            } else {
                r is Ok
            },
    {
        if self.failed {
            return Err("failed GPU pre must be recreated".to_owned());
        }
        Ok(())
    }

    /// The buffers were emptied: the stream starts over.
    pub fn reset(&mut self)
        requires
            old(self).sound(),
        ensures
            final(self).sound(),
            final(self).block_len() == old(self).block_len(),
            final(self).grid() == old(self).grid(),
            final(self)@ == (PreValue { input: 0, valid: 0, ..old(self)@ }),
    {
        proof {
            assert(self.grid.outputs(0) == 0) by {
                vstd::arithmetic::div_mod::lemma_basic_div(self.grid.rate - 1, self.grid.rate as int);
            }
            lemma_outputs_grow(self.grid, 0, self.block as int);
        }
        self.input = 0;
        self.output = 0;
        self.valid = 0;
    }
}

fn rounded_up(scaled: u64, g: &Grid) -> (r: u64)
    requires
        g.sound(),
    ensures
        r == (scaled + g.rate - 1) / g.rate as int,
{
    proof {
        if g.rate == 44100 {
            assert((scaled + g.rate - 1) / g.rate as int == (scaled + 44099) / 44100);
        } else {
            assert((scaled + g.rate - 1) / g.rate as int == (scaled + 47999) / 48000);
        }
    }
    if g.rate == 44100 {
        if scaled % 44100 == 0 {
            scaled / 44100
        } else {
            scaled / 44100 + 1
        }
    } else if scaled % 48000 == 0 {
        scaled / 48000
    } else {
        scaled / 48000 + 1
    }
}

/// A block makes some samples, and no more than the buffer holds.
proof fn lemma_outputs_grow(g: Grid, input: int, block: int)
    requires
        g.sound(),
        0 <= input,
        0 <= block,
    ensures
        0 <= g.outputs(input) <= g.outputs(input + block),
        g.outputs(input + block) - g.outputs(input) <= g.outputs(block),
{
    if g.rate == 44100 {
        assert(g.outputs(input) == (input * 16000 + 44099) / 44100);
        assert(g.outputs(block) == (block * 16000 + 44099) / 44100);
        assert(g.outputs(input + block) == ((input + block) * 16000 + 44099) / 44100);
    } else {
        assert(g.outputs(input) == (input * 16000 + 47999) / 48000);
        assert(g.outputs(block) == (block * 16000 + 47999) / 48000);
        assert(g.outputs(input + block) == ((input + block) * 16000 + 47999) / 48000);
    }
}

/// The filter of the next block begins less than a grid before the block.
proof fn lemma_position(g: Grid, input: int)
    requires
        g.sound(),
        0 <= input,
    ensures
        input - g.grid < g.outputs(input) / g.phases as int * g.grid < input + g.grid + 1,
        0 <= g.outputs(input) % (g.phases as int) < g.phases,
        0 <= g.outputs(input) / g.phases as int,
{
    let out = g.outputs(input);
    if g.rate == 44100 {
        assert(out == (input * 16000 + 44099) / 44100);
        assert(out / g.phases as int == out / 160);
        assert(out / g.phases as int * g.grid == out / 160 * 441);
    } else {
        assert(out == (input * 16000 + 47999) / 48000);
        assert(out / g.phases as int == out);
        assert(out / g.phases as int * g.grid == out * 3);
    }
}

/// The history reaches back as far as the filters do: the first tap of a block lies in it.
pub proof fn law_history_reaches_back(g: Grid, input: int, block: int)
    requires
        g.sound(),
        g.width >= 1,
        0 <= input,
        input * 16000 <= u64::MAX,
    ensures
        position(g, input, block).origin - g.width >= 0,
{
    lemma_position(g, input);
    lemma_reach(g);
    assert(g.width + g.grid <= 2 * g.width * g.grid + 1) by (nonlinear_arith)
        requires
            g.width >= 1,
            g.grid >= 1,
    ;
}

/// What a stream makes depends on how much of it came in, not on how it was cut into blocks: a block
/// adds what is missing to the samples of all input.
pub proof fn law_outputs_follow_the_input(g: Grid, input: int, block: int)
    requires
        g.sound(),
        0 <= input,
        0 <= block,
        g.outputs(input + block) <= usize::MAX,
    ensures
        g.outputs(input) + position(g, input, block).valid == g.outputs(input + block),
        position(g, input, block).valid <= g.outputs(block),
{
    lemma_outputs_grow(g, input, block);
}

/// As many samples come out at 16 kHz as the time of those that went in takes, the last one begun counted.
pub proof fn law_outputs_take_the_time_of_the_input(g: Grid, input: int)
    requires
        g.sound(),
        0 <= input,
    ensures
        16000 * input <= g.outputs(input) * g.rate < 16000 * input + g.rate,
        g.taps() == g.grid + 2 * g.width,
        g.history() >= 1920 && g.history() >= 2 * g.width * g.grid,
        g.history() == 1920 || g.history() == 2 * g.width * g.grid,
{
    if g.rate == 44100 {
        assert(g.outputs(input) == (input * 16000 + 44099) / 44100);
    } else {
        assert(g.outputs(input) == (input * 16000 + 47999) / 48000);
    }
}

/// The next sample stands where the samples before it end: phase and origin are its place in the stream.
pub proof fn law_position_is_the_place_in_the_stream(g: Grid, input: int, block: int)
    requires
        g.sound(),
        0 <= input,
        input * 16000 <= u64::MAX,
    ensures
        ({
            let p = position(g, input, block);
            &&& 0 <= p.phase < g.phases
            &&& (p.origin - g.history() + input) * g.phases + p.phase * g.grid == g.outputs(input)
                * g.grid
        }),
{
    lemma_position(g, input);
    lemma_reach(g);
    let out = g.outputs(input);
    let q = out / g.phases as int;
    let r = out % g.phases as int;
    let ph = g.phases as int;
    let gr = g.grid as int;
    assert(out == ph * q + r) by {
        vstd::arithmetic::div_mod::lemma_fundamental_div_mod(out, ph);
    }
    assert((q * gr) * ph + r * gr == (ph * q + r) * gr) by (nonlinear_arith);
}

/// The output `j` behind phase `p` is the filter of the phase that both add up to, moved on by whole grids.
pub proof fn law_tables_move_on_by_grids(g: Grid, n: int, p: int, j: int)
    requires
        g.sound(),
        0 <= p < g.phases,
        0 <= j < n <= 0x10_0000,
    ensures
        ({
            let at = p * n + j;
            let start = sample_table(g, n)[at] as int;
            let filter = kernel_table(g, n)[at] as int;
            &&& sample_table(g, n).len() == g.phases * n && kernel_table(g, n).len() == g.phases * n
            &&& 0 <= at < g.phases * n
            &&& 0 <= filter < g.phases
            &&& start % g.grid as int == 0
            &&& start / g.grid as int * g.phases + filter == p + j
        }),
{
    let at = p * n + j;
    let ph = g.phases as int;
    vstd::arithmetic::div_mod::lemma_fundamental_div_mod_converse(at, n, p, j);
    assert(0 <= at < ph * n) by (nonlinear_arith)
        requires
            0 <= p <= ph - 1,
            0 <= j < n,
            at == p * n + j,
    ;
    let q = (p + j) / ph;
    vstd::arithmetic::div_mod::lemma_fundamental_div_mod(p + j, ph);
    assert(0 <= q <= 0x20_0000) by (nonlinear_arith)
        requires
            p + j == ph * q + (p + j) % ph,
            0 <= (p + j) % ph < ph,
            0 <= p + j <= 0x20_0000,
            ph >= 1,
    ;
    let gr = g.grid as int;
    assert(0 <= q * gr <= 0x20_0000 * 441) by (nonlinear_arith)
        requires
            0 <= q <= 0x20_0000,
            0 <= gr <= 441,
    ;
    vstd::arithmetic::div_mod::lemma_fundamental_div_mod_converse(q * gr, gr, q, 0);
    assert(q * ph == ph * q) by (nonlinear_arith);
}

/// The taps reach `width` samples before the first of the grid and as many behind the last.
pub proof fn law_taps_reach_both_ways(g: Grid, i: int)
    requires
        g.sound(),
        0 <= i < g.taps(),
    ensures
        tap_table(g).len() == g.taps(),
        tap_table(g)[0] == -g.width,
        tap_table(g)[g.taps() - 1] == g.grid - 1 + g.width,
        i > 0 ==> tap_table(g)[i] == tap_table(g)[i - 1] + 1,
{
}

/// Every table has as many entries as its port; the history keeps the last samples of those that were there
/// and came, and the pitch begins behind the silence.
pub proof fn law_tables_fill_their_ports(d: Dims, g: Grid, i: int)
    requires
        g.sound(),
        countable(d),
    ensures
        ({
            let t = pre_tables(d, g);
            let p = pre_inputs(d, g);
            let n = block_outputs(d, g);
            &&& t.len() == 8
            &&& t[0].0 == p[5].name && t[0].1.len() == p[5].shape[0] * n && p[5].shape == seq![
                g.phases,
                n as usize,
            ]
            &&& t[1].0 == p[7].name && t[1].1.len() == p[7].shape[0] * n && p[7].shape == p[5].shape
            &&& t[2].0 == p[6].name && p[6].shape == seq![t[2].1.len() as usize]
            &&& t[3].0 == p[11].name && t[3].1.len() == 1 && t[3].1[0] == g.history() + d.block
            &&& t[4].0 == p[12].name && p[12].shape == seq![t[4].1.len() as usize] && p[1].shape
                == p[12].shape
            &&& t[5].0 == p[13].name && p[13].shape == seq![t[5].1.len() as usize] && p[2].shape
                == p[13].shape
            &&& t[6].0 == p[14].name && p[14].shape == seq![t[6].1.len() as usize] && p[3].shape
                == p[14].shape
            &&& t[7].0 == p[15].name && p[15].shape == seq![t[7].1.len() as usize]
            &&& t[4].1.len() == g.history() && t[7].1.len() == d.convert - d.silence_front
            &&& 0 <= i < g.history() ==> t[4].1[i] == d.block + i
            &&& 0 <= i < d.audio ==> t[5].1[i] == i
            &&& 0 <= i < d.convert ==> t[6].1[i] == i
            &&& d.silence_front <= i < d.convert ==> t[7].1[i - d.silence_front] == i
        }),
{
    lemma_reach(g);
    lemma_outputs_grow(g, 0, d.block as int);
}

/// The dimensions of the graph are those of its ports.
pub proof fn law_dimensions_are_those_of_the_ports(d: Dims, g: Grid)
    requires
        g.sound(),
        countable(d),
    ensures
        ({
            let e = pre_dimensions(d, g);
            let p = pre_inputs(d, g);
            let o = pre_outputs(d, g);
            &&& e.len() == 8
            &&& e[0].0 == "block_samples"@ && p[0].shape == seq![e[0].1 as usize] && e[0].1 == d.block
            &&& e[1].0 == "source_history_samples"@ && p[1].shape == seq![e[1].1 as usize] && o[1].shape
                == p[1].shape
            &&& e[2].0 == "resample_phases"@ && e[4].0 == "resample_taps"@ && p[4].shape == seq![
                e[2].1 as usize,
                e[4].1 as usize,
            ] && e[2].1 == g.phases
            &&& e[3].0 == "resample_output_samples"@ && o[0].shape == seq![e[3].1 as usize]
            &&& e[5].0 == "audio_buffer_samples"@ && p[2].shape == seq![e[5].1 as usize] && o[2].shape
                == p[2].shape && e[5].1 == d.audio
            &&& e[6].0 == "context_samples"@ && p[3].shape == seq![e[6].1 as usize] && o[3].shape
                == p[3].shape && o[4].shape == seq![1, e[6].1 as usize] && e[6].1 == d.convert
            &&& e[7].0 == "pitch_input_samples"@ && o[5].shape == seq![e[7].1 as usize] && e[7].1
                + d.silence_front == d.convert
        }),
{
}

/// A block is taken where it has the samples of a block, all of them and the threshold finite, and where no
/// counter would pass its end.
pub proof fn law_good_blocks_are_taken(samples: Seq<u32>, block: int, sensitivity: u32, input: int)
    ensures
        block_good(samples, block, sensitivity) <==> {
            &&& samples.len() == block
            &&& sensitivity % 0x8000_0000 < 0x7f80_0000
            &&& forall|i: int| 0 <= i < samples.len() ==> #[trigger] samples[i] % 0x8000_0000 < 0x7f80_0000
        },
        0 <= input + block ==> (count_fault(input, block) is None <==> (input + block) * 16000
            < 0x1_0000_0000_0000_0000),
{
}

/// Whether the next block is placed so: behind all that came in, where that can be counted.
pub open spec fn placed(
    before: PreValue,
    g: Grid,
    block: int,
    after: PreValue,
    r: Result<Position, String>,
) -> bool {
    match count_fault(before.input, block) {
        Some(text) => {
            &&& r matches Err(e)
            &&& e@ == text
            &&& after == (PreValue { failed: true, ..before })
        },
        None => {
            &&& r == Ok::<Position, String>(position(g, before.input, block))
            &&& after == before
        },
    }
}

/// Whether a block that went through, or a device that failed, is counted so.
pub open spec fn commits(
    before: PreValue,
    g: Grid,
    block: int,
    done: Result<(), String>,
    after: PreValue,
    r: Result<usize, String>,
) -> bool {
    match done {
        Ok(_) => {
            let at = position(g, before.input, block);
            &&& r == Ok::<usize, String>(at.valid)
            &&& after == (PreValue { input: before.input + block, valid: at.valid as int, ..before })
        },
        Err(e) => {
            &&& r == Err::<usize, String>(e)
            &&& after == (PreValue { failed: true, ..before })
        },
    }
}

/// Every block that goes through is counted once, and makes the samples by which the stream grows at 16 kHz; a
/// failure counts nothing and ends the stream.
pub proof fn law_blocks_are_counted_once(
    before: PreValue,
    g: Grid,
    block: int,
    done: Result<(), String>,
    after: PreValue,
    r: Result<usize, String>,
)
    requires
        g.sound(),
        0 <= before.input,
        0 <= block,
        g.outputs(before.input + block) <= usize::MAX,
        commits(before, g, block, done, after, r),
    ensures
        r is Ok == done is Ok,
        r is Ok ==> after.input == before.input + block && after.failed == before.failed,
        r is Ok ==> g.outputs(before.input) + r->Ok_0 == g.outputs(after.input) && after.valid == r->Ok_0,
        r is Err ==> after.failed && after.input == before.input && after.valid == before.valid,
{
    lemma_outputs_grow(g, before.input, block);
}

/// A block is placed without being counted; one that cannot be counted any more ends the stream.
pub proof fn law_placing_counts_nothing(
    before: PreValue,
    g: Grid,
    block: int,
    after: PreValue,
    r: Result<Position, String>,
)
    requires
        0 <= before.input,
        0 <= block,
        placed(before, g, block, after, r),
    ensures
        r is Ok <==> (before.input + block) * 16000 < 0x1_0000_0000_0000_0000,
        r is Ok ==> after == before,
        r is Err ==> after.failed && after.input == before.input,
{
}

} // verus!
