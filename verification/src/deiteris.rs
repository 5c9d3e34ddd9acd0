//! The path with context: what its graphs are given at the start, and which blocks go through.
use crate::gpu_pipeline;
use crate::gpu_pre;
use crate::mel::WINDOW;
use crate::plan::{put_port, put_table, range, shape0, shape1, shape2, Elem, Port, PortValue, Table};
use crate::startup::{Dims, ResampleInputs};
use crate::tg::{check_live, copied, is_good_output};
use crate::{plan, tg};
use vstd::prelude::*;
use vstd::string::*;

verus! {

broadcast use vstd::string::group_string_axioms;

/// The files of the path.
pub struct Assets {
    pub pre: String,
    pub prepare: String,
    pub post: String,
    pub contentvec: String,
    pub rmvpe: String,
    pub template: String,
    pub model_rate: usize,
}

/// What a graph is given at the start.
pub struct InputPlan {
    pub inputs: Vec<Port>,
    pub tables: Vec<Table>,
}

/// The reaches of the three filters, and how many samples the last two make.
#[derive(Clone, Copy, PartialEq, Eq, Structural)]
pub struct Filters {
    pub sample_rate: usize,
    pub input_width: usize,
    pub input_samples: usize,
    pub formant_width: usize,
    pub model_samples: usize,
    pub output_width: usize,
    pub output_samples: usize,
}

/// The windows of the spectrogram in a row: 1024 samples from every 160th one on.
pub open spec fn stft_table(frames: int) -> Seq<i64> {
    Seq::new(
        (frames * WINDOW) as nat,
        |i: int| (i / WINDOW as int * 160 + i % WINDOW as int) as i64,
    )
}

pub open spec fn one(n: int) -> Seq<i64> {
    seq![n as i64]
}

pub open spec fn pre_inputs(d: Dims, shape: (int, int, int)) -> Seq<PortValue> {
    seq![
        gpu_pre::port("audio_buffer"@, Elem::Half, seq![d.audio]),
        gpu_pre::port("convert_buffer"@, Elem::Half, seq![d.convert]),
        gpu_pre::port("kernel"@, Elem::Single, seq![shape.0 as usize, shape.1 as usize]),
        gpu_pre::port("indices"@, Elem::Long, seq![shape.2 as usize, shape.1 as usize]),
        gpu_pre::port("output_length"@, Elem::Long, seq![1]),
        gpu_pre::port("silence_front"@, Elem::Long, seq![1]),
        gpu_pre::port(
            "stft_indices"@,
            Elem::Long,
            seq![gpu_pipeline::raw_frames(d) as usize, WINDOW],
        ),
    ]
}

pub open spec fn prepare_inputs(d: Dims) -> Seq<PortValue> {
    seq![
        gpu_pre::port("pitch_buffer"@, Elem::Long, seq![(d.features + 1) as usize]),
        gpu_pre::port("pitchf_buffer"@, Elem::Half, seq![(d.features + 1) as usize]),
        gpu_pre::port("feature_length"@, Elem::Long, seq![1]),
        gpu_pre::port("formant_ratio"@, Elem::Single, Seq::<usize>::empty()),
    ]
}

pub open spec fn post_inputs(d: Dims, formant: (int, int, int), output: (int, int, int)) -> Seq<PortValue> {
    seq![
        gpu_pre::port("formant_kernel"@, Elem::Single, seq![formant.0 as usize, formant.1 as usize]),
        gpu_pre::port("formant_indices"@, Elem::Long, seq![formant.2 as usize, formant.1 as usize]),
        gpu_pre::port("formant_output_length"@, Elem::Long, seq![1]),
        gpu_pre::port("output_kernel"@, Elem::Single, seq![output.0 as usize, output.1 as usize]),
        gpu_pre::port("output_indices"@, Elem::Long, seq![output.2 as usize, output.1 as usize]),
        gpu_pre::port("output_length"@, Elem::Long, seq![1]),
        gpu_pre::port("fade_in"@, Elem::Single, seq![d.crossfade]),
        gpu_pre::port("fade_out"@, Elem::Single, seq![d.crossfade]),
        gpu_pre::port("sola_buffer"@, Elem::Single, seq![d.crossfade]),
        gpu_pre::port("gather_range"@, Elem::Long, seq![(d.block + d.crossfade) as usize]),
        gpu_pre::port("search_end"@, Elem::Long, seq![1]),
        gpu_pre::port("block_length"@, Elem::Long, seq![1]),
    ]
}

/// Whether the lengths can be counted throughout.
pub open spec fn countable(d: Dims, f: Filters) -> bool {
    &&& d.block <= 0x1000_0000
    &&& d.crossfade <= 0x1000_0000
    &&& d.search <= 0x1000_0000
    &&& d.silence_front <= d.convert <= 0x1000_0000
    &&& d.features <= 0x1000_0000
    &&& f.input_width <= 10_000_000
    &&& f.formant_width <= 10_000_000
    &&& f.output_width <= 10_000_000
    &&& f.input_samples <= i64::MAX
    &&& f.output_samples <= i64::MAX
}

/// Whether the lengths can be counted throughout.
pub fn is_countable(d: &Dims, f: &Filters) -> (r: bool)
    ensures
        r == countable(*d, *f),
{
    d.block <= 0x1000_0000 && d.crossfade <= 0x1000_0000 && d.search <= 0x1000_0000
        && d.silence_front <= d.convert && d.convert <= 0x1000_0000 && d.features <= 0x1000_0000
        && f.input_width <= 10_000_000 && f.formant_width <= 10_000_000 && f.output_width
        <= 10_000_000 && f.input_samples as u64 <= 0x7fff_ffff_ffff_ffff && f.output_samples as u64
        <= 0x7fff_ffff_ffff_ffff
}

/// Why there is nothing for the graphs to start with.
pub open spec fn plan_fault(d: Dims, rate: usize, f: Filters) -> Option<Seq<char>> {
    let frame = (rate as int / 100) as usize;
    let input = gpu_pipeline::resample_fault(f.sample_rate, 16000, d.block, f.input_width);
    let formant = gpu_pipeline::resample_fault(d.scaled_window, frame, d.trimmed, f.formant_width);
    let output = gpu_pipeline::resample_fault(rate, f.sample_rate, f.model_samples, f.output_width);
    if input is Some {
        input
    } else if formant is Some {
        formant
    } else if output is Some {
        output
    } else if !(1 < d.crossfade <= 192000) {
        Some("invalid crossfade length"@)
    } else {
        None
    }
}

/// What the graphs are given at the start.
pub struct EnginePlan {
    pub pre: InputPlan,
    pub prepare: InputPlan,
    pub post: InputPlan,
}

pub open spec fn shape_of(t: ResampleInputs) -> (int, int, int) {
    (t.phases as int, t.taps as int, t.frames as int)
}

fn single(n: usize) -> (r: Vec<i64>)
    requires
        n <= i64::MAX,
    ensures
        r@ == one(n as int),
{
    let r: Vec<i64> = vec![n as i64];
    assert(r@ =~= one(n as int));
    r
}

fn stft_indices(frames: usize) -> (r: Vec<i64>)
    requires
        frames <= 0x20_0000,
    ensures
        r@ == stft_table(frames as int),
{
    let ghost want = stft_table(frames as int);
    let count: usize = frames * WINDOW;
    let mut out: Vec<i64> = Vec::new();
    let mut i: usize = 0;
    while i < count
        invariant
            i <= count == frames * WINDOW,
            frames <= 0x20_0000,
            want == stft_table(frames as int),
            out@ == want.take(i as int),
        decreases count - i,
    {
        out.push((i / WINDOW * 160 + i % WINDOW) as i64);
        i += 1;
        assert(out@ =~= want.take(i as int));
    }
    assert(want.take(count as int) =~= want);
    out
}

fn plan_pre(d: &Dims, f: &Filters, t: ResampleInputs) -> (r: InputPlan)
    requires
        countable(*d, *f),
    ensures
        plan::ports(r.inputs@) == pre_inputs(*d, shape_of(t)),
        plan::tables(r.tables@) == seq![
            ("indices"@, t.indices@),
            ("output_length"@, one(f.input_samples as int)),
            ("silence_front"@, one(d.silence_front as int)),
            ("stft_indices"@, stft_table(gpu_pipeline::raw_frames(*d))),
        ],
{
    let frames: usize = (d.convert - d.silence_front) / 160 + 1;
    let mut inputs: Vec<Port> = Vec::new();
    assert(plan::ports(inputs@) =~= seq![]);
    put_port(&mut inputs, "audio_buffer", Elem::Half, shape1(d.audio));
    put_port(&mut inputs, "convert_buffer", Elem::Half, shape1(d.convert));
    put_port(&mut inputs, "kernel", Elem::Single, shape2(t.phases, t.taps));
    put_port(&mut inputs, "indices", Elem::Long, shape2(t.frames, t.taps));
    put_port(&mut inputs, "output_length", Elem::Long, shape1(1));
    put_port(&mut inputs, "silence_front", Elem::Long, shape1(1));
    put_port(&mut inputs, "stft_indices", Elem::Long, shape2(frames, WINDOW));
    let mut tables: Vec<Table> = Vec::new();
    assert(plan::tables(tables@) =~= seq![]);
    put_table(&mut tables, "indices", t.indices);
    put_table(&mut tables, "output_length", single(f.input_samples));
    put_table(&mut tables, "silence_front", single(d.silence_front));
    put_table(&mut tables, "stft_indices", stft_indices(frames));
    InputPlan { inputs, tables }
}

fn plan_prepare(d: &Dims) -> (r: InputPlan)
    requires
        d.features <= 0x1000_0000,
    ensures
        plan::ports(r.inputs@) == prepare_inputs(*d),
        plan::tables(r.tables@) == seq![("feature_length"@, one(d.features as int))],
{
    let mut inputs: Vec<Port> = Vec::new();
    assert(plan::ports(inputs@) =~= seq![]);
    put_port(&mut inputs, "pitch_buffer", Elem::Long, shape1(d.features + 1));
    put_port(&mut inputs, "pitchf_buffer", Elem::Half, shape1(d.features + 1));
    put_port(&mut inputs, "feature_length", Elem::Long, shape1(1));
    put_port(&mut inputs, "formant_ratio", Elem::Single, shape0());
    let mut tables: Vec<Table> = Vec::new();
    assert(plan::tables(tables@) =~= seq![]);
    put_table(&mut tables, "feature_length", single(d.features));
    InputPlan { inputs, tables }
}

fn plan_post(d: &Dims, f: &Filters, formant: ResampleInputs, output: ResampleInputs) -> (r: InputPlan)
    requires
        countable(*d, *f),
        f.model_samples <= 1_000_000,
    ensures
        plan::ports(r.inputs@) == post_inputs(*d, shape_of(formant), shape_of(output)),
        plan::tables(r.tables@) == seq![
            ("formant_indices"@, formant.indices@),
            ("formant_output_length"@, one(f.model_samples as int)),
            ("output_indices"@, output.indices@),
            ("output_length"@, one(f.output_samples as int)),
            ("gather_range"@, plan::range_of(0, d.block + d.crossfade)),
            ("search_end"@, one(d.crossfade + d.search)),
            ("block_length"@, one(d.block as int)),
        ],
{
    let mut inputs: Vec<Port> = Vec::new();
    assert(plan::ports(inputs@) =~= seq![]);
    put_port(&mut inputs, "formant_kernel", Elem::Single, shape2(formant.phases, formant.taps));
    put_port(&mut inputs, "formant_indices", Elem::Long, shape2(formant.frames, formant.taps));
    put_port(&mut inputs, "formant_output_length", Elem::Long, shape1(1));
    put_port(&mut inputs, "output_kernel", Elem::Single, shape2(output.phases, output.taps));
    put_port(&mut inputs, "output_indices", Elem::Long, shape2(output.frames, output.taps));
    put_port(&mut inputs, "output_length", Elem::Long, shape1(1));
    put_port(&mut inputs, "fade_in", Elem::Single, shape1(d.crossfade));
    put_port(&mut inputs, "fade_out", Elem::Single, shape1(d.crossfade));
    put_port(&mut inputs, "sola_buffer", Elem::Single, shape1(d.crossfade));
    put_port(&mut inputs, "gather_range", Elem::Long, shape1(d.block + d.crossfade));
    put_port(&mut inputs, "search_end", Elem::Long, shape1(1));
    put_port(&mut inputs, "block_length", Elem::Long, shape1(1));
    let mut tables: Vec<Table> = Vec::new();
    assert(plan::tables(tables@) =~= seq![]);
    put_table(&mut tables, "formant_indices", formant.indices);
    put_table(&mut tables, "formant_output_length", single(f.model_samples));
    put_table(&mut tables, "output_indices", output.indices);
    put_table(&mut tables, "output_length", single(f.output_samples));
    put_table(&mut tables, "gather_range", range(0, d.block + d.crossfade));
    put_table(&mut tables, "search_end", single(d.crossfade + d.search));
    put_table(&mut tables, "block_length", single(d.block));
    InputPlan { inputs, tables }
}

/// The tables of the first graph.
pub open spec fn pre_tables(d: Dims, f: Filters) -> Seq<(Seq<char>, Seq<i64>)> {
    seq![
        ("indices"@, gpu_pipeline::resample_table(f.sample_rate, 16000, d.block, f.input_width)),
        ("output_length"@, one(f.input_samples as int)),
        ("silence_front"@, one(d.silence_front as int)),
        ("stft_indices"@, stft_table(gpu_pipeline::raw_frames(d))),
    ]
}

/// The tables of the last graph.
pub open spec fn post_tables(d: Dims, rate: usize, f: Filters) -> Seq<(Seq<char>, Seq<i64>)> {
    let frame = (rate as int / 100) as usize;
    seq![
        (
            "formant_indices"@,
            gpu_pipeline::resample_table(d.scaled_window, frame, d.trimmed, f.formant_width),
        ),
        ("formant_output_length"@, one(f.model_samples as int)),
        (
            "output_indices"@,
            gpu_pipeline::resample_table(rate, f.sample_rate, f.model_samples, f.output_width),
        ),
        ("output_length"@, one(f.output_samples as int)),
        ("gather_range"@, plan::range_of(0, d.block + d.crossfade)),
        ("search_end"@, one(d.crossfade + d.search)),
        ("block_length"@, one(d.block as int)),
    ]
}

impl EnginePlan {
    /// What the graphs are given at the start, or why there is nothing.
    pub fn new(d: &Dims, rate: usize, f: &Filters) -> (r: Result<EnginePlan, String>)
        requires
            countable(*d, *f),
        ensures
            match plan_fault(*d, rate, *f) {
                Some(text) => r matches Err(e) && e@ == text,
                None => {
                    let frame = (rate as int / 100) as usize;
                    &&& r matches Ok(p)
                    &&& plan::ports(p.pre.inputs@) == pre_inputs(
                        *d,
                        gpu_pipeline::resample_shape(f.sample_rate, 16000, d.block, f.input_width),
                    )
                    &&& plan::tables(p.pre.tables@) == pre_tables(*d, *f)
                    &&& plan::ports(p.prepare.inputs@) == prepare_inputs(*d)
                    &&& plan::tables(p.prepare.tables@) == seq![
                        ("feature_length"@, one(d.features as int)),
                    ]
                    &&& plan::ports(p.post.inputs@) == post_inputs(
                        *d,
                        gpu_pipeline::resample_shape(
                            d.scaled_window,
                            frame,
                            d.trimmed,
                            f.formant_width,
                        ),
                        gpu_pipeline::resample_shape(
                            rate,
                            f.sample_rate,
                            f.model_samples,
                            f.output_width,
                        ),
                    )
                    &&& plan::tables(p.post.tables@) == post_tables(*d, rate, *f)
                },
            },
    {
        let input = match ResampleInputs::new(f.sample_rate, 16000, d.block, f.input_width) {
            Ok(t) => t,
            Err(e) => {
                return Err(e);
            },
        };
        let formant = match ResampleInputs::new(d.scaled_window, rate / 100, d.trimmed, f.formant_width) {
            Ok(t) => t,
            Err(e) => {
                return Err(e);
            },
        };
        let output = match ResampleInputs::new(rate, f.sample_rate, f.model_samples, f.output_width) {
            Ok(t) => t,
            Err(e) => {
                return Err(e);
            },
        };
        if d.crossfade <= 1 || d.crossfade > 192000 {
            return Err("invalid crossfade length".to_owned());
        }
        let pre = plan_pre(d, f, input);
        let prepare = plan_prepare(d);
        let post = plan_post(d, f, formant, output);
        Ok(EnginePlan { pre, prepare, post })
    }
}

/// The windows of the spectrogram lie in the signal with 512 samples mirrored at either end.
pub proof fn law_windows_stay_inside(d: Dims, i: int)
    requires
        d.silence_front <= d.convert <= 0x1000_0000,
        0 <= i < gpu_pipeline::raw_frames(d) * WINDOW,
    ensures
        0 <= stft_table(gpu_pipeline::raw_frames(d))[i] < d.convert - d.silence_front + 1024,
{
}

/// Why a block does not go through.
pub open spec fn block_fault(failed: bool, samples: Seq<u32>, block: int, pitch: u64, threshold_db: u64) -> Option<
    Seq<char>,
> {
    if failed {
        Some("engine previously failed; recreate before continuing"@)
    } else if !tg::good_output(samples, block) {
        Some("invalid audio block"@)
    } else if !tg::live_parameters(pitch, threshold_db) {
        Some("invalid live parameters"@)
    } else {
        None
    }
}

/// The state of the path between blocks.
pub struct Engine {
    dims: Dims,
    output: Vec<u32>,
    failed: bool,
}

/// What an [`Engine`] holds.
pub struct EngineValue {
    pub output: Seq<u32>,
    pub failed: bool,
}

impl View for Engine {
    type V = EngineValue;

    closed spec fn view(&self) -> EngineValue {
        EngineValue { output: self.output@, failed: self.failed }
    }
}

/// Whether a block that came to `output` ends with `r`, and the state goes from `before` to `after`: the
/// block where it is finite and whole, and otherwise a failure.
pub open spec fn finishes(
    before: EngineValue,
    output: Result<Vec<u32>, String>,
    block: int,
    after: EngineValue,
    r: Result<Vec<u32>, String>,
) -> bool {
    match output {
        Ok(values) => if tg::good_output(values@, block) {
            &&& r == Ok::<Vec<u32>, String>(values)
            &&& after == (EngineValue { output: values@, ..before })
        } else {
            &&& r matches Err(e)
            &&& e@ == "invalid converted output"@
            &&& after == (EngineValue { failed: true, ..before })
        },
        Err(e) => {
            &&& r == Err::<Vec<u32>, String>(e)
            &&& after == (EngineValue { failed: true, ..before })
        },
    }
}

impl Engine {
    pub closed spec fn dims(&self) -> Dims {
        self.dims
    }

    /// A path before anything came in.
    pub fn new(d: &Dims) -> (r: Engine)
        ensures
            r.dims() == *d,
            r@ == (EngineValue { output: Seq::empty(), failed: false }),
    {
        Engine { dims: *d, output: Vec::new(), failed: false }
    }

    /// The samples of a block.
    pub fn block_frames(&self) -> (r: usize)
        ensures
            r == self.dims().block,
    {
        self.dims.block
    }

    /// The lengths of the path.
    pub fn dimensions(&self) -> (r: &Dims)
        ensures
            *r == self.dims(),
    {
        &self.dims
    }

    /// Whether a block can be processed.
    pub fn process(&self, samples: &[u32], pitch: u64, threshold_db: u64) -> (r: Result<(), String>)
        ensures
            match block_fault(self@.failed, samples@, self.dims().block as int, pitch, threshold_db) {
                Some(text) => r matches Err(e) && e@ == text,
                None => r is Ok,
            },
    {
        if self.failed {
            return Err("engine previously failed; recreate before continuing".to_owned());
        }
        if !is_good_output(samples, self.dims.block) {
            return Err("invalid audio block".to_owned());
        }
        check_live(pitch, threshold_db)
    }

    /// The block came out of the last graph, or a graph failed. A failure, and a result that is not a
    /// finite block, end the path.
    pub fn finish(&mut self, output: Result<Vec<u32>, String>) -> (r: Result<Vec<u32>, String>)
        ensures
            final(self).dims() == old(self).dims(),
            finishes(old(self)@, output, old(self).dims().block as int, final(self)@, r),
    {
        match output {
            Ok(values) => {
                if !is_good_output(values.as_slice(), self.dims.block) {
                    self.failed = true;
                    return Err("invalid converted output".to_owned());
                }
                self.output = copied(values.as_slice());
                Ok(values)
            },
            Err(e) => {
                self.failed = true;
                Err(e)
            },
        }
    }

    /// Processes a block. `stages` runs the graphs and shows their values to an observer; it is called for a
    /// block that goes through, and for no other.
    pub fn process_observed<F: FnOnce() -> Result<Vec<u32>, String>>(
        &mut self,
        samples: &[u32],
        pitch: u64,
        threshold_db: u64,
        stages: F,
    ) -> (r: Result<Vec<u32>, String>)
        requires
            block_fault(
                old(self)@.failed,
                samples@,
                old(self).dims().block as int,
                pitch,
                threshold_db,
            ) is None ==> call_requires(stages, ()),
        ensures
            final(self).dims() == old(self).dims(),
            match block_fault(
                old(self)@.failed,
                samples@,
                old(self).dims().block as int,
                pitch,
                threshold_db,
            ) {
                Some(text) => {
                    &&& r matches Err(e)
                    &&& e@ == text
                    &&& *final(self) == *old(self)
                },
                None => exists|output: Result<Vec<u32>, String>|
                    {
                        &&& #[trigger] call_ensures(stages, (), output)
                        &&& finishes(
                            old(self)@,
                            output,
                            old(self).dims().block as int,
                            final(self)@,
                            r,
                        )
                    },
            },
    {
        match self.process(samples, pitch, threshold_db) {
            Ok(()) => {
                let output = stages();
                self.finish(output)
            },
            Err(e) => Err(e),
        }
    }
}

/// A failure of a stage or of its observer, or a result that is no finite block, ends the path: whatever block
/// comes next is refused, so that no stage runs and no observer is called for it, and the refusal keeps the
/// path as it is.
pub proof fn law_failed_path_stays_failed(
    before: EngineValue,
    output: Result<Vec<u32>, String>,
    block: int,
    after: EngineValue,
    r: Result<Vec<u32>, String>,
    samples: Seq<u32>,
    pitch: u64,
    threshold_db: u64,
)
    requires
        finishes(before, output, block, after, r),
        r is Err,
    ensures
        after.failed,
        block_fault(after.failed, samples, block, pitch, threshold_db) == Some(
            "engine previously failed; recreate before continuing"@,
        ),
{
}

/// The row of a frame holds 1024 places in a row, 160 behind those of the frame before.
pub proof fn law_rows_overlap(frames: int, frame: int, n: int)
    requires
        0 <= frame < frames <= 0x10_0000,
        0 <= n < 1024,
    ensures
        stft_table(frames).len() == 1024 * frames,
        stft_table(frames)[1024 * frame + n] == 160 * frame + n,
{
    let i = 1024 * frame + n;
    assert(i / 1024 == frame && i % 1024 == n);
    assert(0 <= i < frames * 1024);
}

/// The graphs are given what they are made for: tables as long as their ports, and the lengths by themselves.
/// The search ends the search behind the crossfade, and the block is followed by what the next one is joined to.
pub proof fn law_tables_fill_their_ports(
    d: Dims,
    rate: usize,
    f: Filters,
    shape: (int, int, int),
    formant: (int, int, int),
    output: (int, int, int),
    i: int,
)
    requires
        countable(d, f),
        f.model_samples <= i64::MAX,
    ensures
        ({
            let p = pre_inputs(d, shape);
            let t = pre_tables(d, f);
            let q = post_inputs(d, formant, output);
            let u = post_tables(d, rate, f);
            &&& t[0].0 == p[3].name && t[1].0 == p[4].name && t[2].0 == p[5].name && t[3].0 == p[6].name
            &&& t[1].1 == seq![f.input_samples as i64] && p[4].shape == seq![1usize]
            &&& t[2].1 == seq![d.silence_front as i64] && p[5].shape == seq![1usize]
            &&& t[3].1.len() == p[6].shape[0] * p[6].shape[1] && p[6].shape.len() == 2
            &&& p[0].shape == seq![d.audio] && p[1].shape == seq![d.convert]
            &&& u[0].0 == q[1].name && u[1].0 == q[2].name && u[2].0 == q[4].name && u[3].0 == q[5].name
            &&& u[4].0 == q[9].name && u[5].0 == q[10].name && u[6].0 == q[11].name
            &&& u[1].1 == seq![f.model_samples as i64] && u[3].1 == seq![f.output_samples as i64]
            &&& q[9].shape == seq![u[4].1.len() as usize] && u[4].1.len() == d.block + d.crossfade
            &&& 0 <= i < d.block + d.crossfade ==> u[4].1[i] == i
            &&& u[5].1.len() == 1 && u[5].1[0] == d.crossfade + d.search
            &&& u[6].1.len() == 1 && u[6].1[0] == d.block
            &&& q[6].shape == seq![d.crossfade] && q[7].shape == q[6].shape && q[8].shape == q[6].shape
        }),
{
    let frames = gpu_pipeline::raw_frames(d);
    assert(0 <= frames <= 0x1000_0000);
}

/// The caches of the pitch hold one frame more than the features.
pub proof fn law_caches_hold_one_more(d: Dims)
    requires
        d.features <= 0x1000_0000,
    ensures
        ({
            let p = prepare_inputs(d);
            &&& p.len() == 4
            &&& p[0].name == "pitch_buffer"@ && p[0].elem is Long && p[0].shape.len() == 1
                && p[0].shape[0] == d.features + 1
            &&& p[1].name == "pitchf_buffer"@ && p[1].elem is Half && p[1].shape == p[0].shape
            &&& p[2].name == "feature_length"@ && p[2].elem is Long && p[2].shape == seq![1usize]
            &&& p[3].name == "formant_ratio"@ && p[3].elem is Single && p[3].shape.len() == 0
        }),
{
}

/// A plan is made exactly where all three resamplings are within bounds and the crossfade takes from 2 to
/// 192000 samples.
pub proof fn law_good_plans_are_made(d: Dims, rate: usize, f: Filters)
    ensures
        plan_fault(d, rate, f) is None <==> {
            &&& gpu_pipeline::resample_fault(f.sample_rate, 16000, d.block, f.input_width) is None
            &&& gpu_pipeline::resample_fault(
                d.scaled_window,
                (rate as int / 100) as usize,
                d.trimmed,
                f.formant_width,
            ) is None
            &&& gpu_pipeline::resample_fault(rate, f.sample_rate, f.model_samples, f.output_width) is None
            &&& 2 <= d.crossfade <= 192000
        },
{
}

/// A block is converted exactly where the path has not failed, the block is whole and finite, and the
/// pitch is within 48 semitones and the threshold within 120 dB.
pub proof fn law_good_blocks_are_converted(failed: bool, samples: Seq<u32>, block: int, pitch: int, threshold_db: int)
    requires
        -1000 <= pitch <= 1000,
        -1000 <= threshold_db <= 1000,
    ensures
        block_fault(
            failed,
            samples,
            block,
            crate::bits::exact_double(pitch) as u64,
            crate::bits::exact_double(threshold_db) as u64,
        ) is None <==> {
            &&& !failed
            &&& samples.len() == block
            &&& forall|i: int| 0 <= i < samples.len() ==> #[trigger] samples[i] % 0x8000_0000 < 0x7f80_0000
            &&& -48 <= pitch <= 48
            &&& -120 <= threshold_db <= 0
        },
{
    crate::bits::law_integers_lie_between(pitch, -48, 48);
    crate::bits::law_integers_lie_between(threshold_db, -120, 0);
}

/// What comes out whole and finite is handed on as it is and kept; nothing else is, and the path has then
/// failed and keeps what it had.
pub proof fn law_output_is_handed_on(
    before: EngineValue,
    output: Result<Vec<u32>, String>,
    block: int,
    after: EngineValue,
    r: Result<Vec<u32>, String>,
)
    requires
        finishes(before, output, block, after, r),
    ensures
        r is Ok <==> output is Ok && output->Ok_0@.len() == block && forall|i: int|
            0 <= i < output->Ok_0@.len() ==> #[trigger] output->Ok_0@[i] % 0x8000_0000 < 0x7f80_0000,
        r is Ok ==> r == output && after.output == output->Ok_0@ && after.failed == before.failed,
        r is Err ==> after.failed && after.output == before.output,
        output is Err ==> r == output,
{
}

} // verus!
