//! Startup configuration: the ranges of the parameters, and the buffer sizes that follow from them.
//!
//! Sizes count samples. A hop is a hundredth of a second, and everything is laid out in hops.
use crate::bits;
use crate::bits::is_between;
use crate::error::{Error, ErrorValue};
use crate::text;
use crate::text::{decimal, join, join3};
use vstd::prelude::*;
use vstd::string::*;

verus! {

broadcast use vstd::string::group_string_axioms;

/// The largest block.
pub const MAX_BLOCK_FRAMES: usize = 131072;

/// The files of a converted model.
pub struct ModelFiles {
    pub contentvec: String,
    pub rmvpe: String,
    pub fcpe: String,
    pub generator: String,
}

/// The description of a converted model. The bounds of the pitch are the bits of singles.
pub struct Model {
    pub model_sr: usize,
    pub upp: usize,
    pub half: bool,
    pub f0_min: u32,
    pub f0_max: u32,
    pub pitch_cache_len: usize,
    pub inter_channels: usize,
    pub files: ModelFiles,
    pub dir: String,
}

/// A graph of a converted model: where it is, and whether there is a file.
pub struct GraphFile {
    pub path: String,
    pub present: bool,
}

/// The first graph, from `from` on, that has no file.
pub open spec fn first_absent(graphs: Seq<GraphFile>, from: int) -> Option<Seq<char>>
    decreases graphs.len() - from,
{
    if from < 0 || from >= graphs.len() {
        None
    } else if !graphs[from].present {
        Some(graphs[from].path@)
    } else {
        first_absent(graphs, from + 1)
    }
}

impl ModelFiles {
    /// The names of the graphs, in the order in which they are looked for.
    pub fn graphs(&self) -> (r: Vec<String>)
        ensures
            r@.len() == 4,
            r@[0]@ == self.contentvec@,
            r@[1]@ == self.rmvpe@,
            r@[2]@ == self.fcpe@,
            r@[3]@ == self.generator@,
    {
        vec![self.contentvec.clone(), self.rmvpe.clone(), self.fcpe.clone(), self.generator.clone()]
    }
}

impl Model {
    /// A described model is opened: its graphs have to be there.
    pub fn open(self, graphs: &Vec<GraphFile>) -> (r: Result<Model, Error>)
        ensures
            match first_absent(graphs@, 0) {
                Some(path) => r matches Err(e) && e@ == (ErrorValue::ModelFiles {
                    path,
                    reason: "not found"@,
                }),
                None => r == Ok::<Model, Error>(self),
            },
    {
        let mut i: usize = 0;
        while i < graphs.len()
            invariant
                i <= graphs@.len(),
                first_absent(graphs@, 0) == first_absent(graphs@, i as int),
            decreases graphs@.len() - i,
        {
            if !graphs[i].present {
                return Err(
                    Error::ModelFiles {
                        path: graphs[i].path.clone(),
                        reason: "not found".to_owned(),
                    },
                );
            }
            i += 1;
        }
        Ok(self)
    }
}

#[derive(Debug, Clone, Copy, PartialEq, Eq, Structural)]
pub enum F0Method {
    Rmvpe,
    Fcpe,
}

/// Parameters that are fixed when an engine starts. Times and the formant shift are the bits of
/// doubles.
#[derive(Debug, Clone, Copy)]
pub struct Startup {
    pub sample_rate: u32,
    pub block_ms: u64,
    pub crossfade_ms: u64,
    pub extra_ms: u64,
    pub formant: u64,
    pub f0: F0Method,
}

/// A parameter with a range.
#[derive(Debug, Clone, Copy, PartialEq, Eq, Structural)]
pub enum Parameter {
    BlockMs,
    CrossfadeMs,
    ExtraMs,
    Formant,
}

/// What is wrong with startup parameters.
#[derive(Debug, Clone, Copy, PartialEq, Eq, Structural)]
pub enum StartupFault {
    OutOfRange(Parameter),
    SampleRate(u32),
}

/// The bounds of a parameter.
pub open spec fn bounds(p: Parameter) -> (int, int) {
    match p {
        Parameter::BlockMs => (20, 1000),
        Parameter::CrossfadeMs => (10, 100),
        Parameter::ExtraMs => (500, 10_000),
        Parameter::Formant => (-12, 12),
    }
}

impl Startup {
    /// The value of a parameter.
    pub open spec fn value(self, p: Parameter) -> u64 {
        match p {
            Parameter::BlockMs => self.block_ms,
            Parameter::CrossfadeMs => self.crossfade_ms,
            Parameter::ExtraMs => self.extra_ms,
            Parameter::Formant => self.formant,
        }
    }

    /// Whether a parameter is in its range.
    pub open spec fn in_range(self, p: Parameter) -> bool {
        bits::double_between(self.value(p), bounds(p).0, bounds(p).1)
    }

    /// The first fault.
    pub open spec fn fault(self) -> Option<StartupFault> {
        if !self.in_range(Parameter::BlockMs) {
            Some(StartupFault::OutOfRange(Parameter::BlockMs))
        } else if !self.in_range(Parameter::CrossfadeMs) {
            Some(StartupFault::OutOfRange(Parameter::CrossfadeMs))
        } else if !self.in_range(Parameter::ExtraMs) {
            Some(StartupFault::OutOfRange(Parameter::ExtraMs))
        } else if !self.in_range(Parameter::Formant) {
            Some(StartupFault::OutOfRange(Parameter::Formant))
        } else if self.sample_rate < 100 {
            Some(StartupFault::SampleRate(self.sample_rate))
        } else {
            None
        }
    }

    /// Checks the parameters against their ranges.
    pub fn validate(&self) -> (r: Result<(), StartupFault>)
        ensures
            match self.fault() {
                Some(f) => r == Err::<(), StartupFault>(f),
                None => r is Ok,
            },
    {
        proof {
            lemma_bounds();
        }
        if !is_between(self.block_ms, 0x4034_0000_0000_0000, 0x408f_4000_0000_0000) {
            return Err(StartupFault::OutOfRange(Parameter::BlockMs));
        }
        if !is_between(self.crossfade_ms, 0x4024_0000_0000_0000, 0x4059_0000_0000_0000) {
            return Err(StartupFault::OutOfRange(Parameter::CrossfadeMs));
        }
        if !is_between(self.extra_ms, 0x407f_4000_0000_0000, 0x40c3_8800_0000_0000) {
            return Err(StartupFault::OutOfRange(Parameter::ExtraMs));
        }
        if !is_between(self.formant, 0xc028_0000_0000_0000, 0x4028_0000_0000_0000) {
            return Err(StartupFault::OutOfRange(Parameter::Formant));
        }
        if self.sample_rate < 100 {
            return Err(StartupFault::SampleRate(self.sample_rate));
        }
        Ok(())
    }
}

/// The bounds as doubles.
proof fn lemma_bounds()
    ensures
        bits::exact_double(20) == 0x4034_0000_0000_0000,
        bits::exact_double(1000) == 0x408f_4000_0000_0000,
        bits::exact_double(10) == 0x4024_0000_0000_0000,
        bits::exact_double(100) == 0x4059_0000_0000_0000,
        bits::exact_double(500) == 0x407f_4000_0000_0000,
        bits::exact_double(10_000) == 0x40c3_8800_0000_0000,
        bits::exact_double(12) == 0x4028_0000_0000_0000,
        bits::exact_double(-12) == 0xc028_0000_0000_0000,
{
    reveal_with_fuel(bits::highest_bit, 15);
    vstd::arithmetic::power2::lemma2_to64();
    vstd::arithmetic::power2::lemma2_to64_rest();
}

/// The name of a parameter.
pub open spec fn parameter_name(p: Parameter) -> Seq<char> {
    match p {
        Parameter::BlockMs => "block_ms"@,
        Parameter::CrossfadeMs => "crossfade_ms"@,
        Parameter::ExtraMs => "extra_ms"@,
        Parameter::Formant => "formant"@,
    }
}

/// The range of a parameter as it is shown.
pub open spec fn range_text(p: Parameter) -> Seq<char> {
    match p {
        Parameter::BlockMs => "20..=1000"@,
        Parameter::CrossfadeMs => "10..=100"@,
        Parameter::ExtraMs => "500..=10000"@,
        Parameter::Formant => "-12..=12"@,
    }
}

/// What is said of a fault; `shown` is the value that is out of range as it is shown.
pub open spec fn fault_text(f: StartupFault, shown: Seq<char>) -> Seq<char> {
    match f {
        StartupFault::OutOfRange(p) => parameter_name(p) + " "@ + shown
            + " is outside the official range "@ + range_text(p),
        StartupFault::SampleRate(rate) => "sample rate "@ + text::decimal_of(rate as nat)
            + " too low"@,
    }
}

impl StartupFault {
    /// The error of a fault; `shown` is the value that is out of range as it is shown.
    pub fn error(&self, shown: &str) -> (r: Error)
        ensures
            r@ == ErrorValue::Startup(fault_text(*self, shown@)),
    {
        match self {
            StartupFault::OutOfRange(p) => {
                let name: &str = match p {
                    Parameter::BlockMs => "block_ms",
                    Parameter::CrossfadeMs => "crossfade_ms",
                    Parameter::ExtraMs => "extra_ms",
                    Parameter::Formant => "formant",
                };
                let range: &str = match p {
                    Parameter::BlockMs => "20..=1000",
                    Parameter::CrossfadeMs => "10..=100",
                    Parameter::ExtraMs => "500..=10000",
                    Parameter::Formant => "-12..=12",
                };
                let start = join3(name, " ", shown);
                Error::Startup(join3(start.as_str(), " is outside the official range ", range))
            },
            StartupFault::SampleRate(rate) => {
                Error::Startup(join3("sample rate ", decimal(*rate as usize).as_str(), " too low"))
            },
        }
    }
}

/// The feature frames of `n16` samples: the convolutions of the feature extractor in a row.
pub open spec fn features_of(n16: int) -> int {
    (n16 - 80) / 320
}

/// The frames that the feature extractor makes of `n16` samples at 16 kHz. Its convolutions have
/// kernels of 10, 3, 3, 3, 3, 2, 2 and strides of 5, 2, 2, 2, 2, 2, 2.
pub fn feats_frames(n16: usize) -> (r: usize)
    requires
        n16 >= 400,
    ensures
        r == features_of(n16 as int),
        r >= 1,
{
    let a: usize = (n16 - 10) / 5 + 1;
    let b: usize = (a - 3) / 2 + 1;
    let c: usize = (b - 3) / 2 + 1;
    let d: usize = (c - 3) / 2 + 1;
    let e: usize = (d - 3) / 2 + 1;
    let f: usize = (e - 2) / 2 + 1;
    (f - 2) / 2 + 1
}

/// The times of a startup in whole hops.
#[derive(Debug, Clone, Copy, PartialEq, Eq, Structural)]
pub struct Hops {
    pub block: usize,
    pub crossfade: usize,
    pub extra: usize,
}

/// The buffer sizes of an engine.
#[derive(Debug, Clone, Copy, PartialEq, Eq, Structural)]
pub struct Dims {
    pub device_sr: usize,
    pub model_sr: usize,
    /// The samples of a hop.
    pub zc: usize,
    pub block_frame: usize,
    pub block_frame_16k: usize,
    pub crossfade_frame: usize,
    pub sola_buffer_frame: usize,
    pub sola_search_frame: usize,
    pub extra_frame: usize,
    pub input_wav_len: usize,
    pub n16: usize,
    pub p_len: usize,
    pub skip_head: usize,
    pub return_length: usize,
    /// The returned hops and the samples of a hop under the formant shift.
    pub return_length2: usize,
    pub upp_res: usize,
    pub flow_head: usize,
    pub f0_extractor_frame: usize,
    pub f0_frames: usize,
    pub f0_min: u32,
    pub f0_max: u32,
    pub pitch_cache_len: usize,
    pub feats_frames: usize,
}

/// The samples of a hop.
pub open spec fn hop(sample_rate: int) -> int {
    if sample_rate < 100 {
        1
    } else {
        sample_rate / 100
    }
}

/// The hops of a whole context: what goes before, the crossfade, the search and the block.
pub open spec fn context(h: Hops) -> int {
    h.extra + h.crossfade + 1 + h.block
}

/// The hops that a block returns: the block, the overlap (four hops at most) and the search.
pub open spec fn returned(h: Hops) -> int {
    h.block + overlap(h) + 1
}

pub open spec fn overlap(h: Hops) -> int {
    if h.crossfade < 4 {
        h.crossfade as int
    } else {
        4
    }
}

/// The samples at 16 kHz that the pitch is taken from: the block and 50 ms, and for one method up
/// to the next multiple of 5120 less a hop.
pub open spec fn pitch_window(block16: int, f0: F0Method) -> int {
    if f0 == F0Method::Rmvpe {
        5120 * ((block16 + 800 - 1) / 5120 + 1) - 160
    } else {
        block16 + 800
    }
}

/// The sizes that a startup has.
pub open spec fn layout(model: Model, s: Startup, h: Hops, return_length2: usize, upp_res: usize) -> Dims {
    let sr = s.sample_rate as int;
    let zc = hop(sr);
    let block16 = 160 * h.block;
    let window = pitch_window(block16, s.f0);
    Dims {
        device_sr: sr as usize,
        model_sr: model.model_sr,
        zc: zc as usize,
        block_frame: (h.block * zc) as usize,
        block_frame_16k: block16 as usize,
        crossfade_frame: (h.crossfade * zc) as usize,
        sola_buffer_frame: (overlap(h) * zc) as usize,
        sola_search_frame: zc as usize,
        extra_frame: (h.extra * zc) as usize,
        input_wav_len: (context(h) * zc) as usize,
        n16: (160 * context(h)) as usize,
        p_len: context(h) as usize,
        skip_head: h.extra,
        return_length: returned(h) as usize,
        return_length2,
        upp_res,
        flow_head: if h.extra < 24 {
            0
        } else {
            (h.extra - 24) as usize
        },
        f0_extractor_frame: window as usize,
        f0_frames: (window / 160 + 1) as usize,
        f0_min: model.f0_min,
        f0_max: model.f0_max,
        pitch_cache_len: model.pitch_cache_len,
        feats_frames: features_of(160 * context(h)) as usize,
    }
}

/// Why a startup of these hops is refused: a block that is too long, or a context that is longer
/// than the pitch cache.
pub open spec fn refused(model: Model, s: Startup, h: Hops) -> Option<Seq<char>> {
    let block = h.block * hop(s.sample_rate as int);
    if block > MAX_BLOCK_FRAMES {
        Some(
            "block of "@ + text::decimal_of(block as nat) + " samples exceeds the official limit "@
                + text::decimal_of(MAX_BLOCK_FRAMES as nat),
        )
    } else if context(h) > model.pitch_cache_len {
        Some(
            "context of "@ + text::decimal_of(context(h) as nat)
                + " frames exceeds the pitch cache of "@ + text::decimal_of(
                model.pitch_cache_len as nat,
            ),
        )
    } else {
        None
    }
}

/// Whether every size can be counted, and the context is long enough to make a feature of.
pub open spec fn countable(s: Startup, h: Hops) -> bool {
    &&& context(h) * hop(s.sample_rate as int) <= usize::MAX
    &&& 160 * context(h) + 10_000 <= usize::MAX
    &&& context(h) >= 3
}

/// Whether every size can be counted, and the context is long enough to make a feature of.
pub fn is_countable(s: &Startup, h: &Hops) -> (r: bool)
    ensures
        r == countable(*s, *h),
{
    let zc: usize = if s.sample_rate < 100 {
        1
    } else {
        (s.sample_rate / 100) as usize
    };
    let total: u128 = h.extra as u128 + h.crossfade as u128 + h.block as u128 + 1;
    proof {
        assert(total * zc <= 0x8_0000_0000_0000_0000_0000_0000) by (nonlinear_arith)
            requires
                total <= 0x4_0000_0000_0000_0000,
                zc <= 0x1_0000_0000,
        ;
    }
    total * zc as u128 <= usize::MAX as u128 && 160 * total + 10_000 <= usize::MAX as u128 && total
        >= 3
}

impl Dims {
    /// The sizes of a startup whose parameters are in range, with its times in hops; the last two
    /// arguments are the returned hops and the samples of a hop under the formant shift.
    pub fn compute(
        model: &Model,
        s: &Startup,
        h: Hops,
        return_length2: usize,
        upp_res: usize,
    ) -> (r: Result<Dims, Error>)
        requires
            s.fault() is None,
            countable(*s, h),
        ensures
            match refused(*model, *s, h) {
                Some(text) => r matches Err(e) && e@ == ErrorValue::Startup(text),
                None => r == Ok::<Dims, Error>(layout(*model, *s, h, return_length2, upp_res)),
            },
    {
        let sr: usize = s.sample_rate as usize;
        let zc: usize = sr / 100;
        let p_len: usize = h.extra + h.crossfade + 1 + h.block;
        proof {
            lemma_parts(h, zc as int);
        }
        let block_frame: usize = h.block * zc;
        if block_frame > MAX_BLOCK_FRAMES {
            let start = join3(
                "block of ",
                decimal(block_frame).as_str(),
                " samples exceeds the official limit ",
            );
            return Err(Error::Startup(join(start.as_str(), decimal(MAX_BLOCK_FRAMES).as_str())));
        }
        if p_len > model.pitch_cache_len {
            let start = join3(
                "context of ",
                decimal(p_len).as_str(),
                " frames exceeds the pitch cache of ",
            );
            return Err(Error::Startup(join(start.as_str(), decimal(model.pitch_cache_len).as_str())));
        }
        let kept: usize = if h.crossfade < 4 {
            h.crossfade
        } else {
            4
        };
        let block_frame_16k: usize = 160 * h.block;
        let wide: usize = block_frame_16k + 800;
        let window: usize = if s.f0 == F0Method::Rmvpe {
            5120 * ((wide - 1) / 5120 + 1) - 160
        } else {
            wide
        };
        let n16: usize = 160 * p_len;
        Ok(
            Dims {
                device_sr: sr,
                model_sr: model.model_sr,
                zc,
                block_frame,
                block_frame_16k,
                crossfade_frame: h.crossfade * zc,
                sola_buffer_frame: kept * zc,
                sola_search_frame: zc,
                extra_frame: h.extra * zc,
                input_wav_len: p_len * zc,
                n16,
                p_len,
                skip_head: h.extra,
                return_length: h.block + kept + 1,
                return_length2,
                upp_res,
                flow_head: if h.extra < 24 {
                    0
                } else {
                    h.extra - 24
                },
                f0_extractor_frame: window,
                f0_frames: window / 160 + 1,
                f0_min: model.f0_min,
                f0_max: model.f0_max,
                pitch_cache_len: model.pitch_cache_len,
                feats_frames: feats_frames(n16),
            },
        )
    }
}

proof fn lemma_parts(h: Hops, zc: int)
    requires
        0 <= zc,
    ensures
        0 <= h.block * zc <= context(h) * zc,
        0 <= h.crossfade * zc <= context(h) * zc,
        0 <= h.extra * zc <= context(h) * zc,
        0 <= overlap(h) * zc <= context(h) * zc,
{
    let c = context(h);
    assert(0 <= h.block * zc <= c * zc) by (nonlinear_arith)
        requires
            0 <= h.block <= c,
            0 <= zc,
    ;
    assert(0 <= h.crossfade * zc <= c * zc) by (nonlinear_arith)
        requires
            0 <= h.crossfade <= c,
            0 <= zc,
    ;
    assert(0 <= h.extra * zc <= c * zc) by (nonlinear_arith)
        requires
            0 <= h.extra <= c,
            0 <= zc,
    ;
    let o = overlap(h);
    assert(0 <= o * zc <= c * zc) by (nonlinear_arith)
        requires
            0 <= o <= c,
            0 <= zc,
    ;
}

/// What is refused never runs past the pitch cache, and what is laid out fits together: the returned
/// hops lie inside the context behind the skipped head, the pitch window inside the samples of the
/// context, and the features, each taken twice with the last one once more, cover the context.
pub proof fn law_layout_fits(model: Model, s: Startup, h: Hops, return_length2: usize, upp_res: usize)
    requires
        s.fault() is None,
        countable(s, h),
        h.extra >= 50,
        refused(model, s, h) is None,
    ensures
        ({
            let d = layout(model, s, h, return_length2, upp_res);
            &&& d.p_len <= d.pitch_cache_len
            &&& d.block_frame <= MAX_BLOCK_FRAMES
            &&& d.n16 == 160 * d.p_len
            &&& d.input_wav_len == d.p_len * d.zc
            &&& d.skip_head + d.return_length <= d.p_len
            &&& d.flow_head <= d.skip_head
            &&& d.f0_extractor_frame <= d.n16
            &&& 2 * (d.feats_frames + 1) >= d.p_len
            &&& d.sola_buffer_frame <= d.crossfade_frame
        }),
{
    let zc = hop(s.sample_rate as int);
    lemma_parts(h, zc);
    assert(overlap(h) * zc <= h.crossfade * zc) by (nonlinear_arith)
        requires
            overlap(h) <= h.crossfade,
            zc >= 0,
    ;
}

/// Whatever the pitch method, the pitch is taken from the block and 50 ms before it but for one hop, so that
/// every hop of a block gets an estimate although four frames are left out. One method takes as many whole
/// stretches of 32 hops as that needs, less a hop, and the other no sample more.
pub proof fn law_pitch_window_covers_the_block(
    model: Model,
    s: Startup,
    h: Hops,
    return_length2: usize,
    upp_res: usize,
)
    requires
        countable(s, h),
    ensures
        ({
            let d = layout(model, s, h, return_length2, upp_res);
            &&& d.block_frame_16k == 160 * h.block
            &&& d.f0_extractor_frame + 160 >= d.block_frame_16k + 800
            &&& s.f0 == F0Method::Rmvpe ==> {
                &&& (d.f0_extractor_frame + 160) % 5120 == 0
                &&& d.f0_extractor_frame + 160 < d.block_frame_16k + 800 + 5120
            }
            &&& s.f0 == F0Method::Fcpe ==> d.f0_extractor_frame == d.block_frame_16k + 800
            &&& 160 * (d.f0_frames - 1) <= d.f0_extractor_frame < 160 * d.f0_frames
            &&& d.f0_frames - 4 >= h.block
        }),
{
}

/// A context is what goes before, the crossfade, a hop of search and the block, the same in hops, at the rate
/// of the device and at 16 kHz. What is returned is the block, the search and the crossfade, of which four
/// hops are kept at most; the rest of the crossfade and all before it is skipped or stays behind.
pub proof fn law_sizes_follow_from_the_times(
    model: Model,
    s: Startup,
    h: Hops,
    return_length2: usize,
    upp_res: usize,
)
    requires
        s.fault() is None,
        countable(s, h),
    ensures
        ({
            let d = layout(model, s, h, return_length2, upp_res);
            &&& d.device_sr == s.sample_rate
            &&& 100 * d.zc <= s.sample_rate < 100 * d.zc + 100
            &&& d.p_len == h.extra + h.crossfade + 1 + h.block
            &&& d.n16 == 160 * d.p_len
            &&& d.input_wav_len == d.extra_frame + d.crossfade_frame + d.sola_search_frame
                + d.block_frame
            &&& d.block_frame == h.block * d.zc
            &&& d.extra_frame == h.extra * d.zc
            &&& d.crossfade_frame == h.crossfade * d.zc
            &&& d.sola_search_frame == d.zc
            &&& d.sola_buffer_frame <= d.crossfade_frame
            &&& d.sola_buffer_frame <= 4 * d.zc
            &&& d.sola_buffer_frame == d.crossfade_frame || d.sola_buffer_frame == 4 * d.zc
            &&& d.return_length * d.zc == d.block_frame + d.sola_buffer_frame + d.sola_search_frame
            &&& d.skip_head == h.extra
            &&& d.skip_head + d.return_length <= d.p_len
            &&& d.flow_head == 0 || d.flow_head + 24 == d.skip_head
            &&& d.skip_head >= 24 ==> d.flow_head + 24 == d.skip_head
            &&& d.return_length2 == return_length2 && d.upp_res == upp_res
            &&& d.model_sr == model.model_sr && d.pitch_cache_len == model.pitch_cache_len
            &&& d.f0_min == model.f0_min && d.f0_max == model.f0_max
        }),
{
    let zc = hop(s.sample_rate as int);
    lemma_parts(h, zc);
    let a = h.extra as int;
    let b = h.crossfade as int;
    let c = h.block as int;
    let o = overlap(h);
    assert((a + b + 1 + c) * zc == a * zc + b * zc + zc + c * zc) by (nonlinear_arith);
    assert((c + o + 1) * zc == c * zc + o * zc + zc) by (nonlinear_arith);
    assert(o * zc <= b * zc) by (nonlinear_arith)
        requires
            o <= b,
            zc >= 0,
    ;
    assert(o * zc <= 4 * zc) by (nonlinear_arith)
        requires
            o <= 4,
            zc >= 0,
    ;
}

/// The feature extractor makes a frame of every 320 samples of a context, but for the 80 that its kernels
/// reach over: two hops for each feature, and the last one once more.
pub proof fn law_features_take_two_hops(
    model: Model,
    s: Startup,
    h: Hops,
    return_length2: usize,
    upp_res: usize,
)
    requires
        countable(s, h),
    ensures
        ({
            let d = layout(model, s, h, return_length2, upp_res);
            &&& 320 * d.feats_frames + 80 <= d.n16 < 320 * (d.feats_frames + 1) + 80
            &&& 2 * d.feats_frames < d.p_len <= 2 * (d.feats_frames + 1)
        }),
{
}

/// A startup is refused for a block of more samples than are allowed, or a context of more hops than the
/// pitch cache has, and for nothing else.
pub proof fn law_refused_sizes(model: Model, s: Startup, h: Hops)
    requires
        s.fault() is None,
    ensures
        (refused(model, s, h) is None) == (h.block * (s.sample_rate as int / 100) <= 131072 && h.extra
            + h.crossfade + 1 + h.block <= model.pitch_cache_len),
{
}

/// Whole numbers are accepted in their ranges and nowhere else: blocks of 20 to 1000 ms, crossfades of 10 to
/// 100 ms, a context of 500 to 10000 ms, a formant shift of 12 semitones at most, and a rate of 100 at least.
pub proof fn law_whole_numbers_are_accepted_in_range(
    sample_rate: u32,
    block_ms: int,
    crossfade_ms: int,
    extra_ms: int,
    formant: int,
    f0: F0Method,
)
    requires
        -0x10_0000_0000 < block_ms < 0x10_0000_0000,
        -0x10_0000_0000 < crossfade_ms < 0x10_0000_0000,
        -0x10_0000_0000 < extra_ms < 0x10_0000_0000,
        -0x10_0000_0000 < formant < 0x10_0000_0000,
    ensures
        ({
            let s = Startup {
                sample_rate,
                block_ms: bits::exact_double(block_ms) as u64,
                crossfade_ms: bits::exact_double(crossfade_ms) as u64,
                extra_ms: bits::exact_double(extra_ms) as u64,
                formant: bits::exact_double(formant) as u64,
                f0,
            };
            s.fault() is None <==> 20 <= block_ms <= 1000 && 10 <= crossfade_ms <= 100 && 500 <= extra_ms
                <= 10000 && -12 <= formant <= 12 && sample_rate >= 100
        }),
{
    bits::law_integers_lie_between(block_ms, 20, 1000);
    bits::law_integers_lie_between(crossfade_ms, 10, 100);
    bits::law_integers_lie_between(extra_ms, 500, 10000);
    bits::law_integers_lie_between(formant, -12, 12);
}

/// The fault that is reported is one that the parameters have: a parameter out of its range by its value, or
/// a rate below 100.
pub proof fn law_reported_fault_is_there(s: Startup)
    requires
        s.fault() is Some,
    ensures
        ({
            let p = vstd::arithmetic::power2::pow2(1074) as int;
            let out = |v: u64, low: int, high: int|
                !bits::double_is_finite(v) || bits::double_value(v) < low * p || bits::double_value(v) > high
                    * p;
            match s.fault()->Some_0 {
                StartupFault::OutOfRange(Parameter::BlockMs) => out(s.block_ms, 20, 1000),
                StartupFault::OutOfRange(Parameter::CrossfadeMs) => out(s.crossfade_ms, 10, 100),
                StartupFault::OutOfRange(Parameter::ExtraMs) => out(s.extra_ms, 500, 10000),
                StartupFault::OutOfRange(Parameter::Formant) => out(s.formant, -12, 12),
                StartupFault::SampleRate(rate) => rate == s.sample_rate && rate < 100,
            }
        }),
{
    bits::law_between_is_by_value(s.block_ms, 20, 1000);
    bits::law_between_is_by_value(s.crossfade_ms, 10, 100);
    bits::law_between_is_by_value(s.extra_ms, 500, 10000);
    bits::law_between_is_by_value(s.formant, -12, 12);
}

proof fn lemma_first_absent(graphs: Seq<GraphFile>, from: int)
    requires
        0 <= from,
    ensures
        match first_absent(graphs, from) {
            Some(path) => exists|i: int|
                from <= i < graphs.len() && !(#[trigger] graphs[i]).present && graphs[i].path@ == path
                    && forall|j: int| from <= j < i ==> (#[trigger] graphs[j]).present,
            None => forall|i: int| from <= i < graphs.len() ==> (#[trigger] graphs[i]).present,
        },
    decreases graphs.len() - from,
{
    if from < graphs.len() && graphs[from].present {
        lemma_first_absent(graphs, from + 1);
    }
}

/// A model opens where all of its graphs are there, and otherwise the first that is not is named.
pub proof fn law_first_absent_graph_is_named(graphs: Seq<GraphFile>)
    ensures
        match first_absent(graphs, 0) {
            Some(path) => exists|i: int|
                0 <= i < graphs.len() && !(#[trigger] graphs[i]).present && graphs[i].path@ == path
                    && forall|j: int| 0 <= j < i ==> (#[trigger] graphs[j]).present,
            None => forall|i: int| 0 <= i < graphs.len() ==> (#[trigger] graphs[i]).present,
        },
{
    lemma_first_absent(graphs, 0);
}

/// A parameter out of range is named first, and its range last.
pub proof fn law_faults_name_the_parameter(p: Parameter, shown: Seq<char>)
    ensures
        (parameter_name(p) + " "@ + shown).is_prefix_of(fault_text(StartupFault::OutOfRange(p), shown)),
        range_text(p).is_suffix_of(fault_text(StartupFault::OutOfRange(p), shown)),
        parameter_name(Parameter::BlockMs) == "block_ms"@ && range_text(Parameter::BlockMs) == "20..=1000"@,
        parameter_name(Parameter::CrossfadeMs) == "crossfade_ms"@ && range_text(Parameter::CrossfadeMs)
            == "10..=100"@,
        parameter_name(Parameter::ExtraMs) == "extra_ms"@ && range_text(Parameter::ExtraMs)
            == "500..=10000"@,
        parameter_name(Parameter::Formant) == "formant"@ && range_text(Parameter::Formant) == "-12..=12"@,
{
    let m = fault_text(StartupFault::OutOfRange(p), shown);
    let named = parameter_name(p) + " "@ + shown;
    assert(m.take(named.len() as int) =~= named);
    assert(m.skip(m.len() - range_text(p).len()) =~= range_text(p));
}

/// A feature takes 400 samples at 16 kHz, and the next begins 320 samples later: as many as fit.
pub proof fn law_features_fit_the_samples(n16: int)
    requires
        n16 >= 400,
    ensures
        320 * (features_of(n16) - 1) + 400 <= n16 < 320 * features_of(n16) + 400,
{
}

} // verus!
