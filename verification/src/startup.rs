//! The lengths of the low-latency path: what a block converts, skips and returns, in samples at
//! 16 kHz and in frames of 160 of them, and the index tables of its resampling.
use crate::bits;
use crate::bits::is_between;
use crate::dsp;
use crate::dsp::gcd;
use vstd::prelude::*;
use vstd::string::*;

verus! {

broadcast use vstd::string::group_string_axioms;

/// Startup parameters. Times and the formant shift are the bits of doubles.
#[derive(Clone, Copy)]
pub struct Startup {
    pub sample_rate: usize,
    pub chunk: usize,
    /// The samples of a block; without them a block is 128 samples for each chunk.
    pub block_frames: Option<usize>,
    pub extra_ms: u64,
    pub crossfade_ms: u64,
    pub formant: u64,
}

/// Times in samples of the device, and in samples at 16 kHz.
#[derive(Clone, Copy)]
pub struct Counts {
    pub crossfade: usize,
    pub block16: usize,
    pub crossfade16: usize,
    pub extra16: usize,
    pub search16: usize,
}

/// What a block converts.
#[derive(Clone, Copy, PartialEq, Eq, Structural)]
pub struct Window {
    pub block: usize,
    pub crossfade: usize,
    pub search: usize,
    pub audio: usize,
    pub convert: usize,
    pub features: usize,
    pub silence_front: usize,
    pub skip: usize,
    pub ret: usize,
}

/// The lengths of a path.
#[derive(Clone, Copy, PartialEq, Eq, Structural)]
pub struct Dims {
    pub block: usize,
    pub crossfade: usize,
    pub search: usize,
    pub audio: usize,
    pub convert: usize,
    pub features: usize,
    pub silence_front: usize,
    pub skip: usize,
    pub ret: usize,
    pub formant_length: usize,
    pub scaled_window: usize,
    pub generated: usize,
    pub trimmed: usize,
}

/// The least that the pitch is taken from.
pub const PITCH_WINDOW: usize = 3040;

/// Whether a rate is one of a device that is supported.
pub open spec fn device_rate(rate: usize) -> bool {
    rate == 44100 || rate == 48000
}

/// Whether a rate is one of a model that is supported.
pub open spec fn model_rate(rate: usize) -> bool {
    rate == 32000 || rate == 40000 || rate == 48000
}

impl Startup {
    /// The samples of a block.
    pub open spec fn block(self) -> int {
        match self.block_frames {
            Some(n) => n as int,
            None => self.chunk * 128,
        }
    }

    /// What is wrong with the parameters; `tg` is the path that makes do without context.
    pub open spec fn fault(self, rate: usize, tg: bool) -> Option<Seq<char>> {
        if !device_rate(self.sample_rate) {
            Some("unsupported device rate"@)
        } else if !model_rate(rate) {
            Some("unsupported model rate"@)
        } else if !(1 <= self.chunk <= 256) {
            Some("chunk out of supported range"@)
        } else if !bits::double_between(
            self.extra_ms,
            if tg {
                0
            } else {
                50
            },
            5000,
        ) {
            Some("invalid extra context"@)
        } else if !bits::double_between(self.crossfade_ms, 1, 1000) {
            Some("invalid crossfade"@)
        } else if !bits::double_between(self.formant, -12, 12) {
            Some("invalid formant"@)
        } else if !(128 <= self.block() <= 32768) {
            Some("invalid resolved block frames"@)
        } else {
            None
        }
    }

    /// Checks the parameters.
    pub fn validate(&self, rate: usize, tg: bool) -> (r: Result<(), String>)
        ensures
            match self.fault(rate, tg) {
                Some(text) => r matches Err(e) && e@ == text,
                None => r is Ok,
            },
    {
        proof {
            lemma_bounds();
        }
        if !(self.sample_rate == 44100 || self.sample_rate == 48000) {
            return Err("unsupported device rate".to_owned());
        }
        if !(rate == 32000 || rate == 40000 || rate == 48000) {
            return Err("unsupported model rate".to_owned());
        }
        if self.chunk < 1 || self.chunk > 256 {
            return Err("chunk out of supported range".to_owned());
        }
        let least: u64 = if tg {
            0
        } else {
            0x4049_0000_0000_0000
        };
        if !is_between(self.extra_ms, least, 0x40b3_8800_0000_0000) {
            return Err("invalid extra context".to_owned());
        }
        if !is_between(self.crossfade_ms, 0x3ff0_0000_0000_0000, 0x408f_4000_0000_0000) {
            return Err("invalid crossfade".to_owned());
        }
        if !is_between(self.formant, 0xc028_0000_0000_0000, 0x4028_0000_0000_0000) {
            return Err("invalid formant".to_owned());
        }
        let block: usize = match self.block_frames {
            Some(n) => n,
            None => self.chunk * 128,
        };
        if block < 128 || block > 32768 {
            return Err("invalid resolved block frames".to_owned());
        }
        Ok(())
    }
}

/// The bounds as doubles.
proof fn lemma_bounds()
    ensures
        bits::exact_double(0) == 0,
        bits::exact_double(1) == 0x3ff0_0000_0000_0000,
        bits::exact_double(12) == 0x4028_0000_0000_0000,
        bits::exact_double(-12) == 0xc028_0000_0000_0000,
        bits::exact_double(50) == 0x4049_0000_0000_0000,
        bits::exact_double(1000) == 0x408f_4000_0000_0000,
        bits::exact_double(5000) == 0x40b3_8800_0000_0000,
{
    reveal_with_fuel(bits::highest_bit, 14);
    vstd::arithmetic::power2::lemma2_to64();
    vstd::arithmetic::power2::lemma2_to64_rest();
}

/// The smallest multiple of 160 that is no smaller than `n`.
pub open spec fn whole_frames(n: int) -> int {
    (n + 159) / 160 * 160
}

/// `a - b`, but not below zero.
pub open spec fn less(a: int, b: int) -> int {
    if a < b {
        0
    } else {
        a - b
    }
}

/// What a block converts before the path asks for a least window.
pub open spec fn converted(c: Counts) -> int {
    whole_frames(c.block16 + c.crossfade16 + c.extra16 + c.search16)
}

/// What a block converts. Where the pitch needs a least window, the context is extended by as many
/// frames as are missing, and all of them are skipped.
pub open spec fn window_of(s: Startup, c: Counts, tg: bool) -> Window {
    let before = converted(c);
    let convert = if tg && before < PITCH_WINDOW {
        PITCH_WINDOW as int
    } else {
        before
    };
    let skip = c.extra16 as int / 160 + (convert - before) / 160;
    let front = less(c.extra16 as int, 800);
    Window {
        block: s.block() as usize,
        crossfade: c.crossfade,
        search: (s.sample_rate / 100) as usize,
        audio: (c.block16 + c.crossfade16) as usize,
        convert: convert as usize,
        features: (convert / 160) as usize,
        silence_front: if tg && front > convert - PITCH_WINDOW {
            (convert - PITCH_WINDOW) as usize
        } else {
            front as usize
        },
        skip: skip as usize,
        ret: (before / 160 - c.extra16 as int / 160) as usize,
    }
}

impl Counts {
    /// Whether the sums can be counted.
    pub open spec fn countable(self) -> bool {
        self.block16 + self.crossfade16 + self.extra16 + self.search16 + 4000 <= usize::MAX
    }

    /// Whether the sums can be counted.
    pub fn is_countable(&self) -> (r: bool)
        ensures
            r == self.countable(),
    {
        self.block16 as u128 + self.crossfade16 as u128 + self.extra16 as u128
            + self.search16 as u128 + 4000 <= usize::MAX as u128
    }
}

impl Startup {
    /// What a block converts, for parameters that were checked.
    pub fn window(&self, rate: usize, c: &Counts, tg: bool) -> (r: Window)
        requires
            self.fault(rate, tg) is None,
            c.countable(),
        ensures
            r == window_of(*self, *c, tg),
    {
        let block: usize = match self.block_frames {
            Some(n) => n,
            None => self.chunk * 128,
        };
        let sum: usize = c.block16 + c.crossfade16 + c.extra16 + c.search16;
        let before: usize = (sum + 159) / 160 * 160;
        let convert: usize = if tg && before < PITCH_WINDOW {
            PITCH_WINDOW
        } else {
            before
        };
        let skipped: usize = c.extra16 / 160;
        let front: usize = if c.extra16 < 800 {
            0
        } else {
            c.extra16 - 800
        };
        Window {
            block,
            crossfade: c.crossfade,
            search: self.sample_rate / 100,
            audio: c.block16 + c.crossfade16,
            convert,
            features: convert / 160,
            silence_front: if tg && front > convert - PITCH_WINDOW {
                convert - PITCH_WINDOW
            } else {
                front
            },
            skip: skipped + (convert - before) / 160,
            ret: before / 160 - skipped,
        }
    }
}

/// The lengths that a window and a formant shift make: the shift turns the returned frames into
/// `formant_length` and a frame of the model into `scaled_window` samples.
pub open spec fn dims_of(w: Window, rate: usize, formant_length: usize, scaled_window: usize) -> Dims {
    let frame = rate as int / 100;
    let generated = formant_length * frame;
    Dims {
        block: w.block,
        crossfade: w.crossfade,
        search: w.search,
        audio: w.audio,
        convert: w.convert,
        features: w.features,
        silence_front: w.silence_front,
        skip: w.skip,
        ret: w.ret,
        formant_length,
        scaled_window,
        generated: generated as usize,
        trimmed: if scaled_window == frame {
            generated as usize
        } else {
            (w.ret * scaled_window) as usize
        },
    }
}

/// Whether what is kept of the generated samples is there, and the pitch has a window.
pub open spec fn fitting(d: Dims) -> bool {
    d.trimmed <= d.generated && d.convert - d.silence_front > 512
}

/// Whether the lengths of the generated samples can be counted.
pub open spec fn generation_countable(w: Window, rate: usize, formant_length: usize, scaled_window: usize) -> bool {
    formant_length * (rate as int / 100) <= usize::MAX && w.ret * scaled_window <= usize::MAX
}

/// Whether the lengths of the generated samples can be counted.
pub fn is_generation_countable(w: &Window, rate: usize, formant_length: usize, scaled_window: usize) -> (r:
    bool)
    ensures
        r == generation_countable(*w, rate, formant_length, scaled_window),
{
    proof {
        assert(formant_length * (rate as int / 100) <= u64::MAX * u64::MAX) by (nonlinear_arith)
            requires
                0 <= formant_length <= u64::MAX,
                0 <= rate <= u64::MAX,
        ;
        assert(w.ret * scaled_window <= u64::MAX * u64::MAX) by (nonlinear_arith)
            requires
                0 <= w.ret <= u64::MAX,
                0 <= scaled_window <= u64::MAX,
        ;
    }
    formant_length as u128 * (rate / 100) as u128 <= usize::MAX as u128 && w.ret as u128
        * scaled_window as u128 <= usize::MAX as u128
}

impl Window {
    /// The lengths of a path, or why there are none.
    pub fn dims(&self, rate: usize, formant_length: usize, scaled_window: usize) -> (r: Result<
        Dims,
        String,
    >)
        requires
            generation_countable(*self, rate, formant_length, scaled_window),
        ensures
            if fitting(dims_of(*self, rate, formant_length, scaled_window)) {
                r == Ok::<Dims, String>(dims_of(*self, rate, formant_length, scaled_window))
            } else {
                r matches Err(e) && e@ == "invalid processing window"@
            },
    {
        let frame: usize = rate / 100;
        let generated: usize = formant_length * frame;
        let trimmed: usize = if scaled_window == frame {
            generated
        } else {
            self.ret * scaled_window
        };
        if trimmed > generated || self.convert <= self.silence_front || self.convert
            - self.silence_front <= 512 {
            return Err("invalid processing window".to_owned());
        }
        Ok(
            Dims {
                block: self.block,
                crossfade: self.crossfade,
                search: self.search,
                audio: self.audio,
                convert: self.convert,
                features: self.features,
                silence_front: self.silence_front,
                skip: self.skip,
                ret: self.ret,
                formant_length,
                scaled_window,
                generated,
                trimmed,
            },
        )
    }
}

/// The lengths of a path, or why there are none.
pub open spec fn computed(
    s: Startup,
    rate: usize,
    c: Counts,
    formant_length: usize,
    scaled_window: usize,
    tg: bool,
) -> Result<Dims, Seq<char>> {
    match s.fault(rate, tg) {
        Some(text) => Err(text),
        None => {
            let d = dims_of(window_of(s, c, tg), rate, formant_length, scaled_window);
            if fitting(d) {
                Ok(d)
            } else {
                Err("invalid processing window"@)
            }
        },
    }
}

impl Startup {
    fn compute(
        &self,
        rate: usize,
        c: &Counts,
        formant_length: usize,
        scaled_window: usize,
        tg: bool,
    ) -> (r: Result<Dims, String>)
        requires
            c.countable(),
            generation_countable(window_of(*self, *c, tg), rate, formant_length, scaled_window),
        ensures
            match computed(*self, rate, *c, formant_length, scaled_window, tg) {
                Ok(d) => r == Ok::<Dims, String>(d),
                Err(text) => r matches Err(e) && e@ == text,
            },
    {
        match self.validate(rate, tg) {
            Ok(_) => self.window(rate, c, tg).dims(rate, formant_length, scaled_window),
            Err(e) => Err(e),
        }
    }

    /// The lengths of the path with context. The formant shift makes `formant_length` frames of the
    /// returned ones and `scaled_window` samples of a frame of the model.
    pub fn dims(&self, rate: usize, c: &Counts, formant_length: usize, scaled_window: usize) -> (r:
        Result<Dims, String>)
        requires
            c.countable(),
            generation_countable(window_of(*self, *c, false), rate, formant_length, scaled_window),
        ensures
            match computed(*self, rate, *c, formant_length, scaled_window, false) {
                Ok(d) => r == Ok::<Dims, String>(d),
                Err(text) => r matches Err(e) && e@ == text,
            },
    {
        self.compute(rate, c, formant_length, scaled_window, false)
    }

    /// The lengths of the path that makes do without context.
    pub fn tg_dims(&self, rate: usize, c: &Counts, formant_length: usize, scaled_window: usize) -> (r:
        Result<Dims, String>)
        requires
            c.countable(),
            generation_countable(window_of(*self, *c, true), rate, formant_length, scaled_window),
        ensures
            match computed(*self, rate, *c, formant_length, scaled_window, true) {
                Ok(d) => r == Ok::<Dims, String>(d),
                Err(text) => r matches Err(e) && e@ == text,
            },
    {
        self.compute(rate, c, formant_length, scaled_window, true)
    }
}

/// The least window extends the context, not the returned audio: whichever path it is, as many
/// frames are returned, the features are those that are skipped and those that are returned, and the
/// pitch has its least window.
pub proof fn law_window_ranges(s: Startup, c: Counts)
    requires
        c.countable(),
    ensures
        window_of(s, c, true).ret == window_of(s, c, false).ret,
        window_of(s, c, true).audio == window_of(s, c, false).audio,
        window_of(s, c, true).features == window_of(s, c, true).skip + window_of(s, c, true).ret,
        window_of(s, c, false).features == window_of(s, c, false).skip + window_of(
            s,
            c,
            false,
        ).ret,
        window_of(s, c, true).convert == 160 * window_of(s, c, true).features,
        window_of(s, c, true).convert - window_of(s, c, true).silence_front >= PITCH_WINDOW,
        window_of(s, c, true).convert >= window_of(s, c, false).convert,
{
}

/// What is kept of the generated samples is there wherever the shifted lengths round the right way:
/// the returned frames up, and a frame of the model down.
pub proof fn law_generation_covers(w: Window, rate: usize, formant_length: usize, scaled_window: usize)
    requires
        generation_countable(w, rate, formant_length, scaled_window),
        w.ret * scaled_window <= formant_length * (rate as int / 100),
    ensures
        dims_of(w, rate, formant_length, scaled_window).trimmed <= dims_of(
            w,
            rate,
            formant_length,
            scaled_window,
        ).generated,
{
    assert(0 <= formant_length * (rate as int / 100)) by (nonlinear_arith)
        requires
            formant_length >= 0,
            rate >= 0,
    ;
    assert(0 <= w.ret * scaled_window) by (nonlinear_arith);
}

/// The tables of a resampling: for every frame of input and every tap the place of its sample plus
/// one, and zero for the padding.
pub struct ResampleInputs {
    pub phases: usize,
    pub taps: usize,
    pub frames: usize,
    pub indices: Vec<i64>,
}

/// The place of a tap plus one, or zero outside the samples.
pub open spec fn tap_index(original: int, width: int, samples: int, frame: int, tap: int) -> i64 {
    let position = frame * original + tap - width;
    if 0 <= position < samples {
        (position + 1) as i64
    } else {
        0
    }
}

/// The taps of all frames in a row.
pub open spec fn tap_indices(original: int, width: int, samples: int, frames: int) -> Seq<i64> {
    let taps = 2 * width + original;
    Seq::new(
        (frames * taps) as nat,
        |i: int| tap_index(original, width, samples, i / taps, i % taps),
    )
}

/// Whether the rates and the number of samples are supported.
pub open spec fn resampleable(source: usize, target: usize, samples: usize) -> bool {
    0 < source <= 192000 && 0 < target <= 192000 && 0 < samples <= 1_000_000
}

/// The taps and the frames of a resampling between different rates.
pub open spec fn resample_size(source: usize, target: usize, samples: usize, width: usize) -> (int, int, int) {
    let g = dsp::gcd_of(source as nat, target as nat) as int;
    let original = source as int / g;
    (target as int / g, 2 * width + original, samples as int / original + 1)
}

/// Whether the tables stay within bounds.
pub open spec fn resample_bounded(size: (int, int, int)) -> bool {
    size.0 * size.1 <= 16_000_000 && size.2 * size.1 <= 16_000_000
}

impl ResampleInputs {
    /// The tables for `samples` samples; `width` is the reach of the filter between the two rates.
    /// Equal rates take one tap, which is the sample itself.
    pub fn new(source: usize, target: usize, samples: usize, width: usize) -> (r: Result<
        ResampleInputs,
        String,
    >)
        requires
            width <= 10_000_000,
        ensures
            if !resampleable(source, target, samples) {
                r matches Err(e) && e@ == "invalid resample dimensions"@
            } else if source == target {
                &&& r matches Ok(t)
                &&& t.phases == 1
                &&& t.taps == 1
                &&& t.frames == samples
                &&& t.indices@ == Seq::new(samples as nat, |i: int| (i + 1) as i64)
            } else if !resample_bounded(resample_size(source, target, samples, width)) {
                r matches Err(e) && e@ == "resampling allocation exceeds bound"@
            } else {
                let size = resample_size(source, target, samples, width);
                &&& r matches Ok(t)
                &&& t.phases == size.0
                &&& t.taps == size.1
                &&& t.frames == size.2
                &&& t.indices@ == tap_indices(
                    size.1 - 2 * width,
                    width as int,
                    samples as int,
                    size.2,
                )
            },
    {
        if source == 0 || target == 0 || source > 192000 || target > 192000 || samples == 0
            || samples > 1_000_000 {
            return Err("invalid resample dimensions".to_owned());
        }
        if source == target {
            let mut indices: Vec<i64> = Vec::new();
            let mut i: usize = 0;
            while i < samples
                invariant
                    i <= samples <= 1_000_000,
                    indices@ == Seq::new(i as nat, |j: int| (j + 1) as i64),
                decreases samples - i,
            {
                indices.push(i as i64 + 1);
                i += 1;
                assert(indices@ =~= Seq::new(i as nat, |j: int| (j + 1) as i64));
            }
            return Ok(ResampleInputs { phases: 1, taps: 1, frames: samples, indices });
        }
        let g: usize = gcd(source, target);
        proof {
            dsp::law_gcd_is_greatest(source as nat, target as nat, 1);
            lemma_quotient(source as int, g as int);
            lemma_quotient(target as int, g as int);
        }
        let original: usize = source / g;
        let phases: usize = target / g;
        let taps: usize = 2 * width + original;
        proof {
            assert(samples as int / original as int <= samples) by (nonlinear_arith)
                requires
                    original >= 1,
                    samples >= 0,
            ;
        }
        let frames: usize = samples / original + 1;
        proof {
            assert(phases * taps <= 0x1_0000_0000_0000) by (nonlinear_arith)
                requires
                    phases <= 192000,
                    taps <= 21_000_000,
            ;
            assert(frames * taps <= 0x1_0000_0000_0000) by (nonlinear_arith)
                requires
                    frames <= 1_000_001,
                    taps <= 21_000_000,
            ;
            assert(0 <= phases * taps) by (nonlinear_arith);
            assert(0 <= frames * taps) by (nonlinear_arith);
        }
        if phases as u64 * taps as u64 > 16_000_000 || frames as u64 * taps as u64 > 16_000_000 {
            return Err("resampling allocation exceeds bound".to_owned());
        }
        let indices = tap_table(original, width, samples, frames);
        Ok(ResampleInputs { phases, taps, frames, indices })
    }
}

proof fn lemma_quotient(a: int, g: int)
    requires
        a > 0,
        g > 0,
        a % g == 0,
    ensures
        1 <= a / g <= a,
{
    vstd::arithmetic::div_mod::lemma_fundamental_div_mod(a, g);
    let q = a / g;
    if q <= 0 {
        assert(g * q <= 0) by (nonlinear_arith)
            requires
                q <= 0,
                g > 0,
        ;
    }
    assert(q <= g * q) by (nonlinear_arith)
        requires
            q >= 0,
            g >= 1,
    ;
}

fn tap_table(original: usize, width: usize, samples: usize, frames: usize) -> (r: Vec<i64>)
    requires
        1 <= original <= 192000,
        width <= 10_000_000,
        samples <= 1_000_000,
        frames == samples as int / original as int + 1,
        frames * (2 * width + original) <= 16_000_000,
    ensures
        r@ == tap_indices(original as int, width as int, samples as int, frames as int),
{
    let taps: usize = 2 * width + original;
    let ghost want = tap_indices(original as int, width as int, samples as int, frames as int);
    let mut out: Vec<i64> = Vec::new();
    let mut frame: usize = 0;
    proof {
        assert(0 * taps == 0);
        vstd::arithmetic::div_mod::lemma_fundamental_div_mod(samples as int, original as int);
        let q = samples as int / original as int;
        assert(q * original == original * q) by (nonlinear_arith);
    }
    while frame < frames
        invariant
            frame <= frames,
            taps == 2 * width + original,
            1 <= original <= 192000,
            width <= 10_000_000,
            samples <= 1_000_000,
            frames == samples as int / original as int + 1,
            (samples as int / original as int) * original <= samples,
            frames * taps <= 16_000_000,
            want == tap_indices(original as int, width as int, samples as int, frames as int),
            out@ == want.take(frame * taps),
        decreases frames - frame,
    {
        proof {
            assert(frame * original <= samples) by (nonlinear_arith)
                requires
                    frame <= samples as int / original as int,
                    (samples as int / original as int) * original <= samples,
                    original >= 1,
            ;
            assert(0 <= frame * original) by (nonlinear_arith);
            assert((frame + 1) * taps <= frames * taps) by (nonlinear_arith)
                requires
                    frame + 1 <= frames,
            ;
            assert((frame + 1) * taps == frame * taps + taps) by (nonlinear_arith);
            assert(0 <= frame * taps) by (nonlinear_arith);
        }
        let mut tap: usize = 0;
        while tap < taps
            invariant
                tap <= taps,
                frame < frames,
                taps == 2 * width + original,
                1 <= original <= 192000,
                width <= 10_000_000,
                samples <= 1_000_000,
                0 <= frame * original <= samples,
                0 <= frame * taps,
                frame * taps + taps <= frames * taps,
                want == tap_indices(original as int, width as int, samples as int, frames as int),
                out@ == want.take(frame * taps + tap),
            decreases taps - tap,
        {
            let at: usize = frame * original + tap;
            let index: i64 = if at >= width && at - width < samples {
                (at - width) as i64 + 1
            } else {
                0
            };
            proof {
                let i = frame * taps + tap;
                vstd::arithmetic::div_mod::lemma_fundamental_div_mod_converse(
                    i,
                    taps as int,
                    frame as int,
                    tap as int,
                );
                assert(want[i] == index);
            }
            out.push(index);
            tap += 1;
            assert(out@ =~= want.take(frame * taps + tap));
        }
        frame += 1;
    }
    assert(want.take(frames * taps) =~= want);
    out
}

/// Every entry of a table is a place in the samples plus one, or zero for the padding.
pub proof fn law_tables_stay_inside(original: int, width: int, samples: int, frames: int, i: int)
    requires
        0 <= samples <= 1_000_000,
        0 <= i < tap_indices(original, width, samples, frames).len(),
    ensures
        0 <= tap_indices(original, width, samples, frames)[i] <= samples,
{
}

/// The extra context is skipped and not returned: what is returned is the block, the crossfade and the
/// search, up to a frame more on either side, however much context there is. What is skipped is the
/// context in whole frames, and with it what the pitch is short of.
pub proof fn law_context_is_skipped(s: Startup, c: Counts, tg: bool)
    requires
        c.countable(),
    ensures
        ({
            let w = window_of(s, c, tg);
            let voice = c.block16 + c.crossfade16 + c.search16;
            let all = voice + c.extra16;
            &&& voice <= 160 * w.ret < voice + 320
            &&& 160 * w.skip > c.extra16 - 160
            &&& 160 * w.skip <= c.extra16 || (tg && w.convert == 3040)
            &&& w.skip + w.ret == w.features
            &&& 160 * w.features == w.convert
            &&& all <= w.convert
            &&& w.convert < all + 160 || (tg && w.convert == 3040)
            &&& tg ==> w.convert >= 3040
            &&& w.audio == c.block16 + c.crossfade16
            &&& w.crossfade == c.crossfade
            &&& 100 * w.search <= s.sample_rate < 100 * w.search + 100
        }),
{
}

/// The pitch is taken from the block and 50 ms of the context before it, or from all of a shorter context;
/// without context it has its least window, and no more of the context than that takes.
pub proof fn law_pitch_sees_little_context(s: Startup, c: Counts)
    requires
        c.countable(),
    ensures
        ({
            let w = window_of(s, c, false);
            &&& c.extra16 >= 800 ==> w.silence_front + 800 == c.extra16
            &&& c.extra16 < 800 ==> w.silence_front == 0
        }),
        ({
            let w = window_of(s, c, true);
            &&& w.silence_front + 3040 <= w.convert
            &&& w.silence_front <= window_of(s, c, false).silence_front
            &&& w.silence_front < window_of(s, c, false).silence_front ==> w.silence_front + 3040
                == w.convert
        }),
{
}

/// More context is more to skip and nothing more to return: whole frames of it are skipped to the last,
/// and any other amount moves what is returned by a frame at most.
pub proof fn law_more_context_is_skipped(s: Startup, c: Counts, more: Counts, frames: nat)
    requires
        c.countable(),
        more.countable(),
        more == (Counts { extra16: more.extra16, ..c }),
    ensures
        ({
            let a = window_of(s, c, false);
            let b = window_of(s, more, false);
            &&& -1 <= b.ret - a.ret <= 1
            &&& a.audio == b.audio && a.search == b.search && a.crossfade == b.crossfade && a.block
                == b.block
            &&& more.extra16 == c.extra16 + 160 * frames ==> {
                &&& b.ret == a.ret
                &&& b.skip == a.skip + frames
                &&& b.features == a.features + frames
                &&& b.convert == a.convert + 160 * frames
            }
            &&& more.extra16 >= c.extra16 ==> b.skip >= a.skip && b.convert >= a.convert
        }),
{
}

/// A block has as many samples as are asked for, or 128 for each chunk.
pub proof fn law_block_is_as_asked(s: Startup, c: Counts, tg: bool)
    ensures
        s.block_frames matches Some(n) ==> window_of(s, c, tg).block == n,
        s.block_frames is None && s.chunk <= 256 ==> window_of(s, c, tg).block == 128 * s.chunk,
{
}

/// The formant shift changes what is generated and nothing else: the window stays, a frame of it becomes
/// a hundredth of a second of the model, and where a frame is not shifted all that is generated is kept.
pub proof fn law_formant_changes_generation_only(
    w: Window,
    rate: usize,
    formant_length: usize,
    scaled_window: usize,
)
    requires
        generation_countable(w, rate, formant_length, scaled_window),
    ensures
        ({
            let d = dims_of(w, rate, formant_length, scaled_window);
            &&& d.block == w.block && d.crossfade == w.crossfade && d.search == w.search
            &&& d.audio == w.audio && d.convert == w.convert && d.features == w.features
            &&& d.silence_front == w.silence_front && d.skip == w.skip && d.ret == w.ret
            &&& d.formant_length == formant_length && d.scaled_window == scaled_window
            &&& rate as int % 100 == 0 ==> 100 * d.generated == formant_length * rate
            &&& 100 * scaled_window == rate ==> d.trimmed == d.generated
            &&& 100 * scaled_window != rate && rate as int % 100 == 0 ==> d.trimmed == w.ret
                * scaled_window
        }),
{
    let frame = rate as int / 100;
    assert(0 <= formant_length * frame) by (nonlinear_arith)
        requires
            formant_length >= 0,
            frame >= 0,
    ;
    assert(0 <= w.ret * scaled_window) by (nonlinear_arith);
    if rate as int % 100 == 0 {
        assert(rate == 100 * frame);
        assert(100 * (formant_length * frame) == formant_length * (100 * frame)) by (nonlinear_arith);
    }
}

/// Whole numbers are accepted in their ranges and nowhere else: the two rates of devices, the three of models,
/// 1 to 256 chunks, a context of 50 to 5000 ms (or from 0 ms on, for the path that makes do without), a
/// crossfade of 1 to 1000 ms, a formant shift of 12 semitones at most, and blocks of 128 to 32768 samples.
pub proof fn law_whole_numbers_are_accepted_in_range(
    s: Startup,
    rate: usize,
    tg: bool,
    extra_ms: int,
    crossfade_ms: int,
    formant: int,
)
    requires
        -0x10_0000_0000 < extra_ms < 0x10_0000_0000,
        -0x10_0000_0000 < crossfade_ms < 0x10_0000_0000,
        -0x10_0000_0000 < formant < 0x10_0000_0000,
        s.extra_ms == bits::exact_double(extra_ms),
        s.crossfade_ms == bits::exact_double(crossfade_ms),
        s.formant == bits::exact_double(formant),
    ensures
        s.fault(rate, tg) is None <==> {
            &&& s.sample_rate == 44100 || s.sample_rate == 48000
            &&& rate == 32000 || rate == 40000 || rate == 48000
            &&& 1 <= s.chunk <= 256
            &&& (if tg { 0int } else { 50 }) <= extra_ms <= 5000
            &&& 1 <= crossfade_ms <= 1000
            &&& -12 <= formant <= 12
            &&& s.block_frames matches Some(n) ==> 128 <= n <= 32768
        },
{
    bits::law_exact_double_is_the_integer(extra_ms);
    bits::law_exact_double_is_the_integer(crossfade_ms);
    bits::law_exact_double_is_the_integer(formant);
    bits::law_integers_lie_between(extra_ms, if tg { 0 } else { 50 }, 5000);
    bits::law_integers_lie_between(crossfade_ms, 1, 1000);
    bits::law_integers_lie_between(formant, -12, 12);
}

/// A tap of a resampling is the sample at its time, and nothing outside the samples: the table holds the place
/// plus one, so that zero is free for the padding.
pub proof fn law_taps_are_samples_in_order(
    original: int,
    width: int,
    samples: int,
    frames: int,
    frame: int,
    tap: int,
)
    requires
        0 < original <= 192000,
        0 <= width <= 10_000_000,
        0 <= samples <= 1_000_000,
        0 <= frame < frames <= 1_000_001,
        0 <= tap < 2 * width + original,
    ensures
        ({
            let taps = 2 * width + original;
            let t = tap_indices(original, width, samples, frames);
            let place = frame * original + tap - width;
            &&& t.len() == frames * taps
            &&& 0 <= frame * taps + tap < t.len()
            &&& 0 <= place < samples ==> t[frame * taps + tap] == place + 1
            &&& place < 0 || place >= samples ==> t[frame * taps + tap] == 0
        }),
{
    let taps = 2 * width + original;
    let i = frame * taps + tap;
    assert(0 <= frame * taps && frame * taps + taps <= frames * taps) by (nonlinear_arith)
        requires
            0 <= frame < frames,
            taps > 0,
    ;
    vstd::arithmetic::div_mod::lemma_fundamental_div_mod_converse(i, taps, frame, tap);
}

/// The phases and the stride of a resampling are the two rates without their common divisor, and the frames
/// cover the samples: one stride for each, and one more.
pub proof fn law_resampling_sizes(source: usize, target: usize, samples: usize, width: usize)
    requires
        resampleable(source, target, samples),
    ensures
        ({
            let (phases, taps, frames) = resample_size(source, target, samples, width);
            let stride = taps - 2 * width;
            &&& 0 < phases <= target && 0 < stride <= source
            &&& phases * source == stride * target
            &&& stride * (frames - 1) <= samples < stride * frames
        }),
{
    let g = dsp::gcd_of(source as nat, target as nat) as int;
    dsp::law_gcd_is_greatest(source as nat, target as nat, 1);
    lemma_quotient(source as int, g);
    lemma_quotient(target as int, g);
    vstd::arithmetic::div_mod::lemma_fundamental_div_mod(source as int, g);
    vstd::arithmetic::div_mod::lemma_fundamental_div_mod(target as int, g);
    let a = source as int / g;
    let b = target as int / g;
    assert(b * (g * a) == a * (g * b)) by (nonlinear_arith);
    vstd::arithmetic::div_mod::lemma_fundamental_div_mod(samples as int, a);
    vstd::arithmetic::div_mod::lemma_mod_bound(samples as int, a);
    let q = samples as int / a;
    assert(a * (q + 1) == a * q + a) by (nonlinear_arith);
}

/// Sizes are computed exactly where no parameter is at fault, as much is generated as is used, and the pitch is taken
/// from more than 512 samples; they are those of the window and of the generation.
pub proof fn law_good_startups_are_computed(
    s: Startup,
    rate: usize,
    c: Counts,
    formant_length: usize,
    scaled_window: usize,
    tg: bool,
)
    ensures
        ({
            let d = dims_of(window_of(s, c, tg), rate, formant_length, scaled_window);
            let r = computed(s, rate, c, formant_length, scaled_window, tg);
            &&& r is Ok <==> s.fault(rate, tg) is None && d.trimmed <= d.generated && d.convert
                > d.silence_front + 512
            &&& r is Ok ==> r == Ok::<Dims, Seq<char>>(d)
            &&& r is Err && s.fault(rate, tg) is Some ==> s.fault(rate, tg) == Some(r->Err_0)
            &&& r is Err && s.fault(rate, tg) is None ==> r->Err_0 == "invalid processing window"@
        }),
{
}

/// The first parameter that is at fault is the one that is named: the rates, the chunk, the context, the crossfade,
/// the formant and the block, in this order.
pub proof fn law_first_fault_is_named(s: Startup, rate: usize, tg: bool)
    ensures
        s.sample_rate != 44100 && s.sample_rate != 48000 ==> s.fault(rate, tg) == Some(
            "unsupported device rate"@,
        ),
        device_rate(s.sample_rate) && rate != 32000 && rate != 40000 && rate != 48000 ==> s.fault(rate, tg)
            == Some("unsupported model rate"@),
        device_rate(s.sample_rate) && model_rate(rate) && (s.chunk == 0 || s.chunk > 256) ==> s.fault(rate, tg)
            == Some("chunk out of supported range"@),
        device_rate(s.sample_rate) == (s.sample_rate == 44100 || s.sample_rate == 48000),
        s.fault(rate, tg) == Some("invalid extra context"@) ==> !bits::double_between(
            s.extra_ms,
            if tg {
                0
            } else {
                50
            },
            5000,
        ),
        s.fault(rate, tg) is None && s.block_frames is None ==> 128 <= s.chunk * 128 <= 32768,
{
    reveal_strlit("unsupported device rate");
    reveal_strlit("unsupported model rate");
    reveal_strlit("chunk out of supported range");
    reveal_strlit("invalid extra context");
    reveal_strlit("invalid crossfade");
    reveal_strlit("invalid formant");
    reveal_strlit("invalid resolved block frames");
    let t = "invalid extra context"@;
    assert(t.len() == 21);
    assert("unsupported device rate"@.len() != t.len() && "unsupported model rate"@.len() != t.len()
        && "chunk out of supported range"@.len() != t.len() && "invalid crossfade"@.len() != t.len()
        && "invalid formant"@.len() != t.len() && "invalid resolved block frames"@.len() != t.len());
}

} // verus!
