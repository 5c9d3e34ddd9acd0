//! The pitch and the features of a block on the device: which assets they take, what their graphs are
//! bound to, and in which order a block goes through them.
use crate::generator::{are_finite, are_finite_singles};
use crate::json::{parse_document, Json, JsonValue};
use crate::mel::{sample_index, WINDOW};
use crate::plan::{put_port, range, shape3, Elem, Port, PortValue};
use crate::text::{hex, join};
use crate::voice_model::digest;
use crate::{generator, json, mel, plan, text, voice_model};
use vstd::prelude::*;
use vstd::string::*;

verus! {

broadcast use vstd::string::group_string_axioms;

/// Whether a contract is one of this path.
pub open spec fn contract_supported(c: JsonValue) -> bool {
    &&& json::member(c, "schema"@) == JsonValue::Natural(2)
    &&& json::member(c, "algorithm"@) == JsonValue::Text("tg-cufft-rmvpe-v2"@)
    &&& json::member(c, "model_export"@) == JsonValue::Text("unfused-conv-bn"@)
}

/// Reads and checks the contract of the pitch assets.
pub fn check_contract(bytes: &[u8]) -> (r: Result<Json, String>)
    ensures
        match json::json_document(bytes@) {
            Err(e) => r matches Err(m) && m@ == e,
            Ok(v) => if contract_supported(v) {
                r matches Ok(c) && c@ == v
            } else {
                r matches Err(m) && m@
                    == "requires unfused GPU pitch bundle; folded assets are not supported"@
            },
        },
{
    match parse_document(bytes) {
        Ok(c) => {
            if c.has_number("schema", 2) && c.has_text("algorithm", "tg-cufft-rmvpe-v2")
                && c.has_text("model_export", "unfused-conv-bn") {
                Ok(c)
            } else {
                Err(
                    "requires unfused GPU pitch bundle; folded assets are not supported".to_owned(),
                )
            }
        },
        Err(e) => Err(e),
    }
}

/// Whether the contract has the digest of a file.
pub open spec fn pitch_asset_matches(c: JsonValue, name: Seq<char>, contents: Seq<u8>) -> bool {
    json::member(json::member(c, "files"@), name) == JsonValue::Text(
        text::hex_of(voice_model::sha256(contents)),
    )
}

/// Checks a file against the contract.
pub fn check_pitch_asset(contract: &Json, name: &str, contents: &[u8]) -> (r: Result<(), String>)
    ensures
        if pitch_asset_matches(contract@, name@, contents@) {
            r is Ok
        } else {
            r matches Err(e) && e@ == "GPU pitch asset mismatch: "@ + name@
        },
{
    let empty: Vec<u8> = Vec::new();
    let nothing: &[u8] = empty.as_slice();
    assert(nothing@ + contents@ + nothing@ + nothing@ =~= contents@);
    let digest = hex(&digest(nothing, contents, nothing, nothing));
    let good: bool = match contract.get("files") {
        Some(files) => files.has_text(name, digest.as_str()),
        None => false,
    };
    if good {
        Ok(())
    } else {
        Err(join("GPU pitch asset mismatch: ", name))
    }
}

/// How far a block is.
#[derive(Clone, Copy, PartialEq, Eq, Structural)]
pub enum Phase {
    Idle,
    Uploaded,
    Queued,
}

/// How far a part of the path is, and whether it failed.
#[derive(Clone, Copy, PartialEq, Eq, Structural)]
pub struct Progress {
    pub phase: Phase,
    pub failed: bool,
}

/// The indices of all windows in a row.
pub open spec fn window_table(length: int, frames: int) -> Seq<i64> {
    Seq::new(
        (frames * WINDOW) as nat,
        |i: int| mel::window_index(length, i / WINDOW as int, i % WINDOW as int) as i64,
    )
}

/// The frames that the padded ones are taken from.
pub open spec fn pad_table(frames: int, padded: int) -> Seq<i64> {
    Seq::new(padded as nat, |i: int| mel::pad_index(i, frames) as i64)
}

/// The index tables of the pitch graphs.
pub struct PitchTables {
    pub index: Vec<i64>,
    pub pad_index: Vec<i64>,
    pub trim_index: Vec<i64>,
}

/// The pitch of a block.
pub struct GpuPitch {
    length: usize,
    frames: usize,
    padded: usize,
    progress: Progress,
}

/// The length of a window that the pitch can be taken from.
pub open spec fn pitch_length(length: usize) -> bool {
    3040 <= length <= 160000
}

/// Whether values can be put into an input of `length` halves.
pub open spec fn input_good(audio: Seq<u16>, length: usize) -> bool {
    audio.len() == length && generator::all_finite(audio)
}

impl GpuPitch {
    pub closed spec fn length(&self) -> usize {
        self.length
    }

    pub closed spec fn progress(&self) -> Progress {
        self.progress
    }

    /// Whether the frames are those of the length.
    pub closed spec fn sound(&self) -> bool {
        &&& pitch_length(self.length)
        &&& self.frames == mel::frames_of(self.length as int)
        &&& self.padded == mel::padded_of(self.frames as int)
    }

    /// Checks the length of a window.
    pub fn new(length: usize) -> (r: Result<GpuPitch, String>)
        ensures
            if pitch_length(length) {
                &&& r matches Ok(g)
                &&& g.sound()
                &&& g.length() == length
                &&& g.progress() == (Progress { phase: Phase::Idle, failed: false })
            } else {
                r matches Err(e) && e@ == "invalid RMVPE window length"@
            },
    {
        if length < 3040 || length > 160000 {
            return Err("invalid RMVPE window length".to_owned());
        }
        let frames: usize = length / 160 + 1;
        Ok(
            GpuPitch {
                length,
                frames,
                padded: (frames + 31) / 32 * 32,
                progress: Progress { phase: Phase::Idle, failed: false },
            },
        )
    }

    /// The frames of a window, and as how many the graphs take them.
    pub fn frames(&self) -> (r: (usize, usize))
        requires
            self.sound(),
        ensures
            r.0 == mel::frames_of(self.length() as int),
            r.1 == mel::padded_of(mel::frames_of(self.length() as int)),
    {
        (self.frames, self.padded)
    }

    /// The index tables of the graphs.
    pub fn tables(&self) -> (r: PitchTables)
        requires
            self.sound(),
        ensures
            ({
                let frames = mel::frames_of(self.length() as int);
                &&& r.index@ == window_table(self.length() as int, frames)
                &&& r.pad_index@ == pad_table(frames, mel::padded_of(frames))
                &&& r.trim_index@ == plan::range_of(0, frames)
            }),
    {
        let trim_index = range(0, self.frames);
        PitchTables {
            index: window_indices(self.length, self.frames),
            pad_index: pad_indices(self.frames, self.padded),
            trim_index,
        }
    }

    /// Whether waiting can be changed: not while a block is under way.
    pub fn enable_blocking_wait(&self) -> (r: Result<(), String>)
        ensures
            if self.progress() == (Progress { phase: Phase::Idle, failed: false }) {
                r is Ok
            } else {
                r matches Err(e) && e@ == "pitch block pending or failed"@
            },
    {
        if is_idle(self.progress) {
            Ok(())
        } else {
            Err("pitch block pending or failed".to_owned())
        }
    }

    /// Whether a window can be uploaded.
    pub fn upload(&self, audio: &[u16]) -> (r: Result<(), String>)
        ensures
            pitch_upload(self.progress(), self.length(), audio@, r),
    {
        if self.progress.failed {
            return Err("GPU pitch failed; recreate it".to_owned());
        }
        if self.progress.phase != Phase::Idle {
            return Err("GPU pitch block already pending".to_owned());
        }
        if audio.len() != self.length || !are_finite(audio) {
            return Err("invalid pitch input".to_owned());
        }
        Ok(())
    }

    /// Whether the graphs can be started.
    pub fn enqueue(&self) -> (r: Result<(), String>)
        ensures
            goes_on(
                self.progress(),
                Phase::Uploaded,
                "GPU pitch failed; recreate it"@,
                "GPU pitch enqueue requires upload"@,
                r,
            ),
    {
        if self.progress.failed {
            return Err("GPU pitch failed; recreate it".to_owned());
        }
        if self.progress.phase != Phase::Uploaded {
            return Err("GPU pitch enqueue requires upload".to_owned());
        }
        Ok(())
    }

    /// Whether a window that another stage put into the input can be taken: it counts as uploaded.
    pub fn enqueue_device(&mut self) -> (r: Result<(), String>)
        ensures
            final(self).length() == old(self).length(),
            final(self).sound() == old(self).sound(),
            taken_over(
                old(self).progress(),
                "GPU pitch block pending or failed"@,
                final(self).progress(),
                r,
            ),
    {
        if !is_idle(self.progress) {
            return Err("GPU pitch block pending or failed".to_owned());
        }
        self.progress = Progress { phase: Phase::Uploaded, failed: false };
        Ok(())
    }

    /// Whether the pitch can be read.
    pub fn finish(&self) -> (r: Result<(), String>)
        ensures
            goes_on(
                self.progress(),
                Phase::Queued,
                "GPU pitch failed; recreate it"@,
                "GPU pitch finish requires enqueue"@,
                r,
            ),
    {
        if self.progress.failed {
            return Err("GPU pitch failed; recreate it".to_owned());
        }
        if self.progress.phase != Phase::Queued {
            return Err("GPU pitch finish requires enqueue".to_owned());
        }
        Ok(())
    }

    /// The pitch was read. One that is not finite is no pitch.
    pub fn finished(&mut self, output: Result<Vec<u32>, String>) -> (r: Result<Vec<u32>, String>)
        ensures
            final(self).length() == old(self).length(),
            final(self).sound() == old(self).sound(),
            pitch_read(old(self).progress(), output, final(self).progress(), r),
    {
        match output {
            Ok(values) => {
                if are_finite_singles(values.as_slice()) {
                    self.advance(true, Phase::Idle);
                    Ok(values)
                } else {
                    self.advance(false, Phase::Idle);
                    Err("nonfinite RMVPE output".to_owned())
                }
            },
            Err(e) => {
                self.advance(false, Phase::Idle);
                Err(e)
            },
        }
    }

    /// Whether what the graphs passed on can be looked at.
    pub fn observe(&self) -> (r: Result<(), String>)
        ensures
            goes_on(
                self.progress(),
                Phase::Idle,
                "GPU pitch failed; recreate it"@,
                "GPU pitch observation requires completed block"@,
                r,
            ),
    {
        if self.progress.failed {
            return Err("GPU pitch failed; recreate it".to_owned());
        }
        if self.progress.phase != Phase::Idle {
            return Err("GPU pitch observation requires completed block".to_owned());
        }
        Ok(())
    }

    /// A step was done: on success the block is in `next`, and otherwise no further one is taken.
    pub fn advance(&mut self, done: bool, next: Phase)
        ensures
            final(self).length() == old(self).length(),
            final(self).sound() == old(self).sound(),
            final(self).progress() == after(old(self).progress(), done, next),
    {
        self.progress = advanced(self.progress, done, next);
    }
}

/// Where a part is after a step.
pub open spec fn after(p: Progress, done: bool, next: Phase) -> Progress {
    if done {
        Progress { phase: next, ..p }
    } else {
        Progress { failed: true, ..p }
    }
}

fn advanced(p: Progress, done: bool, next: Phase) -> (r: Progress)
    ensures
        r == after(p, done, next),
{
    if done {
        Progress { phase: next, failed: p.failed }
    } else {
        Progress { phase: p.phase, failed: true }
    }
}

fn is_idle(p: Progress) -> (r: bool)
    ensures
        r == (p == Progress { phase: Phase::Idle, failed: false }),
{
    p.phase == Phase::Idle && !p.failed
}

fn window_indices(length: usize, frames: usize) -> (r: Vec<i64>)
    requires
        pitch_length(length),
        frames == mel::frames_of(length as int),
    ensures
        r@ == window_table(length as int, frames as int),
{
    let ghost want = window_table(length as int, frames as int);
    let mut out: Vec<i64> = Vec::new();
    let count: usize = frames * WINDOW;
    let mut i: usize = 0;
    while i < count
        invariant
            i <= count == frames * WINDOW,
            pitch_length(length),
            frames == mel::frames_of(length as int),
            want == window_table(length as int, frames as int),
            out@ == want.take(i as int),
        decreases count - i,
    {
        let at: usize = sample_index(length, i / WINDOW, i % WINDOW);
        out.push(at as i64);
        i += 1;
        assert(out@ =~= want.take(i as int));
    }
    assert(want.take(count as int) =~= want);
    out
}

fn pad_indices(frames: usize, padded: usize) -> (r: Vec<i64>)
    requires
        20 <= frames <= 1001,
        padded == mel::padded_of(frames as int),
    ensures
        r@ == pad_table(frames as int, padded as int),
{
    let ghost want = pad_table(frames as int, padded as int);
    let mut out: Vec<i64> = Vec::new();
    let mut i: usize = 0;
    while i < padded
        invariant
            i <= padded == mel::padded_of(frames as int),
            20 <= frames <= 1001,
            want == pad_table(frames as int, padded as int),
            out@ == want.take(i as int),
        decreases padded - i,
    {
        let at: usize = if i < frames {
            i
        } else {
            2 * frames - 2 - i
        };
        out.push(at as i64);
        i += 1;
        assert(out@ =~= want.take(i as int));
    }
    assert(want.take(padded as int) =~= want);
    out
}

/// Every entry of the tables is a sample of the window or a frame of the spectrogram.
pub proof fn law_tables_stay_inside(length: usize)
    requires
        pitch_length(length),
    ensures
        ({
            let frames = mel::frames_of(length as int);
            let padded = mel::padded_of(frames);
            &&& forall|i: int|
                0 <= i < frames * WINDOW ==> 0 <= #[trigger] window_table(length as int, frames)[i]
                    < length
            &&& forall|i: int| 0 <= i < padded ==> 0 <= #[trigger] pad_table(frames, padded)[i] < frames
        }),
{
    let frames = mel::frames_of(length as int);
    let padded = mel::padded_of(frames);
    assert forall|i: int| 0 <= i < frames * WINDOW implies 0 <= #[trigger] window_table(
        length as int,
        frames,
    )[i] < length by {
        mel::law_windows_stay_inside(length as int, i / WINDOW as int, i % WINDOW as int);
    }
    assert forall|i: int| 0 <= i < padded implies 0 <= #[trigger] pad_table(frames, padded)[i]
        < frames by {
        mel::law_padding_stays_inside(length as int, i);
    }
}

/// The features of a block.
pub struct GpuFeatures {
    length: usize,
    frames: usize,
    progress: Progress,
}

/// The feature frames of `length` samples: each sees 400 of them, and they stand 320 apart.
pub open spec fn feature_frames(length: int) -> int {
    (length - 400) / 320 + 1
}

/// The outputs of the feature graph.
pub open spec fn feature_outputs(frames: usize) -> Seq<PortValue> {
    seq![
        PortValue { name: "units9"@, elem: Elem::Half, shape: seq![1, frames, 256] },
        PortValue { name: "unit12"@, elem: Elem::Half, shape: seq![1, frames, 768] },
        PortValue { name: "unit12s"@, elem: Elem::Half, shape: seq![1, frames, 768] },
    ]
}

impl GpuFeatures {
    pub closed spec fn length(&self) -> usize {
        self.length
    }

    pub closed spec fn frames(&self) -> usize {
        self.frames
    }

    pub closed spec fn progress(&self) -> Progress {
        self.progress
    }

    /// Checks the length of a window.
    pub fn new(length: usize) -> (r: Result<GpuFeatures, String>)
        ensures
            if length >= 400 {
                &&& r matches Ok(g)
                &&& g.length() == length
                &&& g.frames() == feature_frames(length as int)
                &&& g.progress() == (Progress { phase: Phase::Idle, failed: false })
            } else {
                r matches Err(e) && e@ == "ContentVec input too short"@
            },
    {
        if length < 400 {
            return Err("ContentVec input too short".to_owned());
        }
        Ok(
            GpuFeatures {
                length,
                frames: (length - 400) / 320 + 1,
                progress: Progress { phase: Phase::Idle, failed: false },
            },
        )
    }

    /// The outputs of the graph.
    pub fn outputs(&self) -> (r: Vec<Port>)
        ensures
            plan::ports(r@) == feature_outputs(self.frames()),
    {
        let mut out: Vec<Port> = Vec::new();
        assert(plan::ports(out@) =~= seq![]);
        put_port(&mut out, "units9", Elem::Half, shape3(1, self.frames, 256));
        put_port(&mut out, "unit12", Elem::Half, shape3(1, self.frames, 768));
        put_port(&mut out, "unit12s", Elem::Half, shape3(1, self.frames, 768));
        out
    }

    /// Whether waiting can be changed: not while a block is under way.
    pub fn enable_blocking_wait(&self) -> (r: Result<(), String>)
        ensures
            if self.progress() == (Progress { phase: Phase::Idle, failed: false }) {
                r is Ok
            } else {
                r matches Err(e) && e@ == "ContentVec block pending or failed"@
            },
    {
        if is_idle(self.progress) {
            Ok(())
        } else {
            Err("ContentVec block pending or failed".to_owned())
        }
    }

    /// Whether a window can be uploaded.
    pub fn upload(&self, audio: &[u16]) -> (r: Result<(), String>)
        ensures
            feature_upload(self.progress(), self.length(), audio@, r),
    {
        if self.progress.failed || audio.len() != self.length || !are_finite(audio) {
            return Err("invalid ContentVec input or failed engine".to_owned());
        }
        if self.progress.phase != Phase::Idle {
            return Err("ContentVec block already pending".to_owned());
        }
        Ok(())
    }

    /// Whether the graph can be started.
    pub fn enqueue(&self) -> (r: Result<(), String>)
        ensures
            goes_on(
                self.progress(),
                Phase::Uploaded,
                "ContentVec failed; recreate it"@,
                "ContentVec enqueue requires upload"@,
                r,
            ),
    {
        if self.progress.failed {
            return Err("ContentVec failed; recreate it".to_owned());
        }
        if self.progress.phase != Phase::Uploaded {
            return Err("ContentVec enqueue requires upload".to_owned());
        }
        Ok(())
    }

    /// Whether a window that another stage put into the input can be taken: it counts as uploaded.
    pub fn enqueue_device(&mut self) -> (r: Result<(), String>)
        ensures
            final(self).length() == old(self).length(),
            final(self).frames() == old(self).frames(),
            taken_over(
                old(self).progress(),
                "ContentVec block pending or failed"@,
                final(self).progress(),
                r,
            ),
    {
        if !is_idle(self.progress) {
            return Err("ContentVec block pending or failed".to_owned());
        }
        self.progress = Progress { phase: Phase::Uploaded, failed: false };
        Ok(())
    }

    /// Whether the features can be read.
    pub fn finish(&self) -> (r: Result<(), String>)
        ensures
            goes_on(
                self.progress(),
                Phase::Queued,
                "ContentVec failed; recreate it"@,
                "ContentVec finish requires enqueue"@,
                r,
            ),
    {
        if self.progress.failed {
            return Err("ContentVec failed; recreate it".to_owned());
        }
        if self.progress.phase != Phase::Queued {
            return Err("ContentVec finish requires enqueue".to_owned());
        }
        Ok(())
    }

    /// The features were read. Ones that are not finite are no features.
    pub fn finished(&mut self, output: Result<Vec<u16>, String>) -> (r: Result<Vec<u16>, String>)
        ensures
            final(self).length() == old(self).length(),
            final(self).frames() == old(self).frames(),
            features_read(old(self).progress(), output, final(self).progress(), r),
    {
        match output {
            Ok(values) => {
                if are_finite(values.as_slice()) {
                    self.advance(true, Phase::Idle);
                    Ok(values)
                } else {
                    self.advance(false, Phase::Idle);
                    Err("nonfinite ContentVec output".to_owned())
                }
            },
            Err(e) => {
                self.advance(false, Phase::Idle);
                Err(e)
            },
        }
    }

    /// A step was done: on success the block is in `next`, and otherwise no further one is taken.
    pub fn advance(&mut self, done: bool, next: Phase)
        ensures
            final(self).length() == old(self).length(),
            final(self).frames() == old(self).frames(),
            final(self).progress() == after(old(self).progress(), done, next),
    {
        self.progress = advanced(self.progress, done, next);
    }
}

/// A failure is final: no step that is taken later undoes it.
pub proof fn law_failure_stays(p: Progress, done: bool, next: Phase)
    ensures
        p.failed ==> after(p, done, next).failed,
        !done ==> after(p, done, next).failed,
{
}

/// The row of a frame holds the places of the 1024 samples round its middle, 160 samples behind that of the
/// frame before, mirrored at the ends.
pub proof fn law_rows_are_windows(length: int, frames: int, frame: int, n: int)
    requires
        3040 <= length <= 160000,
        0 <= frame < frames,
        160 * frame <= length,
        0 <= n < 1024,
    ensures
        ({
            let at = window_table(length, frames)[1024 * frame + n] as int;
            let place = 160 * frame + n - 512;
            &&& window_table(length, frames).len() == 1024 * frames
            &&& 0 <= place < length ==> at == place
            &&& place < 0 ==> at == -place
            &&& place >= length ==> at == 2 * (length - 1) - place
        }),
{
    let i = 1024 * frame + n;
    assert(i / 1024 == frame && i % 1024 == n);
    assert(0 <= i < frames * 1024);
}

/// The padding goes back from the last frame.
pub proof fn law_padding_goes_back(frames: int, padded: int, i: int)
    requires
        0 < frames <= padded < 2 * frames,
        padded <= 0x10_0000,
        0 <= i < padded,
    ensures
        pad_table(frames, padded).len() == padded,
        i < frames ==> pad_table(frames, padded)[i] == i,
        i >= frames ==> pad_table(frames, padded)[i] + (i - (frames - 1)) == frames - 1,
{
}

/// A feature takes 400 samples, and the next begins 320 samples later: as many as fit.
pub proof fn law_features_take_their_samples(length: int)
    requires
        length >= 400,
    ensures
        feature_frames(length) >= 1,
        320 * (feature_frames(length) - 1) + 400 <= length < 320 * feature_frames(length) + 400,
{
}

/// What the features leave: rows of 256 values of the ninth layer and of 768 of the twelfth, one a frame.
pub proof fn law_features_are_rows(frames: usize)
    ensures
        ({
            let p = feature_outputs(frames);
            &&& p.len() == 3
            &&& p[0].name == "units9"@ && p[0].shape == seq![1, frames, 256]
            &&& p[1].name == "unit12"@ && p[1].shape == seq![1, frames, 768]
            &&& p[2].name == "unit12s"@ && p[2].shape == p[1].shape
            &&& forall|i: int| 0 <= i < 3 ==> (#[trigger] p[i]).elem is Half
        }),
{
}

/// A step that was done goes on and leaves the rest; one that failed leaves the phase.
pub proof fn law_steps_go_on(p: Progress, next: Phase)
    ensures
        after(p, true, next).phase == next && after(p, true, next).failed == p.failed,
        after(p, false, next).phase == p.phase && after(p, false, next).failed,
{
}

/// Analysed are 190 ms to 10 s of finite samples at 16 kHz.
pub proof fn law_windows_are_analysed(audio: Seq<u16>, length: usize)
    ensures
        pitch_length(length) <==> 190 * 16 <= length <= 10 * 16000,
        input_good(audio, length) <==> audio.len() == length && forall|i: int|
            0 <= i < audio.len() ==> #[trigger] audio[i] % 0x8000 < 0x7c00,
{
}

/// Only contents of one hash match a contract that is supported: of its schema, algorithm and export.
pub proof fn law_contract_fixes_the_hash(c: JsonValue, name: Seq<char>, a: Seq<u8>, b: Seq<u8>)
    ensures
        contract_supported(c) <==> json::member(c, "schema"@) == JsonValue::Natural(2) && json::member(
            c,
            "algorithm"@,
        ) == JsonValue::Text("tg-cufft-rmvpe-v2"@) && json::member(c, "model_export"@)
            == JsonValue::Text("unfused-conv-bn"@),
        pitch_asset_matches(c, name, a) && pitch_asset_matches(c, name, b) ==> voice_model::sha256(a)
            == voice_model::sha256(b),
        pitch_asset_matches(c, name, a) && voice_model::sha256(a) == voice_model::sha256(b)
            ==> pitch_asset_matches(c, name, b),
        json::member(json::member(c, "files"@), name) == JsonValue::Null ==> !pitch_asset_matches(
            c,
            name,
            a,
        ),
{
    if pitch_asset_matches(c, name, a) && pitch_asset_matches(c, name, b) {
        text::law_hex_is_injective(voice_model::sha256(a), voice_model::sha256(b));
    }
}

/// Whether a step that needs the block in a phase is answered so.
pub open spec fn goes_on(
    p: Progress,
    needed: Phase,
    broken: Seq<char>,
    early: Seq<char>,
    r: Result<(), String>,
) -> bool {
    if p.failed {
        r matches Err(e) && e@ == broken
    } else if p.phase != needed {
        r matches Err(e) && e@ == early
    } else {
        r is Ok
    }
}

/// Whether a window of the pitch is uploaded so.
pub open spec fn pitch_upload(p: Progress, length: usize, audio: Seq<u16>, r: Result<(), String>) -> bool {
    if p.failed {
        r matches Err(e) && e@ == "GPU pitch failed; recreate it"@
    } else if p.phase != Phase::Idle {
        r matches Err(e) && e@ == "GPU pitch block already pending"@
    } else if !input_good(audio, length) {
        r matches Err(e) && e@ == "invalid pitch input"@
    } else {
        r is Ok
    }
}

/// Whether a window of the features is uploaded so.
pub open spec fn feature_upload(p: Progress, length: usize, audio: Seq<u16>, r: Result<(), String>) -> bool {
    if p.failed || !input_good(audio, length) {
        r matches Err(e) && e@ == "invalid ContentVec input or failed engine"@
    } else if p.phase != Phase::Idle {
        r matches Err(e) && e@ == "ContentVec block already pending"@
    } else {
        r is Ok
    }
}

/// Whether a window that another stage put into the input is taken over so.
pub open spec fn taken_over(before: Progress, pending: Seq<char>, next: Progress, r: Result<(), String>) -> bool {
    if before == (Progress { phase: Phase::Idle, failed: false }) {
        &&& r is Ok
        &&& next == (Progress { phase: Phase::Uploaded, failed: false })
    } else {
        &&& r matches Err(e)
        &&& e@ == pending
        &&& next == before
    }
}

/// Whether a pitch that was read ends a block so.
pub open spec fn pitch_read(
    before: Progress,
    output: Result<Vec<u32>, String>,
    next: Progress,
    r: Result<Vec<u32>, String>,
) -> bool {
    match output {
        Ok(values) => if generator::all_finite_singles(values@) {
            &&& r == Ok::<Vec<u32>, String>(values)
            &&& next == after(before, true, Phase::Idle)
        } else {
            &&& r matches Err(e)
            &&& e@ == "nonfinite RMVPE output"@
            &&& next == after(before, false, Phase::Idle)
        },
        Err(e) => {
            &&& r == Err::<Vec<u32>, String>(e)
            &&& next == after(before, false, Phase::Idle)
        },
    }
}

/// Whether features that were read end a block so.
pub open spec fn features_read(
    before: Progress,
    output: Result<Vec<u16>, String>,
    next: Progress,
    r: Result<Vec<u16>, String>,
) -> bool {
    match output {
        Ok(values) => if generator::all_finite(values@) {
            &&& r == Ok::<Vec<u16>, String>(values)
            &&& next == after(before, true, Phase::Idle)
        } else {
            &&& r matches Err(e)
            &&& e@ == "nonfinite ContentVec output"@
            &&& next == after(before, false, Phase::Idle)
        },
        Err(e) => {
            &&& r == Err::<Vec<u16>, String>(e)
            &&& next == after(before, false, Phase::Idle)
        },
    }
}

/// A block goes through its phases in order, and a failed stage goes through none: a step is taken exactly in the
/// phase that it needs.
pub proof fn law_steps_are_taken_in_order(
    p: Progress,
    needed: Phase,
    broken: Seq<char>,
    early: Seq<char>,
    r: Result<(), String>,
)
    requires
        goes_on(p, needed, broken, early, r),
    ensures
        r is Ok <==> p == (Progress { phase: needed, failed: false }),
        r is Err && p.failed ==> r->Err_0@ == broken,
        r is Err && !p.failed ==> r->Err_0@ == early,
{
}

/// A window is uploaded, or taken over, exactly where no block is under way, nothing has failed, and the samples are
/// as many as they should be and finite.
pub proof fn law_idle_stages_take_windows(
    p: Progress,
    length: usize,
    audio: Seq<u16>,
    pitch: Result<(), String>,
    features: Result<(), String>,
    pending: Seq<char>,
    next: Progress,
    over: Result<(), String>,
)
    requires
        pitch_upload(p, length, audio, pitch),
        feature_upload(p, length, audio, features),
        taken_over(p, pending, next, over),
    ensures
        pitch is Ok <==> {
            &&& p.phase == Phase::Idle && !p.failed
            &&& audio.len() == length
            &&& forall|i: int| 0 <= i < audio.len() ==> #[trigger] audio[i] % 0x8000 < 0x7c00
        },
        features is Ok <==> pitch is Ok,
        over is Ok <==> p.phase == Phase::Idle && !p.failed,
        over is Ok ==> next.phase == Phase::Uploaded && !next.failed,
        over is Err ==> next == p,
{
}

/// Finite values are handed on as they are and end the block; others, or none, end the stage.
pub proof fn law_finite_values_end_the_block(
    before: Progress,
    pitch: Result<Vec<u32>, String>,
    after_pitch: Progress,
    p: Result<Vec<u32>, String>,
    features: Result<Vec<u16>, String>,
    after_features: Progress,
    f: Result<Vec<u16>, String>,
)
    requires
        pitch_read(before, pitch, after_pitch, p),
        features_read(before, features, after_features, f),
    ensures
        p is Ok <==> pitch is Ok && forall|i: int|
            0 <= i < pitch->Ok_0@.len() ==> #[trigger] pitch->Ok_0@[i] % 0x8000_0000 < 0x7f80_0000,
        p is Ok ==> p == pitch && after_pitch.phase == Phase::Idle && after_pitch.failed == before.failed,
        p is Err ==> after_pitch.failed,
        f is Ok <==> features is Ok && forall|i: int|
            0 <= i < features->Ok_0@.len() ==> #[trigger] features->Ok_0@[i] % 0x8000 < 0x7c00,
        f is Ok ==> f == features && after_features.phase == Phase::Idle && after_features.failed
            == before.failed,
        f is Err ==> after_features.failed,
{
}

} // verus!
