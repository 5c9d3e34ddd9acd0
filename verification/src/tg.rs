//! The state of the low-latency path between blocks, and what it checks of its assets, its live
//! parameters and its results. Halves, singles and doubles are their bits.
use crate::bits;
use crate::input;
use crate::input::{InputTimeline, OutputTaps};
use crate::pitch;
use crate::pitch::{Estimates, PitchState, PitchValue};
use crate::bits::{is_at_least, is_between, is_finite_single, widen};
use crate::json;
use crate::json::{parse_document, Json, JsonValue};
use crate::startup;
use crate::startup::{Counts, Dims, Startup};
use crate::text;
use crate::text::{hex, join, same};
use crate::voice_model;
use crate::voice_model::digest;
use vstd::prelude::*;
use vstd::string::*;

verus! {

broadcast use vstd::string::group_string_axioms;

/// Choices of a trial. The ordinary path only waits without spinning; what changes the audio is off.
#[derive(Clone, Copy, PartialEq, Eq, Structural)]
pub struct Trial {
    pub full_pitch_context: bool,
    pub serial_analysis: bool,
    pub delayed_input: bool,
    pub precise_volume: bool,
    pub aligned_pitch_history: bool,
    pub blocking_analysis_wait: bool,
}

impl Default for Trial {
    fn default() -> (r: Trial)
        ensures
            r == (Trial {
                full_pitch_context: false,
                serial_analysis: false,
                delayed_input: false,
                precise_volume: false,
                aligned_pitch_history: false,
                blocking_analysis_wait: false,
            }),
    {
        Trial {
            full_pitch_context: false,
            serial_analysis: false,
            delayed_input: false,
            precise_volume: false,
            aligned_pitch_history: false,
            blocking_analysis_wait: false,
        }
    }
}

/// The lengths of a trial: those of the path without context, with the whole context for the pitch
/// where that is chosen.
pub open spec fn trial_dims(
    t: Trial,
    s: Startup,
    rate: usize,
    c: Counts,
    formant_length: usize,
    scaled_window: usize,
) -> Result<Dims, Seq<char>> {
    match startup::computed(s, rate, c, formant_length, scaled_window, true) {
        Err(e) => Err(e),
        Ok(d) => if t.aligned_pitch_history && d.block * 100 % s.sample_rate as int != 0 {
            Err("aligned pitch history PoC requires an exact 10ms input hop"@)
        } else if t.full_pitch_context {
            Ok(Dims { silence_front: 0, ..d })
        } else {
            Ok(d)
        },
    }
}

impl Trial {
    /// The lengths of a trial.
    pub fn dimensions(
        &self,
        s: &Startup,
        rate: usize,
        c: &Counts,
        formant_length: usize,
        scaled_window: usize,
    ) -> (r: Result<Dims, String>)
        requires
            c.countable(),
            startup::generation_countable(
                startup::window_of(*s, *c, true),
                rate,
                formant_length,
                scaled_window,
            ),
        ensures
            match trial_dims(*self, *s, rate, *c, formant_length, scaled_window) {
                Ok(d) => r == Ok::<Dims, String>(d),
                Err(text) => r matches Err(e) && e@ == text,
            },
    {
        match s.tg_dims(rate, c, formant_length, scaled_window) {
            Ok(d) => {
                let mut dims: Dims = d;
                if self.aligned_pitch_history && dims.block * 100 % s.sample_rate != 0 {
                    return Err(
                        "aligned pitch history PoC requires an exact 10ms input hop".to_owned(),
                    );
                }
                if self.full_pitch_context {
                    dims.silence_front = 0;
                }
                Ok(dims)
            },
            Err(e) => Err(e),
        }
    }
}

/// The whole pitch context changes the analysis only: every other length stays, and nothing is
/// refused that was not refused before.
pub proof fn law_full_context_changes_analysis_only(
    t: Trial,
    s: Startup,
    rate: usize,
    c: Counts,
    formant_length: usize,
    scaled_window: usize,
)
    ensures
        ({
            let narrow = trial_dims(
                Trial { full_pitch_context: false, ..t },
                s,
                rate,
                c,
                formant_length,
                scaled_window,
            );
            let whole = trial_dims(
                Trial { full_pitch_context: true, ..t },
                s,
                rate,
                c,
                formant_length,
                scaled_window,
            );
            match narrow {
                Ok(d) => whole == Ok::<Dims, Seq<char>>(Dims { silence_front: 0, ..d }),
                Err(e) => whole == Err::<Dims, Seq<char>>(e),
            }
        }),
{
}

/// An array of texts.
pub open spec fn text_array(xs: Seq<Seq<char>>) -> JsonValue {
    JsonValue::Array(Seq::new(xs.len(), |i: int| JsonValue::Text(xs[i])))
}

/// The ports of the feature graph.
pub open spec fn contentvec_ports() -> Seq<Seq<char>> {
    seq!["audio:float16"@, "units9:float16"@, "unit12:float16"@, "unit12s:float16"@]
}

/// The ports of the salience graph.
pub open spec fn rmvpe_ports() -> Seq<Seq<char>> {
    seq!["mel:float16"@, "salience:float16"@]
}

/// The ports of the graph that ends a block.
pub open spec fn post_ports() -> Seq<Seq<char>> {
    seq![
        "generated:float32"@,
        "volume:float16"@,
        "active:bool"@,
        "sola_buffer:float32"@,
        "formant_kernel:float32"@,
        "formant_indices:int64"@,
        "formant_output_length:int64"@,
        "output_kernel:float32"@,
        "output_indices:int64"@,
        "output_length:int64"@,
        "fade_in:float32"@,
        "fade_out:float32"@,
        "gather_range:int64"@,
        "search_end:int64"@,
        "block_length:int64"@,
        "audio_model:float32"@,
        "pre_sola:float32"@,
        "sola_offset:int64"@,
        "output:float32"@,
        "next_sola_buffer:float32"@,
    ]
}

/// The ports of a graph, by the name of its file.
pub open spec fn graph_ports(name: Seq<char>) -> Option<Seq<Seq<char>>> {
    if name == "contentvec.onnx"@ {
        Some(contentvec_ports())
    } else if name == "rmvpe-salience.onnx"@ {
        Some(rmvpe_ports())
    } else if name == "post.onnx"@ {
        Some(post_ports())
    } else {
        None
    }
}

fn owned(xs: Vec<&str>) -> (r: Vec<String>)
    ensures
        text::texts(r@) == Seq::new(xs@.len(), |i: int| xs@[i]@),
{
    let mut out: Vec<String> = Vec::new();
    let mut i: usize = 0;
    while i < xs.len()
        invariant
            i <= xs@.len(),
            out@.len() == i,
            forall|j: int| 0 <= j < i ==> (#[trigger] out@[j])@ == xs@[j]@,
        decreases xs@.len() - i,
    {
        out.push(xs[i].to_owned());
        i += 1;
    }
    assert(text::texts(out@) =~= Seq::new(xs@.len(), |j: int| xs@[j]@));
    out
}

/// The ports that a graph has to have: inputs and outputs with their element types, in order.
pub fn expected_ports(name: &str) -> (r: Option<Vec<String>>)
    ensures
        match graph_ports(name@) {
            Some(ports) => r matches Some(p) && text::texts(p@) == ports,
            None => r is None,
        },
{
    let ports: Vec<&str> = if same(name, "contentvec.onnx") {
        vec!["audio:float16", "units9:float16", "unit12:float16", "unit12s:float16"]
    } else if same(name, "rmvpe-salience.onnx") {
        vec!["mel:float16", "salience:float16"]
    } else if same(name, "post.onnx") {
        vec![
            "generated:float32",
            "volume:float16",
            "active:bool",
            "sola_buffer:float32",
            "formant_kernel:float32",
            "formant_indices:int64",
            "formant_output_length:int64",
            "output_kernel:float32",
            "output_indices:int64",
            "output_length:int64",
            "fade_in:float32",
            "fade_out:float32",
            "gather_range:int64",
            "search_end:int64",
            "block_length:int64",
            "audio_model:float32",
            "pre_sola:float32",
            "sola_offset:int64",
            "output:float32",
            "next_sola_buffer:float32",
        ]
    } else {
        return None;
    };
    let ghost want = graph_ports(name@)->0;
    assert(Seq::new(ports@.len(), |i: int| ports@[i]@) =~= want);
    Some(owned(ports))
}

/// Whether the value is the array of these texts.
fn is_text_array(v: Option<&Json>, ports: &Vec<String>) -> (r: bool)
    ensures
        r == (v matches Some(w) && w@ == text_array(text::texts(ports@))),
{
    match v {
        Some(Json::Array(xs)) => {
            proof {
                json::lemma_json_array(*xs);
            }
            let ghost a = json::json_views(xs@);
            let ghost b = text::texts(ports@);
            if xs.len() != ports.len() {
                assert(text_array(b)->Array_0.len() == b.len());
                return false;
            }
            let mut i: usize = 0;
            while i < xs.len()
                invariant
                    i <= xs@.len() == ports@.len(),
                    v matches Some(w) && w@ == JsonValue::Array(a),
                    a == json::json_views(xs@),
                    b == text::texts(ports@),
                    forall|j: int| 0 <= j < i ==> #[trigger] a[j] == JsonValue::Text(b[j]),
                decreases xs@.len() - i,
            {
                let good: bool = match &xs[i] {
                    Json::Text(s) => same(s.as_str(), ports[i].as_str()),
                    _ => false,
                };
                if !good {
                    assert(a[i as int] != JsonValue::Text(b[i as int]));
                    assert(text_array(b)->Array_0[i as int] == JsonValue::Text(b[i as int]));
                    return false;
                }
                i += 1;
            }
            assert(a =~= text_array(b)->Array_0);
            true
        },
        _ => false,
    }
}

/// Whether the manifest of the audio assets is one of this path.
pub open spec fn manifest_supported(m: JsonValue) -> bool {
    &&& json::member(m, "schema"@) == JsonValue::Natural(1)
    &&& json::member(m, "algorithm"@) == JsonValue::Text("tg-fast-v1"@)
    &&& json::member(m, "generator_kind"@) == JsonValue::Text("deiteris-onnx-v1"@)
    &&& json::member(m, "tf32"@) == JsonValue::Bool(false)
}

/// Whether the manifest names the ports that the graphs have to have.
pub open spec fn manifest_ports(m: JsonValue) -> bool {
    let ports = json::member(m, "ports"@);
    &&& json::member(ports, "contentvec"@) == text_array(contentvec_ports())
    &&& json::member(ports, "rmvpe"@) == text_array(rmvpe_ports())
    &&& json::member(ports, "post"@) == text_array(post_ports())
}

/// Checks the manifest of the audio assets.
pub fn check_manifest(manifest: &Json) -> (r: Result<(), String>)
    ensures
        if !manifest_supported(manifest@) {
            r matches Err(e) && e@ == "unsupported audio contract"@
        } else if !manifest_ports(manifest@) {
            r matches Err(e) && e@ == "unsupported audio port contract"@
        } else {
            r is Ok
        },
{
    let off: bool = match manifest.get("tf32") {
        Some(Json::Bool(b)) => !*b,
        _ => false,
    };
    if !manifest.has_number("schema", 1) || !manifest.has_text("algorithm", "tg-fast-v1")
        || !manifest.has_text("generator_kind", "deiteris-onnx-v1") || !off {
        return Err("unsupported audio contract".to_owned());
    }
    let good: bool = match manifest.get("ports") {
        Some(ports) => {
            match (
                expected_ports("contentvec.onnx"),
                expected_ports("rmvpe-salience.onnx"),
                expected_ports("post.onnx"),
            ) {
                (Some(a), Some(b), Some(c)) => {
                    proof {
                        reveal_strlit("contentvec.onnx");
                        reveal_strlit("rmvpe-salience.onnx");
                        reveal_strlit("post.onnx");
                        assert("rmvpe-salience.onnx"@[0] != "contentvec.onnx"@[0]);
                        assert("post.onnx"@[0] != "contentvec.onnx"@[0]);
                        assert("post.onnx"@[0] != "rmvpe-salience.onnx"@[0]);
                        assert(graph_ports("contentvec.onnx"@) == Some(contentvec_ports()));
                        assert(graph_ports("rmvpe-salience.onnx"@) == Some(rmvpe_ports()));
                        assert(graph_ports("post.onnx"@) == Some(post_ports()));
                    }
                    is_text_array(ports.get("contentvec"), &a) && is_text_array(
                        ports.get("rmvpe"),
                        &b,
                    ) && is_text_array(ports.get("post"), &c)
                },
                _ => false,
            }
        },
        None => false,
    };
    if !good {
        return Err("unsupported audio port contract".to_owned());
    }
    Ok(())
}

/// Whether the manifest has the digest of a file.
pub open spec fn asset_matches(m: JsonValue, name: Seq<char>, contents: Seq<u8>) -> bool {
    json::member(json::member(m, "files"@), name) == JsonValue::Text(
        text::hex_of(voice_model::sha256(contents)),
    )
}

/// Checks a file against the manifest.
pub fn check_asset(manifest: &Json, name: &str, contents: &[u8]) -> (r: Result<(), String>)
    ensures
        if asset_matches(manifest@, name@, contents@) {
            r is Ok
        } else {
            r matches Err(e) && e@ == "audio asset hash mismatch: "@ + name@
        },
{
    let empty: Vec<u8> = Vec::new();
    let nothing: &[u8] = empty.as_slice();
    assert(nothing@ + contents@ + nothing@ + nothing@ =~= contents@);
    let digest = hex(&digest(nothing, contents, nothing, nothing));
    let good: bool = match manifest.get("files") {
        Some(files) => files.has_text(name, digest.as_str()),
        None => false,
    };
    if good {
        Ok(())
    } else {
        Err(join("audio asset hash mismatch: ", name))
    }
}

/// The contents of the files that the manifest of the audio assets names.
pub struct AudioFiles {
    pub contentvec: Vec<u8>,
    pub rmvpe: Vec<u8>,
    pub post: Vec<u8>,
    pub mel_basis: Vec<u8>,
    pub hann: Vec<u8>,
}

/// What is wrong with a file of the manifest.
pub open spec fn asset_fault(m: JsonValue, name: Seq<char>, contents: Seq<u8>) -> Option<Seq<char>> {
    if asset_matches(m, name, contents) {
        None
    } else {
        Some("audio asset hash mismatch: "@ + name)
    }
}

/// The first of two faults.
pub open spec fn first_fault(a: Option<Seq<char>>, b: Option<Seq<char>>) -> Option<Seq<char>> {
    if a is Some {
        a
    } else {
        b
    }
}

/// What is wrong with the audio assets.
pub open spec fn assets_fault(m: JsonValue, f: AudioFiles) -> Option<Seq<char>> {
    if !manifest_supported(m) {
        Some("unsupported audio contract"@)
    } else if !manifest_ports(m) {
        Some("unsupported audio port contract"@)
    } else {
        first_fault(
            asset_fault(m, "contentvec.onnx"@, f.contentvec@),
            first_fault(
                asset_fault(m, "rmvpe-salience.onnx"@, f.rmvpe@),
                first_fault(
                    asset_fault(m, "post.onnx"@, f.post@),
                    first_fault(
                        asset_fault(m, "mel-basis.f32"@, f.mel_basis@),
                        asset_fault(m, "hann.f32"@, f.hann@),
                    ),
                ),
            ),
        )
    }
}

/// Checks the audio assets against their manifest, whose bytes are `contract`.
pub fn validate_assets(contract: &[u8], files: &AudioFiles) -> (r: Result<(), String>)
    ensures
        match json::json_document(contract@) {
            Err(e) => r matches Err(m) && m@ == e,
            Ok(v) => match assets_fault(v, *files) {
                Some(text) => r matches Err(m) && m@ == text,
                None => r is Ok,
            },
        },
{
    let manifest = match parse_document(contract) {
        Ok(v) => v,
        Err(e) => {
            return Err(e);
        },
    };
    match check_manifest(&manifest) {
        Ok(_) => {},
        Err(e) => {
            return Err(e);
        },
    }
    match check_asset(&manifest, "contentvec.onnx", files.contentvec.as_slice()) {
        Ok(_) => {},
        Err(e) => {
            return Err(e);
        },
    }
    match check_asset(&manifest, "rmvpe-salience.onnx", files.rmvpe.as_slice()) {
        Ok(_) => {},
        Err(e) => {
            return Err(e);
        },
    }
    match check_asset(&manifest, "post.onnx", files.post.as_slice()) {
        Ok(_) => {},
        Err(e) => {
            return Err(e);
        },
    }
    match check_asset(&manifest, "mel-basis.f32", files.mel_basis.as_slice()) {
        Ok(_) => {},
        Err(e) => {
            return Err(e);
        },
    }
    check_asset(&manifest, "hann.f32", files.hann.as_slice())
}

/// The salience of the frames of a window, without that of the frames that it was padded with.
pub fn salience(hidden: &[u16], frames: usize, padded: usize) -> (r: Result<Vec<u16>, String>)
    requires
        frames <= padded,
    ensures
        if hidden@.len() == padded * 360 {
            r matches Ok(out) && out@ == hidden@.take(frames * 360)
        } else {
            r matches Err(e) && e@ == "RMVPE frame mismatch"@
        },
{
    let len: usize = hidden.len();
    if len % 360 != 0 || len / 360 != padded {
        return Err("RMVPE frame mismatch".to_owned());
    }
    let end: usize = frames * 360;
    let mut out: Vec<u16> = Vec::new();
    let mut i: usize = 0;
    while i < end
        invariant
            i <= end <= hidden@.len(),
            out@ == hidden@.take(i as int),
        decreases end - i,
    {
        out.push(hidden[i]);
        i += 1;
        assert(out@ =~= hidden@.take(i as int));
    }
    Ok(out)
}

/// Whether live parameters are in range.
pub open spec fn live_parameters(pitch: u64, threshold_db: u64) -> bool {
    bits::double_between(threshold_db, -120, 0) && bits::double_between(pitch, -48, 48)
}

proof fn lemma_bounds()
    ensures
        bits::exact_double(0) == 0,
        bits::exact_double(-120) == 0xc05e_0000_0000_0000,
        bits::exact_double(48) == 0x4048_0000_0000_0000,
        bits::exact_double(-48) == 0xc048_0000_0000_0000,
{
    reveal_with_fuel(bits::highest_bit, 8);
    vstd::arithmetic::power2::lemma2_to64();
    vstd::arithmetic::power2::lemma2_to64_rest();
}

/// Checks live parameters.
pub fn check_live(pitch: u64, threshold_db: u64) -> (r: Result<(), String>)
    ensures
        if live_parameters(pitch, threshold_db) {
            r is Ok
        } else {
            r matches Err(e) && e@ == "invalid live parameters"@
        },
{
    proof {
        lemma_bounds();
    }
    if is_between(threshold_db, 0xc05e_0000_0000_0000, 0) && is_between(
        pitch,
        0xc048_0000_0000_0000,
        0x4048_0000_0000_0000,
    ) {
        Ok(())
    } else {
        Err("invalid live parameters".to_owned())
    }
}

/// A cache after values came in: the last values of both together.
pub open spec fn appended(cache: Seq<u16>, values: Seq<u16>) -> Seq<u16> {
    (cache + values).skip(values.len() as int)
}

/// Puts values behind those of a cache, which stays as long as it is.
pub fn append(cache: &mut Vec<u16>, values: &[u16])
    ensures
        final(cache)@ == appended(old(cache)@, values@),
        final(cache)@.len() == old(cache)@.len(),
{
    let n: usize = cache.len();
    let m: usize = values.len();
    let count: usize = if m < n {
        m
    } else {
        n
    };
    let ghost before = cache@;
    let ghost want = appended(before, values@);
    let mut i: usize = 0;
    while i < n - count
        invariant
            i <= n - count,
            count <= n == before.len(),
            count == if m < n { m } else { n },
            m == values@.len(),
            want == appended(before, values@),
            cache@.len() == n,
            forall|j: int| 0 <= j < i ==> cache@[j] == want[j],
            forall|j: int| i <= j < n ==> cache@[j] == before[j],
        decreases n - count - i,
    {
        let v: u16 = cache[i + count];
        cache.set(i, v);
        i += 1;
    }
    let mut k: usize = 0;
    while k < count
        invariant
            k <= count <= n == before.len(),
            count == if m < n { m } else { n },
            m == values@.len(),
            want == appended(before, values@),
            cache@.len() == n,
            forall|j: int| 0 <= j < n - count + k ==> cache@[j] == want[j],
        decreases count - k,
    {
        cache.set(n - count + k, values[m - count + k]);
        k += 1;
    }
    assert(cache@ =~= want);
}

/// The features of a row.
pub const FEATURE_SIZE: usize = 768;

/// The feature rows of a context: each row for two frames, the last one for those behind it.
pub open spec fn expanded(rows: Seq<u16>, frames: int) -> Seq<u16> {
    let count = rows.len() as int / 768;
    Seq::new(
        (frames * 768) as nat,
        |i: int| {
            let row = if i / 768 / 2 < count {
                i / 768 / 2
            } else {
                count - 1
            };
            rows[row * 768 + i % 768]
        },
    )
}

/// Doubles the feature rows of a context of `frames` frames.
pub fn expand_features(rows: &[u16], frames: usize) -> (r: Result<Vec<u16>, String>)
    ensures
        if rows@.len() / 768 > 0 && 2 * (rows@.len() / 768 + 1) >= frames {
            r matches Ok(out) && out@ == expanded(rows@, frames as int)
        } else {
            r matches Err(e) && e@ == "ContentVec frame mismatch"@
        },
{
    let len: usize = rows.len();
    let count: usize = len / 768;
    if count == 0 || count + 1 < frames - frames / 2 {
        return Err("ContentVec frame mismatch".to_owned());
    }
    let ghost want = expanded(rows@, frames as int);
    let mut out: Vec<u16> = Vec::new();
    let mut frame: usize = 0;
    while frame < frames
        invariant
            frame <= frames,
            count == len / 768,
            count > 0,
            len == rows@.len(),
            want == expanded(rows@, frames as int),
            out@ == want.take(frame * 768),
        decreases frames - frame,
    {
        let half: usize = frame / 2;
        let row: usize = if half < count {
            half
        } else {
            count - 1
        };
        let from: usize = row * 768;
        let mut k: usize = 0;
        while k < 768
            invariant
                k <= 768,
                frame < frames,
                count == len / 768,
                count > 0,
                len == rows@.len(),
                row < count,
                row == if frame / 2 < count { frame as int / 2 } else { count - 1 },
                from == row * 768,
                want == expanded(rows@, frames as int),
                out@ == want.take(frame * 768 + k),
            decreases 768 - k,
        {
            proof {
                let i = frame * 768 + k;
                assert(i / 768 == frame);
                assert(i % 768 == k);
                assert(want[i] == rows@[row * 768 + k]);
            }
            out.push(rows[from + k]);
            k += 1;
            assert(out@ =~= want.take(frame * 768 + k));
        }
        frame += 1;
    }
    assert(want.take(frames * 768) =~= want);
    Ok(out)
}

/// Whether an input of the loudness `volume` is loud enough to be heard.
pub open spec fn loud(volume: u16, sensitivity: u32) -> bool {
    bits::single_at_least(bits::widened(volume), sensitivity)
}

/// Whether an input of the loudness `volume` is loud enough to be heard.
pub fn is_loud(volume: u16, sensitivity: u32) -> (r: bool)
    ensures
        r == loud(volume, sensitivity),
{
    is_at_least(widen(volume), sensitivity)
}

/// The state of a path between blocks.
pub struct Blocks {
    block: usize,
    crossfade: usize,
    audio: Vec<u16>,
    context: Vec<u16>,
    sola: Vec<u32>,
    output: Vec<u32>,
    failed: bool,
}

/// What a [`Blocks`] holds.
pub struct BlocksValue {
    pub audio: Seq<u16>,
    pub context: Seq<u16>,
    /// What the next block is joined to.
    pub sola: Seq<u32>,
    pub output: Seq<u32>,
    pub failed: bool,
}

impl View for Blocks {
    type V = BlocksValue;

    closed spec fn view(&self) -> BlocksValue {
        BlocksValue {
            audio: self.audio@,
            context: self.context@,
            sola: self.sola@,
            output: self.output@,
            failed: self.failed,
        }
    }
}

/// A path before anything came in.
pub open spec fn silent_blocks(d: Dims) -> BlocksValue {
    BlocksValue {
        audio: Seq::new(d.audio as nat, |i: int| 0u16),
        context: Seq::new(d.convert as nat, |i: int| 0u16),
        sola: Seq::new(d.crossfade as nat, |i: int| 0u32),
        output: Seq::new(d.block as nat, |i: int| 0u32),
        failed: false,
    }
}

/// Whether a result has the size of a block and is finite throughout.
pub open spec fn good_output(output: Seq<u32>, block: int) -> bool {
    output.len() == block && forall|i: int|
        0 <= i < output.len() ==> bits::single_is_finite(#[trigger] output[i])
}

fn zero_halves(n: usize) -> (r: Vec<u16>)
    ensures
        r@ == Seq::new(n as nat, |i: int| 0u16),
{
    let r: Vec<u16> = vec![0u16; n];
    assert(r@ =~= Seq::new(n as nat, |i: int| 0u16));
    r
}

pub(crate) fn zero_singles(n: usize) -> (r: Vec<u32>)
    ensures
        r@ == Seq::new(n as nat, |i: int| 0u32),
{
    let r: Vec<u32> = vec![0u32; n];
    assert(r@ =~= Seq::new(n as nat, |i: int| 0u32));
    r
}

impl Blocks {
    pub closed spec fn block_len(&self) -> int {
        self.block as int
    }

    pub closed spec fn crossfade_len(&self) -> int {
        self.crossfade as int
    }

    /// A path before anything came in.
    pub fn new(d: &Dims) -> (r: Blocks)
        ensures
            r.block_len() == d.block,
            r.crossfade_len() == d.crossfade,
            r@ == silent_blocks(*d),
    {
        Blocks {
            block: d.block,
            crossfade: d.crossfade,
            audio: zero_halves(d.audio),
            context: zero_halves(d.convert),
            sola: zero_singles(d.crossfade),
            output: zero_singles(d.block),
            failed: false,
        }
    }

    /// A block is to be processed: not after a failure, and not with live parameters out of range.
    pub fn begin(&mut self, pitch: u64, threshold_db: u64) -> (r: Result<(), String>)
        ensures
            final(self).block_len() == old(self).block_len(),
            final(self).crossfade_len() == old(self).crossfade_len(),
            begins(old(self)@, pitch, threshold_db, final(self)@, r),
    {
        if self.failed {
            return Err("failed engine must be recreated".to_owned());
        }
        match check_live(pitch, threshold_db) {
            Ok(_) => Ok(()),
            Err(e) => {
                self.failed = true;
                Err(e)
            },
        }
    }

    /// The samples of a block at 16 kHz came in.
    pub fn take(&mut self, values: &[u16])
        ensures
            final(self).block_len() == old(self).block_len(),
            final(self).crossfade_len() == old(self).crossfade_len(),
            final(self)@ == (BlocksValue {
                audio: appended(old(self)@.audio, values@),
                context: appended(old(self)@.context, values@),
                ..old(self)@
            }),
    {
        append(&mut self.audio, values);
        append(&mut self.context, values);
    }

    /// What the loudness of the input is taken from.
    pub fn audio(&self) -> (r: &Vec<u16>)
        ensures
            r@ == self@.audio,
    {
        &self.audio
    }

    /// What the features and the pitch are taken from.
    pub fn context(&self) -> (r: &Vec<u16>)
        ensures
            r@ == self@.context,
    {
        &self.context
    }

    /// What the next block is joined to.
    pub fn sola(&self) -> (r: &Vec<u32>)
        ensures
            r@ == self@.sola,
    {
        &self.sola
    }

    /// A block was generated. Where its input was loud enough the next one is joined to its end, and
    /// otherwise to silence. A result that is not a finite block ends the path.
    pub fn finish(&mut self, output: &[u32], active: bool, next: Vec<u32>) -> (r: Result<Vec<u32>, String>)
        requires
            next@.len() == old(self).crossfade_len(),
        ensures
            final(self).block_len() == old(self).block_len(),
            final(self).crossfade_len() == old(self).crossfade_len(),
            finishes(old(self)@, old(self).block_len(), output@, active, next@, final(self)@, r),
    {
        if !is_good_output(output, self.block) {
            self.failed = true;
            return Err("invalid output block".to_owned());
        }
        let out = copied(output);
        self.output = copied(output);
        self.sola = if active {
            next
        } else {
            zero_singles(self.crossfade)
        };
        Ok(out)
    }

    /// Processing failed: no further block is taken.
    pub fn fail(&mut self)
        ensures
            final(self).block_len() == old(self).block_len(),
            final(self).crossfade_len() == old(self).crossfade_len(),
            final(self)@ == (BlocksValue { failed: true, ..old(self)@ }),
    {
        self.failed = true;
    }

    /// Forgets what came in, unless the path failed.
    pub fn reset_stream_state(&mut self) -> (r: Result<(), String>)
        ensures
            final(self).block_len() == old(self).block_len(),
            final(self).crossfade_len() == old(self).crossfade_len(),
            resets(
                old(self)@,
                old(self).block_len(),
                old(self).crossfade_len(),
                final(self)@,
                r,
            ),
    {
        if self.failed {
            return Err("failed engine must be recreated".to_owned());
        }
        self.audio = zero_halves(self.audio.len());
        self.context = zero_halves(self.context.len());
        self.sola = zero_singles(self.crossfade);
        self.output = zero_singles(self.block);
        Ok(())
    }
}

pub(crate) fn is_good_output(output: &[u32], block: usize) -> (r: bool)
    ensures
        r == good_output(output@, block as int),
{
    if output.len() != block {
        return false;
    }
    let mut i: usize = 0;
    while i < output.len()
        invariant
            i <= output@.len(),
            forall|j: int| 0 <= j < i ==> bits::single_is_finite(#[trigger] output@[j]),
        decreases output@.len() - i,
    {
        if !is_finite_single(output[i]) {
            return false;
        }
        i += 1;
    }
    true
}

pub(crate) fn copied(xs: &[u32]) -> (r: Vec<u32>)
    ensures
        r@ == xs@,
{
    let mut out: Vec<u32> = Vec::new();
    let mut i: usize = 0;
    while i < xs.len()
        invariant
            i <= xs@.len(),
            out@ == xs@.take(i as int),
        decreases xs@.len() - i,
    {
        out.push(xs[i]);
        i += 1;
        assert(out@ =~= xs@.take(i as int));
    }
    assert(xs@.take(xs@.len() as int) =~= xs@);
    out
}

/// The context always holds the last samples that came in, however they were cut into blocks.
pub proof fn law_context_is_the_end_of_the_stream(cache: Seq<u16>, a: Seq<u16>, b: Seq<u16>)
    ensures
        appended(appended(cache, a), b) == appended(cache, a + b),
{
    assert(appended(appended(cache, a), b) =~= appended(cache, a + b));
}

/// The rate that the description of a model gives.
pub open spec fn described_rate(description: JsonValue) -> Option<u64> {
    match json::member(description, "model_sr"@) {
        JsonValue::Natural(n) => Some(n),
        _ => None,
    }
}

/// The rate that the description of a model gives.
pub fn model_rate(description: &[u8]) -> (r: Result<usize, String>)
    ensures
        match json::json_document(description@) {
            Err(e) => r matches Err(m) && m@ == e,
            Ok(v) => match described_rate(v) {
                Some(n) => r == Ok::<usize, String>(n as usize),
                None => r matches Err(e) && e@ == "missing model rate"@,
            },
        },
{
    match parse_document(description) {
        Ok(v) => match v.get("model_sr") {
            Some(Json::Natural(n)) => Ok(*n as usize),
            _ => Err("missing model rate".to_owned()),
        },
        Err(e) => Err(e),
    }
}

/// Why the ports of an opened graph cannot be used.
pub open spec fn opened_fault(name: Seq<char>, actual: Seq<Seq<char>>, shown: Seq<char>) -> Option<Seq<char>> {
    match graph_ports(name) {
        None => Some("unknown audio graph"@),
        Some(ports) => if actual == ports {
            None
        } else {
            Some("audio graph port/dtype mismatch: "@ + shown)
        },
    }
}

/// Checks the ports of the graph that was opened from the file `name`, whose path is `shown`.
pub fn check_ports(name: &str, actual: &Vec<String>, shown: &str) -> (r: Result<(), String>)
    ensures
        match opened_fault(name@, text::texts(actual@), shown@) {
            Some(text) => r matches Err(e) && e@ == text,
            None => r is Ok,
        },
{
    let expected = match expected_ports(name) {
        Some(ports) => ports,
        None => {
            return Err("unknown audio graph".to_owned());
        },
    };
    let ghost a = text::texts(actual@);
    let ghost b = text::texts(expected@);
    if actual.len() != expected.len() {
        assert(a.len() != b.len());
        return Err(join("audio graph port/dtype mismatch: ", shown));
    }
    let mut i: usize = 0;
    while i < actual.len()
        invariant
            i <= actual@.len() == expected@.len(),
            a == text::texts(actual@),
            b == text::texts(expected@),
            graph_ports(name@) == Some(b),
            forall|j: int| 0 <= j < i ==> a[j] == b[j],
        decreases actual@.len() - i,
    {
        if !same(actual[i].as_str(), expected[i].as_str()) {
            assert(a[i as int] != b[i as int]);
            return Err(join("audio graph port/dtype mismatch: ", shown));
        }
        i += 1;
    }
    assert(a =~= b);
    Ok(())
}

/// The low-latency path: its input, its caches, its pitch, and whether it failed.
pub struct Engine {
    trial: Trial,
    startup: Startup,
    dims: Dims,
    input: InputTimeline,
    blocks: Blocks,
    pitch: PitchState,
}

/// What an [`Engine`] holds.
pub struct EngineValue {
    /// Everything that came in since the start.
    pub stream: Seq<u32>,
    pub blocks: BlocksValue,
    pub pitch: PitchValue,
}

impl View for Engine {
    type V = EngineValue;

    closed spec fn view(&self) -> EngineValue {
        EngineValue { stream: self.input@, blocks: self.blocks@, pitch: self.pitch@ }
    }
}

/// A path before anything came in.
pub open spec fn fresh(d: Dims) -> EngineValue {
    EngineValue {
        stream: Seq::empty(),
        blocks: silent_blocks(d),
        pitch: pitch::empty_cache((d.features + 1) as nat),
    }
}

/// How far the input filter is shifted.
pub open spec fn filter_delay(t: Trial, sample_rate: usize) -> int {
    if t.delayed_input {
        input::width_of(sample_rate)
    } else {
        0
    }
}

/// The frames that pass with a block.
pub open spec fn elapsed(d: Dims, sample_rate: usize) -> int {
    d.block * 100 / sample_rate as int
}

/// Why the estimates of a window are not taken.
pub open spec fn pitch_fault(t: Trial, hop: int, cache: int, e: Estimates, tune: u64, formant: u64) -> Option<
    Seq<char>,
> {
    if t.aligned_pitch_history && (hop == 0 || hop > e.raw@.len() || hop > cache) {
        Some("invalid pitch history hop"@)
    } else {
        pitch::update_fault(e, tune, formant)
    }
}

/// The pitch after the estimates of a window: moved on by the window, or by what has passed where the
/// trial keeps the times.
pub open spec fn pitched(t: Trial, hop: int, p: PitchValue, e: Estimates) -> PitchValue {
    let count = if e.raw@.len() < p.coarse.len() {
        e.raw@.len() as int
    } else {
        p.coarse.len() as int
    };
    let shift = if t.aligned_pitch_history {
        hop
    } else {
        count
    };
    PitchValue {
        coarse: pitch::renewed(p.coarse, e.coarse@, shift),
        continuous: pitch::renewed(p.continuous, e.shifted@, shift),
    }
}

/// Whether there are enough feature rows for the frames.
pub open spec fn enough_rows(rows: Seq<u16>, frames: int) -> bool {
    rows.len() / 768 > 0 && 2 * (rows.len() / 768 + 1) >= frames
}

/// Whether a ratio scales a pitch.
pub open spec fn scales(ratio: u32) -> bool {
    bits::single_is_finite(ratio) && bits::single_rank(ratio) > 0
}

/// What the generator is given of a block.
pub struct Prepared {
    pub features: Vec<u16>,
    pub pitch: Vec<i64>,
    /// The pitch before the formant ratio.
    pub pitchf: Vec<u16>,
}

impl Engine {
    pub closed spec fn trial(&self) -> Trial {
        self.trial
    }

    pub closed spec fn startup(&self) -> Startup {
        self.startup
    }

    pub closed spec fn dims(&self) -> Dims {
        self.dims
    }

    /// Whether the parts are of the lengths.
    pub closed spec fn wf(&self) -> bool {
        &&& self.input.wf()
        &&& self.input.size() == self.dims.block
        &&& self.input.rate() == self.startup.sample_rate
        &&& self.input.delay() == filter_delay(self.trial, self.startup.sample_rate)
        &&& self.startup.sample_rate == 44100 || self.startup.sample_rate == 48000
        &&& 1 <= self.dims.block <= 32768
        &&& self.pitch.wf()
        &&& self.pitch@.coarse.len() == self.dims.features + 1
        &&& 1 <= self.dims.features < 100_000
        &&& self.blocks.block_len() == self.dims.block
        &&& self.blocks.crossfade_len() == self.dims.crossfade
        &&& self.blocks@.audio.len() == self.dims.audio
        &&& self.blocks@.context.len() == self.dims.convert
        &&& self.dims.silence_front <= self.dims.convert
    }

    /// Nothing but what the blocks say has changed.
    pub open spec fn same_path(&self, other: &Engine) -> bool {
        &&& self.trial() == other.trial()
        &&& self.startup() == other.startup()
        &&& self.dims() == other.dims()
    }

    /// A path of the lengths.
    pub fn new(trial: Trial, startup: &Startup, d: &Dims) -> (r: Result<Engine, String>)
        requires
            d.silence_front <= d.convert,
        ensures
            if !(startup::device_rate(startup.sample_rate) && 1 <= d.block <= 32768) {
                r matches Err(e) && e@ == "unsupported input dimensions"@
            } else if !(1 <= d.features < 100_000) {
                r matches Err(e) && e@ == "invalid pitch feature length"@
            } else {
                &&& r matches Ok(g)
                &&& g.wf()
                &&& g.trial() == trial
                &&& g.startup() == *startup
                &&& g.dims() == *d
                &&& g@ == fresh(*d)
            },
    {
        let timeline = if trial.delayed_input {
            InputTimeline::new_delayed(startup.sample_rate, d.block)
        } else {
            InputTimeline::new(startup.sample_rate, d.block)
        };
        let input = match timeline {
            Ok(t) => t,
            Err(e) => {
                return Err(e);
            },
        };
        let pitch = match PitchState::new(d.features) {
            Ok(p) => p,
            Err(e) => {
                return Err(e);
            },
        };
        let blocks = Blocks::new(d);
        Ok(Engine { trial, startup: *startup, dims: *d, input, blocks, pitch })
    }

    /// The samples of a block.
    pub fn block_frames(&self) -> (r: usize)
        ensures
            r == self.dims().block,
    {
        self.dims.block
    }

    /// The lengths of the path.
    pub fn dimensions(&self) -> (r: &Dims)
        ensures
            *r == self.dims(),
    {
        &self.dims
    }

    /// A block came in: gives the taps of its samples at 16 kHz. Not after a failure; live parameters
    /// out of range and a block that is not taken are failures.
    pub fn process(&mut self, block: &[u32], pitch: u64, threshold_db: u64) -> (r: Result<
        Vec<OutputTaps>,
        String,
    >)
        requires
            old(self).wf(),
        ensures
            final(self).wf(),
            final(self).same_path(old(self)),
            processes(
                old(self)@,
                old(self).trial(),
                old(self).startup(),
                old(self).dims(),
                block@,
                pitch,
                threshold_db,
                final(self)@,
                r,
            ),
    {
        match self.blocks.begin(pitch, threshold_db) {
            Ok(_) => {},
            Err(e) => {
                return Err(e);
            },
        }
        proof {
            input::lemma_emitted(&self.input);
        }
        match self.input.push(block) {
            Ok(out) => Ok(out),
            Err(e) => {
                self.blocks.fail();
                Err(e)
            },
        }
    }

    /// The samples of the block at 16 kHz.
    pub fn listen(&mut self, values: &[u16])
        requires
            old(self).wf(),
        ensures
            final(self).wf(),
            final(self).same_path(old(self)),
            final(self)@ == (EngineValue {
                blocks: BlocksValue {
                    audio: appended(old(self)@.blocks.audio, values@),
                    context: appended(old(self)@.blocks.context, values@),
                    ..old(self)@.blocks
                },
                ..old(self)@
            }),
    {
        self.blocks.take(values);
    }

    /// What the loudness of the input is taken from.
    pub fn audio(&self) -> (r: &Vec<u16>)
        ensures
            r@ == self@.blocks.audio,
    {
        self.blocks.audio()
    }

    /// What the features are taken from.
    pub fn context(&self) -> (r: &Vec<u16>)
        ensures
            r@ == self@.blocks.context,
    {
        self.blocks.context()
    }

    /// What the next block is joined to.
    pub fn sola(&self) -> (r: &Vec<u32>)
        ensures
            r@ == self@.blocks.sola,
    {
        self.blocks.sola()
    }

    /// What the pitch is taken from.
    pub fn pitch_window(&self) -> (r: Vec<u16>)
        requires
            self.wf(),
        ensures
            r@ == self@.blocks.context.skip(self.dims().silence_front as int),
    {
        let all: &Vec<u16> = self.blocks.context();
        let from: usize = self.dims.silence_front;
        let mut out: Vec<u16> = Vec::new();
        let mut i: usize = from;
        while i < all.len()
            invariant
                from <= i <= all@.len(),
                out@ == all@.subrange(from as int, i as int),
            decreases all@.len() - i,
        {
            out.push(all[i]);
            i += 1;
            assert(out@ =~= all@.subrange(from as int, i as int));
        }
        assert(out@ =~= all@.skip(from as int));
        out
    }

    /// The block was analysed: what the generator is given, with the pitch of all its frames. Anything
    /// wrong is a failure.
    pub fn prepare(&mut self, rows: &[u16], e: &Estimates, tune: u64, ratio: u32) -> (r: Result<
        Prepared,
        String,
    >)
        requires
            old(self).wf(),
            e.wf(),
        ensures
            final(self).wf(),
            final(self).same_path(old(self)),
            prepares(
                old(self)@,
                old(self).trial(),
                old(self).startup(),
                old(self).dims(),
                rows@,
                *e,
                tune,
                ratio,
                final(self)@,
                r,
            ),
    {
        let features = match expand_features(rows, self.dims.features) {
            Ok(x) => x,
            Err(m) => {
                self.blocks.fail();
                return Err(m);
            },
        };
        let updated = if self.trial.aligned_pitch_history {
            let hop: usize = self.dims.block * 100 / self.startup.sample_rate;
            self.pitch.update_aligned(e, tune, self.startup.formant, hop)
        } else {
            self.pitch.update(e, tune, self.startup.formant)
        };
        match updated {
            Ok(_) => {},
            Err(m) => {
                self.blocks.fail();
                return Err(m);
            },
        }
        match self.pitch.generator_pitch(self.dims.features, ratio) {
            Ok((coarse, continuous)) => Ok(Prepared { features, pitch: coarse, pitchf: continuous }),
            Err(m) => {
                self.blocks.fail();
                Err(m)
            },
        }
    }

    /// The block was generated.
    pub fn finish(&mut self, output: &[u32], active: bool, next: Vec<u32>) -> (r: Result<Vec<u32>, String>)
        requires
            old(self).wf(),
            next@.len() == old(self).dims().crossfade,
        ensures
            final(self).wf(),
            final(self).same_path(old(self)),
            final(self)@.stream == old(self)@.stream,
            final(self)@.pitch == old(self)@.pitch,
            finishes(
                old(self)@.blocks,
                old(self).dims().block as int,
                output@,
                active,
                next@,
                final(self)@.blocks,
                r,
            ),
    {
        self.blocks.finish(output, active, next)
    }

    /// Something between the steps failed: no further block is taken.
    pub fn fail(&mut self)
        requires
            old(self).wf(),
        ensures
            final(self).wf(),
            final(self).same_path(old(self)),
            final(self)@ == (EngineValue {
                blocks: BlocksValue { failed: true, ..old(self)@.blocks },
                ..old(self)@
            }),
    {
        self.blocks.fail();
    }

    /// Forgets what came in: the path is as it was before anything did, unless it failed.
    pub fn reset_stream_state(&mut self) -> (r: Result<(), String>)
        requires
            old(self).wf(),
        ensures
            final(self).wf(),
            final(self).same_path(old(self)),
            if old(self)@.blocks.failed {
                &&& r matches Err(e)
                &&& e@ == "failed engine must be recreated"@
                &&& final(self)@ == old(self)@
            } else {
                r is Ok && final(self)@ == fresh(old(self).dims())
            },
    {
        match self.blocks.reset_stream_state() {
            Ok(_) => {
                self.input.reset();
                self.pitch.reset();
                Ok(())
            },
            Err(e) => Err(e),
        }
    }
}

/// A trial changes the sizes in no other way than by its whole context; an aligned history is refused exactly
/// where a block is no whole number of hundredths of a second.
pub proof fn law_aligned_history_needs_whole_hops(
    t: Trial,
    s: Startup,
    rate: usize,
    c: Counts,
    formant_length: usize,
    scaled_window: usize,
)
    ensures
        ({
            let plain = startup::computed(s, rate, c, formant_length, scaled_window, true);
            let r = trial_dims(t, s, rate, c, formant_length, scaled_window);
            &&& plain matches Err(e) ==> r == Err::<Dims, Seq<char>>(e)
            &&& plain is Ok && r is Err <==> plain is Ok && t.aligned_pitch_history && (plain->Ok_0.block
                * 100) % (s.sample_rate as int) != 0
            &&& r is Ok ==> r->Ok_0 == (Dims { silence_front: r->Ok_0.silence_front, ..plain->Ok_0 })
            &&& r is Ok ==> r->Ok_0.silence_front == if t.full_pitch_context {
                0
            } else {
                plain->Ok_0.silence_front
            }
        }),
{
}

/// A known graph opens exactly with the ports that it has by name; no other graph does.
pub proof fn law_known_graphs_open(name: Seq<char>, actual: Seq<Seq<char>>, shown: Seq<char>)
    ensures
        name == "contentvec.onnx"@ ==> (opened_fault(name, actual, shown) is None <==> actual == seq![
            "audio:float16"@,
            "units9:float16"@,
            "unit12:float16"@,
            "unit12s:float16"@,
        ]),
        name == "rmvpe-salience.onnx"@ ==> (opened_fault(name, actual, shown) is None <==> actual == seq![
            "mel:float16"@,
            "salience:float16"@,
        ]),
        name == "post.onnx"@ ==> (opened_fault(name, actual, shown) is None ==> actual.len() == 20
            && actual[0] == "generated:float32"@ && actual[18] == "output:float32"@),
        opened_fault(name, actual, shown) is None ==> name == "contentvec.onnx"@ || name
            == "rmvpe-salience.onnx"@ || name == "post.onnx"@,
{
    reveal_strlit("contentvec.onnx");
    reveal_strlit("rmvpe-salience.onnx");
    reveal_strlit("post.onnx");
    assert("contentvec.onnx"@.len() != "rmvpe-salience.onnx"@.len());
    assert("contentvec.onnx"@.len() != "post.onnx"@.len());
    assert("rmvpe-salience.onnx"@.len() != "post.onnx"@.len());
}

/// The assets are taken exactly where the contract is the known one and every file has the hash that it names
/// for it.
pub proof fn law_whole_assets_are_taken(m: JsonValue, f: AudioFiles)
    ensures
        assets_fault(m, f) is None <==> {
            let files = json::member(m, "files"@);
            &&& json::member(m, "schema"@) == JsonValue::Natural(1)
            &&& json::member(m, "algorithm"@) == JsonValue::Text("tg-fast-v1"@)
            &&& json::member(m, "generator_kind"@) == JsonValue::Text("deiteris-onnx-v1"@)
            &&& json::member(m, "tf32"@) == JsonValue::Bool(false)
            &&& manifest_ports(m)
            &&& json::member(files, "contentvec.onnx"@) == JsonValue::Text(
                text::hex_of(voice_model::sha256(f.contentvec@)),
            )
            &&& json::member(files, "rmvpe-salience.onnx"@) == JsonValue::Text(
                text::hex_of(voice_model::sha256(f.rmvpe@)),
            )
            &&& json::member(files, "post.onnx"@) == JsonValue::Text(
                text::hex_of(voice_model::sha256(f.post@)),
            )
            &&& json::member(files, "mel-basis.f32"@) == JsonValue::Text(
                text::hex_of(voice_model::sha256(f.mel_basis@)),
            )
            &&& json::member(files, "hann.f32"@) == JsonValue::Text(
                text::hex_of(voice_model::sha256(f.hann@)),
            )
        },
{
}

/// The named ports of a contract are those of the graphs, each graph under its own name.
pub proof fn law_contract_names_the_ports(m: JsonValue, i: int)
    requires
        manifest_ports(m),
    ensures
        ({
            let ports = json::member(m, "ports"@);
            let a = json::member(ports, "contentvec"@)->Array_0;
            let b = json::member(ports, "rmvpe"@)->Array_0;
            let c = json::member(ports, "post"@)->Array_0;
            &&& a.len() == 4 && b.len() == 2 && c.len() == 20
            &&& a[0] == JsonValue::Text("audio:float16"@) && a[2] == JsonValue::Text("unit12:float16"@)
            &&& b[0] == JsonValue::Text("mel:float16"@) && b[1] == JsonValue::Text("salience:float16"@)
            &&& 0 <= i < 4 ==> opened_fault(
                "contentvec.onnx"@,
                Seq::new(4, |k: int| a[k]->Text_0),
                Seq::empty(),
            ) is None
        }),
{
    let a = json::member(json::member(m, "ports"@), "contentvec"@)->Array_0;
    assert(Seq::new(4, |k: int| a[k]->Text_0) =~= contentvec_ports());
}

/// A window that moves on keeps its length, its newest samples behind those that it had.
pub proof fn law_window_moves_on(cache: Seq<u16>, values: Seq<u16>, i: int)
    requires
        0 <= i < cache.len(),
    ensures
        appended(cache, values).len() == cache.len(),
        values.len() <= cache.len() && i < cache.len() - values.len() ==> appended(cache, values)[i]
            == cache[i + values.len()],
        values.len() <= cache.len() && i >= cache.len() - values.len() ==> appended(cache, values)[i]
            == values[i - (cache.len() - values.len())],
{
}

/// Every row serves two frames, and the last one all that are left.
pub proof fn law_rows_serve_two_frames(rows: Seq<u16>, count: int, frames: int, frame: int, k: int)
    requires
        1 <= count,
        rows.len() == 768 * count,
        0 <= frame < frames,
        0 <= k < 768,
    ensures
        expanded(rows, frames).len() == 768 * frames,
        frame < 2 * count ==> expanded(rows, frames)[768 * frame + k] == rows[768 * (frame / 2) + k],
        frame >= 2 * count ==> expanded(rows, frames)[768 * frame + k] == rows[768 * (count - 1) + k],
{
    let i = 768 * frame + k;
    assert(i / 768 == frame && i % 768 == k);
    assert(0 <= i < frames * 768);
}

/// Enough rows are there where at most two frames more are asked for than they serve.
pub proof fn law_enough_rows(rows: Seq<u16>, count: int, frames: int)
    requires
        rows.len() == 768 * count,
        0 <= count,
    ensures
        enough_rows(rows, frames) <==> count >= 1 && frames <= 2 * count + 2,
{
}

/// A block is heard where its volume is at least the threshold, by value.
pub proof fn law_heard_at_the_threshold(volume: u16, sensitivity: u32)
    requires
        bits::half_is_finite(volume),
        bits::single_is_finite(sensitivity),
    ensures
        loud(volume, sensitivity) <==> bits::single_value(bits::widened(volume)) >= bits::single_value(
            sensitivity,
        ),
{
    bits::law_widening_keeps_the_value(volume);
    bits::law_singles_are_in_order(bits::widened(volume), sensitivity);
}

/// Blocks begin in silence, with buffers of the sizes of the path, and the stream is empty.
pub proof fn law_blocks_begin_in_silence(d: Dims)
    ensures
        ({
            let b = silent_blocks(d);
            &&& b.audio.len() == d.audio && b.context.len() == d.convert && b.sola.len() == d.crossfade
                && b.output.len() == d.block
            &&& forall|i: int| 0 <= i < d.audio ==> #[trigger] b.audio[i] == 0
            &&& forall|i: int| 0 <= i < d.convert ==> #[trigger] b.context[i] == 0
            &&& forall|i: int| 0 <= i < d.crossfade ==> #[trigger] b.sola[i] == 0
            &&& forall|i: int| 0 <= i < d.block ==> #[trigger] b.output[i] == 0
            &&& !b.failed
            &&& fresh(d).stream.len() == 0 && fresh(d).blocks == b
            &&& fresh(d).pitch.coarse.len() == d.features + 1
            &&& fresh(d).pitch.continuous.len() == d.features + 1
        }),
{
}

/// Whole hundredths of a second pass in a block; the input is held back by the reach of its filter where it
/// is delayed, and else not at all.
pub proof fn law_time_passes_in_hundredths(d: Dims, t: Trial, sample_rate: usize)
    requires
        sample_rate > 0,
    ensures
        elapsed(d, sample_rate) * sample_rate <= d.block * 100 < (elapsed(d, sample_rate) + 1)
            * sample_rate,
        !t.delayed_input ==> filter_delay(t, sample_rate) == 0,
        t.delayed_input ==> filter_delay(t, sample_rate) == if sample_rate == 44100 {
            17int
        } else {
            19
        },
{
    let n = d.block * 100;
    let r = sample_rate as int;
    vstd::arithmetic::div_mod::lemma_fundamental_div_mod(n, r);
    let q = n / r;
    assert(r * q == q * r) by (nonlinear_arith);
    assert((q + 1) * r == q * r + r) by (nonlinear_arith);
}

/// The newest estimates stand last in the caches; those before them moved up by the hop, or by as many
/// estimates as came.
pub proof fn law_caches_move_up(t: Trial, hop: int, p: PitchValue, e: Estimates, i: int)
    requires
        0 < e.raw@.len() <= p.coarse.len(),
        p.continuous.len() == p.coarse.len(),
        e.coarse@.len() == e.raw@.len(),
        e.shifted@.len() == e.raw@.len(),
        0 < hop <= e.raw@.len(),
        0 <= i < p.coarse.len(),
    ensures
        ({
            let q = pitched(t, hop, p, e);
            let n = p.coarse.len();
            let m = e.raw@.len();
            let shift = if t.aligned_pitch_history {
                hop
            } else {
                m as int
            };
            &&& q.coarse.len() == n && q.continuous.len() == n
            &&& i >= n - m ==> q.coarse[i] == e.coarse@[i - (n - m)] && q.continuous[i] == e.shifted@[i - (n
                - m)]
            &&& i < n - m && i + shift < n ==> q.coarse[i] == p.coarse[i + shift] && q.continuous[i]
                == p.continuous[i + shift]
        }),
{
}

/// Live parameters are taken within 48 semitones and 120 dB; a ratio scales where it is finite and
/// greater than zero; a rate is described by a natural number.
pub proof fn law_parameters_in_range_are_taken(pitch: int, threshold_db: int, ratio: u32, description: JsonValue)
    requires
        -1000 <= pitch <= 1000,
        -1000 <= threshold_db <= 1000,
    ensures
        live_parameters(bits::exact_double(pitch) as u64, bits::exact_double(threshold_db) as u64)
            <==> -48 <= pitch <= 48 && -120 <= threshold_db <= 0,
        scales(ratio) <==> 0 < ratio < 0x7f80_0000,
        described_rate(description) matches Some(n) ==> json::member(description, "model_sr"@)
            == JsonValue::Natural(n),
        described_rate(description) is None ==> !(json::member(description, "model_sr"@) is Natural),
{
    bits::law_integers_lie_between(pitch, -48, 48);
    bits::law_integers_lie_between(threshold_db, -120, 0);
}

/// A hop must move the caches on, within what was estimated and what they hold, where the history is aligned;
/// shifts must lie within 48 and 12 semitones.
pub proof fn law_hops_move_on(t: Trial, hop: int, cache: int, e: Estimates, tune: int, formant: int)
    requires
        0 <= hop,
        -1000 <= tune <= 1000,
        -1000 <= formant <= 1000,
        pitch_fault(
            t,
            hop,
            cache,
            e,
            bits::exact_double(tune) as u64,
            bits::exact_double(formant) as u64,
        ) is None,
    ensures
        t.aligned_pitch_history ==> 1 <= hop <= cache && hop <= e.raw@.len(),
        -48 <= tune <= 48,
        -12 <= formant <= 12,
{
    bits::law_integers_lie_between(tune, -48, 48);
    bits::law_integers_lie_between(formant, -12, 12);
}

/// Whether a block is begun so: not after a failure, and not with live parameters out of range.
pub open spec fn begins(
    before: BlocksValue,
    pitch: u64,
    threshold_db: u64,
    after: BlocksValue,
    r: Result<(), String>,
) -> bool {
    if before.failed {
        &&& r matches Err(e)
        &&& e@ == "failed engine must be recreated"@
        &&& after == before
    } else if !live_parameters(pitch, threshold_db) {
        &&& r matches Err(e)
        &&& e@ == "invalid live parameters"@
        &&& after == (BlocksValue { failed: true, ..before })
    } else {
        r is Ok && after == before
    }
}

/// Whether a generated block is finished so: handed out where it is a finite block, and the next one joined to its
/// end or to silence.
pub open spec fn finishes(
    before: BlocksValue,
    block: int,
    output: Seq<u32>,
    active: bool,
    next: Seq<u32>,
    after: BlocksValue,
    r: Result<Vec<u32>, String>,
) -> bool {
    if good_output(output, block) {
        &&& r matches Ok(out)
        &&& out@ == output
        &&& after == (BlocksValue {
            output,
            sola: if active {
                next
            } else {
                Seq::new(next.len(), |i: int| 0u32)
            },
            ..before
        })
    } else {
        &&& r matches Err(e)
        &&& e@ == "invalid output block"@
        &&& after == (BlocksValue { failed: true, ..before })
    }
}

/// Whether what came in is forgotten so, unless the path failed.
pub open spec fn resets(
    before: BlocksValue,
    block: int,
    crossfade: int,
    after: BlocksValue,
    r: Result<(), String>,
) -> bool {
    if before.failed {
        &&& r matches Err(e)
        &&& e@ == "failed engine must be recreated"@
        &&& after == before
    } else {
        &&& r is Ok
        &&& after == (BlocksValue {
            audio: Seq::new(before.audio.len(), |i: int| 0u16),
            context: Seq::new(before.context.len(), |i: int| 0u16),
            sola: Seq::new(crossfade as nat, |i: int| 0u32),
            output: Seq::new(block as nat, |i: int| 0u32),
            failed: false,
        })
    }
}

/// Whether a block that came in is processed so: its samples become the end of the stream, and the taps of the
/// samples at 16 kHz that they complete are given.
pub open spec fn processes(
    before: EngineValue,
    t: Trial,
    s: Startup,
    d: Dims,
    block: Seq<u32>,
    pitch: u64,
    threshold_db: u64,
    after: EngineValue,
    r: Result<Vec<OutputTaps>, String>,
) -> bool {
    let failed = EngineValue { blocks: BlocksValue { failed: true, ..before.blocks }, ..before };
    if before.blocks.failed {
        &&& r matches Err(e)
        &&& e@ == "failed engine must be recreated"@
        &&& after == before
    } else if !live_parameters(pitch, threshold_db) {
        &&& r matches Err(e)
        &&& e@ == "invalid live parameters"@
        &&& after == failed
    } else {
        match input::refused(block, d.block, before.stream.len() as int) {
            Some(text) => {
                &&& r matches Err(e)
                &&& e@ == text
                &&& after == failed
            },
            None => {
                let rate = s.sample_rate;
                let first = input::outputs_of(rate, before.stream.len() as int);
                let stream = before.stream + block;
                &&& r matches Ok(out)
                &&& after == (EngineValue { stream, ..before })
                &&& out@.len() == input::outputs_of(rate, stream.len() as int) - first
                &&& forall|i: int|
                    0 <= i < out@.len() ==> (#[trigger] out@[i]).phase == (first + i)
                        % input::phases_of(rate) && out@[i].samples@ == input::taps_of(
                        rate,
                        filter_delay(t, rate),
                        stream,
                        first + i,
                    )
            },
        }
    }
}

/// Whether an analysed block is prepared so for the generator: its features spread over the frames, and the pitch
/// of all frames out of the caches that were moved on.
pub open spec fn prepares(
    before: EngineValue,
    t: Trial,
    s: Startup,
    d: Dims,
    rows: Seq<u16>,
    e: Estimates,
    tune: u64,
    ratio: u32,
    after: EngineValue,
    r: Result<Prepared, String>,
) -> bool {
    let hop = elapsed(d, s.sample_rate);
    let failed = BlocksValue { failed: true, ..before.blocks };
    if !enough_rows(rows, d.features as int) {
        &&& r matches Err(m)
        &&& m@ == "ContentVec frame mismatch"@
        &&& after == (EngineValue { blocks: failed, ..before })
    } else {
        match pitch_fault(t, hop, before.pitch.coarse.len() as int, e, tune, s.formant) {
            Some(text) => {
                &&& r matches Err(m)
                &&& m@ == text
                &&& after == (EngineValue { blocks: failed, ..before })
            },
            None => {
                let next = pitched(t, hop, before.pitch, e);
                if scales(ratio) {
                    &&& r matches Ok(x)
                    &&& x.features@ == expanded(rows, d.features as int)
                    &&& x.pitch@ == next.coarse.skip(1)
                    &&& x.pitchf@ == next.continuous.skip(1)
                    &&& after == (EngineValue { pitch: next, ..before })
                } else {
                    &&& r matches Err(m)
                    &&& m@ == "invalid generator pitch slice"@
                    &&& after == (EngineValue { pitch: next, blocks: failed, ..before })
                }
            },
        }
    }
}

/// A failed path takes no block and stays as it is; a block that is begun changes nothing, and one that is refused
/// ends the path.
pub proof fn law_failed_path_begins_nothing(
    before: BlocksValue,
    pitch: int,
    threshold_db: int,
    after: BlocksValue,
    r: Result<(), String>,
)
    requires
        -1000 <= pitch <= 1000,
        -1000 <= threshold_db <= 1000,
        begins(
            before,
            bits::exact_double(pitch) as u64,
            bits::exact_double(threshold_db) as u64,
            after,
            r,
        ),
    ensures
        r is Ok <==> !before.failed && -48 <= pitch <= 48 && -120 <= threshold_db <= 0,
        r is Ok ==> after == before,
        r is Err ==> after.failed,
        before.failed ==> after == before,
{
    bits::law_integers_lie_between(pitch, -48, 48);
    bits::law_integers_lie_between(threshold_db, -120, 0);
}

/// What was generated goes out unchanged where it is a whole block of finite samples. The next block is joined to
/// what followed it where the input was heard, and to silence otherwise. Anything else ends the path, which keeps
/// what it last played.
pub proof fn law_generated_goes_out(
    before: BlocksValue,
    block: int,
    output: Seq<u32>,
    active: bool,
    next: Seq<u32>,
    after: BlocksValue,
    r: Result<Vec<u32>, String>,
)
    requires
        finishes(before, block, output, active, next, after, r),
    ensures
        r is Ok <==> output.len() == block && forall|i: int|
            0 <= i < output.len() ==> #[trigger] output[i] % 0x8000_0000 < 0x7f80_0000,
        r is Ok ==> r->Ok_0@ == output && after.output == output && after.failed == before.failed,
        r is Ok && active ==> after.sola == next,
        r is Ok && !active ==> after.sola.len() == next.len() && forall|i: int|
            0 <= i < next.len() ==> #[trigger] after.sola[i] == 0,
        r is Err ==> after.failed && after.output == before.output && after.sola == before.sola,
        after.audio == before.audio && after.context == before.context,
{
}

/// A path that has not failed starts over in silence with the buffers that it has.
pub proof fn law_starts_over_in_silence(
    before: BlocksValue,
    block: int,
    crossfade: int,
    after: BlocksValue,
    r: Result<(), String>,
)
    requires
        resets(before, block, crossfade, after, r),
        0 <= block,
        0 <= crossfade,
    ensures
        r is Ok <==> !before.failed,
        r is Err ==> after == before,
        r is Ok ==> {
            &&& after.audio.len() == before.audio.len() && after.context.len() == before.context.len()
                && after.sola.len() == crossfade && after.output.len() == block && !after.failed
            &&& forall|i: int| 0 <= i < after.audio.len() ==> #[trigger] after.audio[i] == 0
            &&& forall|i: int| 0 <= i < after.context.len() ==> #[trigger] after.context[i] == 0
            &&& forall|i: int| 0 <= i < crossfade ==> #[trigger] after.sola[i] == 0
            &&& forall|i: int| 0 <= i < block ==> #[trigger] after.output[i] == 0
        },
{
}

/// A block that is taken becomes the end of the stream and changes nothing else; as many samples come out as
/// the stream is longer at 16 kHz. A failed path takes none, and one that is refused ends the path.
pub proof fn law_blocks_become_the_stream(
    before: EngineValue,
    t: Trial,
    s: Startup,
    d: Dims,
    block: Seq<u32>,
    pitch: u64,
    threshold_db: u64,
    after: EngineValue,
    r: Result<Vec<OutputTaps>, String>,
)
    requires
        processes(before, t, s, d, block, pitch, threshold_db, after, r),
        s.sample_rate == 48000,
    ensures
        r is Ok ==> {
            &&& after == (EngineValue { stream: before.stream + block, ..before })
            &&& block.len() == d.block && !before.blocks.failed
            &&& forall|i: int| 0 <= i < block.len() ==> #[trigger] block[i] % 0x8000_0000 < 0x7f80_0000
            &&& r->Ok_0@.len() == (before.stream.len() + block.len() + 2) / 3 - (before.stream.len() + 2) / 3
        },
        r is Err ==> after.blocks.failed && after.stream == before.stream && after.pitch == before.pitch,
        before.blocks.failed ==> r is Err && after == before,
{
}

/// The generator is given a row of features and a pitch for every frame; the newest estimate is the last. A block
/// that cannot be prepared ends the path.
pub proof fn law_generator_is_given_every_frame(
    before: EngineValue,
    t: Trial,
    s: Startup,
    d: Dims,
    rows: Seq<u16>,
    e: Estimates,
    tune: u64,
    ratio: u32,
    after: EngineValue,
    r: Result<Prepared, String>,
)
    requires
        prepares(before, t, s, d, rows, e, tune, ratio, after, r),
        before.pitch.coarse.len() == d.features + 1,
        before.pitch.continuous.len() == d.features + 1,
        0 < e.raw@.len() <= d.features,
        e.coarse@.len() == e.raw@.len(),
        e.shifted@.len() == e.raw@.len(),
        0 < elapsed(d, s.sample_rate) <= e.raw@.len(),
    ensures
        r is Ok ==> {
            let x = r->Ok_0;
            &&& x.features@.len() == 768 * d.features
            &&& x.pitch@.len() == d.features && x.pitchf@.len() == d.features
            &&& x.pitch@.last() == e.coarse@.last() && x.pitchf@.last() == e.shifted@.last()
            &&& x.pitch@ == after.pitch.coarse.skip(1) && x.pitchf@ == after.pitch.continuous.skip(1)
            &&& after.blocks == before.blocks && after.stream == before.stream
            &&& 0 < ratio < 0x7f80_0000
        },
        r is Err ==> after.blocks.failed && after.stream == before.stream,
        r is Err && enough_rows(rows, d.features as int) && pitch_fault(
            t,
            elapsed(d, s.sample_rate),
            d.features + 1,
            e,
            tune,
            s.formant,
        ) is Some ==> pitch_fault(t, elapsed(d, s.sample_rate), d.features + 1, e, tune, s.formant) == Some(
            r->Err_0@,
        ) && after.pitch == before.pitch,
{
    if r is Ok {
        law_caches_move_up(t, elapsed(d, s.sample_rate), before.pitch, e, d.features as int);
    }
}

/// Estimates are taken into the caches exactly where nothing is wrong with them and, where the history is aligned, the
/// hop moves the caches on within both.
pub proof fn law_aligned_hops_are_checked(t: Trial, hop: int, cache: int, e: Estimates, tune: u64, formant: u64)
    requires
        0 <= hop,
    ensures
        pitch_fault(t, hop, cache, e, tune, formant) is None <==> pitch::update_fault(e, tune, formant) is None && (
        !t.aligned_pitch_history || (1 <= hop <= e.raw@.len() && hop <= cache)),
        pitch_fault(t, hop, cache, e, tune, formant) is Some && !t.aligned_pitch_history ==> pitch_fault(
            t,
            hop,
            cache,
            e,
            tune,
            formant,
        ) == pitch::update_fault(e, tune, formant),
{
}

} // verus!
