//! What the window decides: why a run cannot be started, what it is started with, and when a change
//! starts it again.
use crate::bits;
use crate::bits::equal_doubles;
use crate::config;
use crate::config::F0Method;
use crate::error::{Unsupported, UnsupportedValue};
use crate::model;
use crate::realtime;
use crate::realtime::{DeviceEntry, DeviceList, Devices};
use crate::session::Stage;
use crate::settings;
use crate::settings::{Backend, Settings, SettingsValue, Voice, DEFAULT_PRESET};
use crate::startup;
use crate::text;
use crate::text::{decimal, join, join3, same};
use vstd::prelude::*;
use vstd::string::*;

verus! {

broadcast use vstd::string::group_string_axioms;

/// What is known of the selected voice model.
pub enum Check {
    Pending,
    /// The name of the template that it fits.
    Fits(String),
    /// Why it cannot be used.
    Unsupported(String),
}

/// What is said of a voice model that cannot be used.
pub open spec fn unsupported_text(u: UnsupportedValue) -> Seq<char> {
    match u {
        UnsupportedValue::Version(v) => "対応外の声モデルです（RVC v2 ではありません: "@ + v + "）"@,
        UnsupportedValue::NoF0 => "対応外の声モデルです（F0 なし）"@,
        UnsupportedValue::Config => "対応外の声モデルです（公式の学習設定 32k / 40k / 48k と違う設定）"@,
        UnsupportedValue::Weights(k) => "対応外の声モデルです（重み "@ + k + " が無いか形が違います）"@,
    }
}

/// What is said of a voice model that cannot be used.
pub fn explain(u: &Unsupported) -> (r: String)
    ensures
        r@ == unsupported_text(u@),
{
    match u {
        Unsupported::Version(v) => join3(
            "対応外の声モデルです（RVC v2 ではありません: ",
            v.as_str(),
            "）",
        ),
        Unsupported::NoF0 => "対応外の声モデルです（F0 なし）".to_owned(),
        Unsupported::Config => "対応外の声モデルです（公式の学習設定 32k / 40k / 48k と違う設定）".to_owned(),
        Unsupported::Weights(k) => join3(
            "対応外の声モデルです（重み ",
            k.as_str(),
            " が無いか形が違います）",
        ),
    }
}

/// The pitch history in milliseconds: 1024 frames of 10.
pub const PITCH_BUDGET_MS: usize = 10240;

/// What is said of a block, a crossfade and a context that take `need` milliseconds of pitch history
/// together.
pub open spec fn over_budget(need: usize) -> Option<Seq<char>> {
    if need > PITCH_BUDGET_MS {
        Some(
            "ブロック長・クロスフェード・文脈長の合計が "@ + text::decimal_of(need as nat)
                + " ms です。10240 ms までにしてください"@,
        )
    } else {
        None
    }
}

/// What is said of lengths that take `need` milliseconds of pitch history together.
pub fn over_pitch_cache(need: usize) -> (r: Option<String>)
    ensures
        model::seen_text(r) == over_budget(need),
{
    if need > PITCH_BUDGET_MS {
        let number = decimal(need);
        Some(
            join3(
                "ブロック長・クロスフェード・文脈長の合計が ",
                number.as_str(),
                " ms です。10240 ms までにしてください",
            ),
        )
    } else {
        None
    }
}

/// Whether a device is listed.
pub open spec fn is_listed(devices: Seq<(Seq<char>, u32)>, name: Seq<char>) -> bool {
    exists|i: int| 0 <= i < devices.len() && (#[trigger] devices[i]).0 == name
}

/// The rate of the first device of a name, and 48000 where there is none.
pub open spec fn rate_of(devices: Seq<(Seq<char>, u32)>, name: Seq<char>, from: int) -> u32
    decreases devices.len() - from,
{
    if from < 0 || from >= devices.len() {
        48000
    } else if devices[from].0 == name {
        devices[from].1
    } else {
        rate_of(devices, name, from + 1)
    }
}

fn find_device(devices: &Vec<DeviceEntry>, name: &str) -> (r: (bool, u32))
    ensures
        r.0 == is_listed(realtime::entries(devices@), name@),
        r.1 == rate_of(realtime::entries(devices@), name@, 0),
{
    let ghost all = realtime::entries(devices@);
    let mut i: usize = 0;
    while i < devices.len()
        invariant
            i <= devices@.len(),
            all == realtime::entries(devices@),
            rate_of(all, name@, 0) == rate_of(all, name@, i as int),
            forall|j: int| 0 <= j < i ==> (#[trigger] all[j]).0 != name@,
        decreases devices@.len() - i,
    {
        assert(all[i as int] == (devices@[i as int].name@, devices@[i as int].default_sample_rate));
        if same(devices[i].name.as_str(), name) {
            return (true, devices[i].default_sample_rate);
        }
        i += 1;
    }
    (false, 48000)
}

/// What is known outside the settings when a start is asked for.
pub struct Surroundings {
    /// What is wrong with the lengths of the low-latency path.
    pub native_problem: Option<String>,
    /// The first file of the low-latency path that is not there.
    pub absent_file: Option<String>,
    /// The pitch history that the lengths take, in milliseconds.
    pub pitch_need: usize,
}

/// What is said of the voice model.
pub open spec fn check_text(c: Check) -> Option<Seq<char>> {
    match c {
        Check::Pending => Some("声モデルを確認しています…"@),
        Check::Unsupported(reason) => Some(reason@),
        Check::Fits(_) => None,
    }
}

/// Why a run cannot be started.
pub open spec fn missing_text(
    s: SettingsValue,
    devices: Option<(Seq<(Seq<char>, u32)>, Seq<(Seq<char>, u32)>)>,
    around: Surroundings,
    check: Check,
) -> Option<Seq<char>> {
    match devices {
        None => Some("音声デバイスを取得できません"@),
        Some((inputs, outputs)) => if !is_listed(inputs, s.options.input) || !is_listed(
            outputs,
            s.options.output,
        ) {
            Some("オプションで入力デバイスと出力デバイスを選んでください"@)
        } else if s.options.monitor matches Some(m) && !is_listed(outputs, m) {
            Some("オプションでモニター出力デバイスを選び直してください"@)
        } else if s.options.voice_model is None {
            Some("オプションで声モデルを選んでください"@)
        } else if s.options.backend == Backend::Deiteris && around.native_problem is Some {
            Some("Deiteris の設定: "@ + around.native_problem->Some_0@)
        } else if s.options.backend == Backend::Deiteris && around.absent_file is Some {
            Some("Deiteris の資産がありません: "@ + around.absent_file->Some_0@)
        } else if s.options.backend == Backend::Legacy && over_budget(around.pitch_need) is Some {
            over_budget(around.pitch_need)
        } else {
            check_text(check)
        },
    }
}

/// The inputs and the outputs of a list.
pub open spec fn listing(devices: Option<DeviceList>) -> Option<
    (Seq<(Seq<char>, u32)>, Seq<(Seq<char>, u32)>),
> {
    match devices {
        Some(d) => Some((realtime::entries(d.inputs@), realtime::entries(d.outputs@))),
        None => None,
    }
}

/// Why a run cannot be started, or nothing where all is there.
pub fn missing(s: &Settings, devices: &Option<DeviceList>, around: &Surroundings, check: &Check) -> (r: Option<
    String,
>)
    ensures
        model::seen_text(r) == missing_text(s@, listing(*devices), *around, *check),
{
    let list: &DeviceList = match devices {
        Some(d) => d,
        None => {
            return Some("音声デバイスを取得できません".to_owned());
        },
    };
    if !find_device(&list.inputs, s.input.as_str()).0 || !find_device(
        &list.outputs,
        s.output.as_str(),
    ).0 {
        return Some("オプションで入力デバイスと出力デバイスを選んでください".to_owned());
    }
    if let Some(m) = &s.monitor {
        if !find_device(&list.outputs, m.as_str()).0 {
            return Some("オプションでモニター出力デバイスを選び直してください".to_owned());
        }
    }
    if s.voice_model.is_none() {
        return Some("オプションで声モデルを選んでください".to_owned());
    }
    match s.backend {
        Backend::Deiteris => {
            if let Some(problem) = &around.native_problem {
                return Some(join("Deiteris の設定: ", problem.as_str()));
            }
            if let Some(file) = &around.absent_file {
                return Some(join("Deiteris の資産がありません: ", file.as_str()));
            }
        },
        Backend::Legacy => {
            let problem = over_pitch_cache(around.pitch_need);
            if problem.is_some() {
                return problem;
            }
        },
    }
    match check {
        Check::Pending => Some("声モデルを確認しています…".to_owned()),
        Check::Unsupported(reason) => Some(reason.clone()),
        Check::Fits(_) => None,
    }
}

/// The files of the low-latency path.
pub open spec fn asset_files() -> Seq<Seq<char>> {
    seq![
        "tg-fast-v1/audio-contract.json"@,
        "tg-fast-v1/contentvec.onnx"@,
        "tg-fast-v1/post.onnx"@,
        "tg-fast-v1/rmvpe-salience.onnx"@,
        "tg-fast-v1/hann.f32"@,
        "tg-fast-v1/mel-basis.f32"@,
        "tg-gpu-pitch-v2/contract.json"@,
        "tg-gpu-pitch-v2/frame.onnx"@,
        "tg-gpu-pitch-v2/mel.onnx"@,
        "tg-gpu-pitch-v2/rmvpe-salience.onnx"@,
        "tg-gpu-pitch-v2/decode.onnx"@,
    ]
}

fn put_file(out: &mut Vec<String>, name: &str)
    ensures
        text::texts(final(out)@) == text::texts(old(out)@).push(name@),
{
    out.push(name.to_owned());
    assert(text::texts(out@) =~= text::texts(old(out)@).push(name@));
}

/// The files of the low-latency path.
pub fn required_files() -> (r: Vec<String>)
    ensures
        text::texts(r@) == asset_files(),
{
    let mut out: Vec<String> = Vec::new();
    assert(text::texts(out@) =~= seq![]);
    put_file(&mut out, "tg-fast-v1/audio-contract.json");
    put_file(&mut out, "tg-fast-v1/contentvec.onnx");
    put_file(&mut out, "tg-fast-v1/post.onnx");
    put_file(&mut out, "tg-fast-v1/rmvpe-salience.onnx");
    put_file(&mut out, "tg-fast-v1/hann.f32");
    put_file(&mut out, "tg-fast-v1/mel-basis.f32");
    put_file(&mut out, "tg-gpu-pitch-v2/contract.json");
    put_file(&mut out, "tg-gpu-pitch-v2/frame.onnx");
    put_file(&mut out, "tg-gpu-pitch-v2/mel.onnx");
    put_file(&mut out, "tg-gpu-pitch-v2/rmvpe-salience.onnx");
    put_file(&mut out, "tg-gpu-pitch-v2/decode.onnx");
    out
}

/// The formant of the selected model, and zero where it has no voice yet.
pub open spec fn formant_of(s: SettingsValue) -> u64 {
    match s.options.voice_model {
        Some(path) => if s.voices.contains_key(path) {
            s.voices[path].formant
        } else {
            0
        },
        None => 0,
    }
}

fn formant(s: &Settings) -> (r: u64)
    ensures
        r == formant_of(s@),
{
    match &s.voice_model {
        Some(path) => match s.known_voice(path.as_str()) {
            Some(v) => v.formant,
            None => 0,
        },
        None => 0,
    }
}

/// The rate of the input device.
pub open spec fn input_rate(s: SettingsValue, devices: Option<(Seq<(Seq<char>, u32)>, Seq<(Seq<char>, u32)>)>) -> u32 {
    match devices {
        Some((inputs, _)) => rate_of(inputs, s.options.input, 0),
        None => 48000,
    }
}

fn rate_of_input(s: &Settings, devices: &Option<DeviceList>) -> (r: u32)
    ensures
        r == input_rate(s@, listing(*devices)),
{
    match devices {
        Some(d) => find_device(&d.inputs, s.input.as_str()).1,
        None => 48000,
    }
}

/// What the low-latency path is started with.
pub fn native_startup(s: &Settings, devices: &Option<DeviceList>) -> (r: startup::Startup)
    ensures
        r.sample_rate == input_rate(s@, listing(*devices)),
        r.chunk == s.native.chunk,
        r.block_frames is None,
        r.extra_ms == s.native.extra_ms,
        r.crossfade_ms == s.native.crossfade_ms,
        r.formant == formant_of(s@),
{
    startup::Startup {
        sample_rate: rate_of_input(s, devices) as usize,
        chunk: s.native.chunk,
        block_frames: None,
        extra_ms: s.native.extra_ms,
        crossfade_ms: s.native.crossfade_ms,
        formant: formant(s),
    }
}

/// What a run is started with.
pub struct Request {
    pub voice_model: String,
    /// Set for the low-latency path.
    pub native: Option<startup::Startup>,
    pub cuda_graph: bool,
    pub startup: config::Startup,
    pub devices: Devices,
    pub live: Live,
}

/// What a run takes up while it goes on.
#[derive(Clone, Copy, PartialEq, Eq, Structural, Debug)]
pub struct Live {
    pub pitch: u32,
    pub rms_mix: u32,
    pub threshold_db: u32,
    pub skip_silence: bool,
    /// In percent.
    pub monitor_volume: u32,
}

/// What a run of `backend` takes up: the low-latency path has its own threshold, and converts silence
/// too.
pub open spec fn live_values(s: SettingsValue, backend: Backend, voice: Voice) -> Live {
    Live {
        pitch: voice.pitch,
        rms_mix: s.options.rms_mix,
        threshold_db: if backend == Backend::Deiteris {
            s.options.native.threshold_db
        } else {
            s.options.threshold_db
        },
        skip_silence: backend == Backend::Legacy && s.options.skip_silence,
        monitor_volume: s.options.monitor_volume,
    }
}

/// What a run of `backend` takes up.
pub fn live(s: &Settings, backend: Backend, voice: &Voice) -> (r: Live)
    ensures
        r == live_values(s@, backend, *voice),
{
    let native: bool = match backend {
        Backend::Deiteris => true,
        Backend::Legacy => false,
    };
    Live {
        pitch: voice.pitch,
        rms_mix: s.rms_mix,
        threshold_db: if native {
            s.native.threshold_db
        } else {
            s.threshold_db
        },
        skip_silence: !native && s.skip_silence,
        monitor_volume: s.monitor_volume,
    }
}

/// Whether a request is what the settings ask for.
pub open spec fn requested(
    s: SettingsValue,
    devices: Option<(Seq<(Seq<char>, u32)>, Seq<(Seq<char>, u32)>)>,
    voice: Voice,
    r: Request,
) -> bool {
    let o = s.options;
    &&& o.voice_model == Some(r.voice_model@)
    &&& match r.native {
        Some(n) => {
            &&& o.backend == Backend::Deiteris
            &&& n.sample_rate == input_rate(s, devices)
            &&& n.chunk == o.native.chunk
            &&& n.block_frames is None
            &&& n.extra_ms == o.native.extra_ms
            &&& n.crossfade_ms == o.native.crossfade_ms
            &&& n.formant == formant_of(s)
        },
        None => o.backend == Backend::Legacy,
    }
    &&& r.cuda_graph == o.native.cuda_graph
    &&& r.startup.sample_rate == input_rate(s, devices)
    &&& r.startup.block_ms == o.block_ms
    &&& r.startup.crossfade_ms == o.crossfade_ms
    &&& r.startup.extra_ms == o.extra_ms
    &&& r.startup.formant == voice.formant
    &&& r.startup.f0 == (if o.f0 == "rmvpe"@ {
        F0Method::Rmvpe
    } else {
        F0Method::Fcpe
    })
    &&& r.devices.input@ == o.input
    &&& r.devices.output@ == o.output
    &&& model::seen_text(r.devices.monitor) == o.monitor
    &&& r.devices.wasapi_exclusive == o.exclusive
    &&& r.live == live_values(s, o.backend, voice)
}

/// What a run is started with; nothing without a voice model or a list of devices. `voice` is that of
/// the selected model.
pub fn request(s: &Settings, devices: &Option<DeviceList>, voice: &Voice) -> (r: Option<Request>)
    ensures
        match r {
            Some(q) => devices is Some && requested(s@, listing(*devices), *voice, q),
            None => s@.options.voice_model is None || devices is None,
        },
{
    if devices.is_none() {
        return None;
    }
    let voice_model: String = match &s.voice_model {
        Some(path) => path.clone(),
        None => {
            return None;
        },
    };
    let native: Option<startup::Startup> = match s.backend {
        Backend::Deiteris => Some(native_startup(s, devices)),
        Backend::Legacy => None,
    };
    let f0 = if same(s.f0.as_str(), "rmvpe") {
        F0Method::Rmvpe
    } else {
        F0Method::Fcpe
    };
    let monitor: Option<String> = match &s.monitor {
        Some(m) => Some(m.clone()),
        None => None,
    };
    let values = live(s, s.backend, voice);
    Some(
        Request {
            voice_model,
            native,
            cuda_graph: s.native.cuda_graph,
            startup: config::Startup {
                sample_rate: rate_of_input(s, devices),
                block_ms: s.block_ms,
                crossfade_ms: s.crossfade_ms,
                extra_ms: s.extra_ms,
                formant: voice.formant,
                f0,
            },
            devices: Devices {
                input: s.input.clone(),
                output: s.output.clone(),
                monitor,
                wasapi_exclusive: s.exclusive,
            },
            live: values,
        },
    )
}

/// Everything that needs the engine to be started again when it changes.
pub struct StartKey {
    pub backend: Backend,
    pub native_chunk: usize,
    pub native_extra: u64,
    pub native_crossfade: u64,
    pub native_graph: bool,
    pub input: String,
    pub output: String,
    pub monitor: Option<String>,
    pub exclusive: bool,
    pub voice_model: Option<String>,
    pub f0: String,
    pub block_ms: u64,
    pub crossfade_ms: u64,
    pub extra_ms: u64,
    pub formant: u64,
}

/// What a [`StartKey`] holds.
pub struct StartKeyValue {
    pub backend: Backend,
    pub native_chunk: usize,
    pub native_extra: u64,
    pub native_crossfade: u64,
    pub native_graph: bool,
    pub input: Seq<char>,
    pub output: Seq<char>,
    pub monitor: Option<Seq<char>>,
    pub exclusive: bool,
    pub voice_model: Option<Seq<char>>,
    pub f0: Seq<char>,
    pub block_ms: u64,
    pub crossfade_ms: u64,
    pub extra_ms: u64,
    pub formant: u64,
}

impl View for StartKey {
    type V = StartKeyValue;

    open spec fn view(&self) -> StartKeyValue {
        StartKeyValue {
            backend: self.backend,
            native_chunk: self.native_chunk,
            native_extra: self.native_extra,
            native_crossfade: self.native_crossfade,
            native_graph: self.native_graph,
            input: self.input@,
            output: self.output@,
            monitor: model::seen_text(self.monitor),
            exclusive: self.exclusive,
            voice_model: model::seen_text(self.voice_model),
            f0: self.f0@,
            block_ms: self.block_ms,
            crossfade_ms: self.crossfade_ms,
            extra_ms: self.extra_ms,
            formant: self.formant,
        }
    }
}

/// The key of settings.
pub open spec fn key_of(s: SettingsValue) -> StartKeyValue {
    StartKeyValue {
        backend: s.options.backend,
        native_chunk: s.options.native.chunk,
        native_extra: s.options.native.extra_ms,
        native_crossfade: s.options.native.crossfade_ms,
        native_graph: s.options.native.cuda_graph,
        input: s.options.input,
        output: s.options.output,
        monitor: s.options.monitor,
        exclusive: s.options.exclusive,
        voice_model: s.options.voice_model,
        f0: s.options.f0,
        block_ms: s.options.block_ms,
        crossfade_ms: s.options.crossfade_ms,
        extra_ms: s.options.extra_ms,
        formant: formant_of(s),
    }
}

/// Whether two keys are equal: numbers by value.
pub open spec fn same_keys(a: StartKeyValue, b: StartKeyValue) -> bool {
    &&& a.backend == b.backend
    &&& a.native_chunk == b.native_chunk
    &&& bits::double_equal(a.native_extra, b.native_extra)
    &&& bits::double_equal(a.native_crossfade, b.native_crossfade)
    &&& a.native_graph == b.native_graph
    &&& a.input == b.input
    &&& a.output == b.output
    &&& a.monitor == b.monitor
    &&& a.exclusive == b.exclusive
    &&& a.voice_model == b.voice_model
    &&& a.f0 == b.f0
    &&& bits::double_equal(a.block_ms, b.block_ms)
    &&& bits::double_equal(a.crossfade_ms, b.crossfade_ms)
    &&& bits::double_equal(a.extra_ms, b.extra_ms)
    &&& bits::double_equal(a.formant, b.formant)
}

/// The key of settings.
pub fn start_key(s: &Settings) -> (r: StartKey)
    ensures
        r@ == key_of(s@),
{
    let monitor: Option<String> = match &s.monitor {
        Some(m) => Some(m.clone()),
        None => None,
    };
    let voice_model: Option<String> = match &s.voice_model {
        Some(m) => Some(m.clone()),
        None => None,
    };
    StartKey {
        backend: s.backend,
        native_chunk: s.native.chunk,
        native_extra: s.native.extra_ms,
        native_crossfade: s.native.crossfade_ms,
        native_graph: s.native.cuda_graph,
        input: s.input.clone(),
        output: s.output.clone(),
        monitor,
        exclusive: s.exclusive,
        voice_model,
        f0: s.f0.clone(),
        block_ms: s.block_ms,
        crossfade_ms: s.crossfade_ms,
        extra_ms: s.extra_ms,
        formant: formant(s),
    }
}

fn same_texts(a: &Option<String>, b: &Option<String>) -> (r: bool)
    ensures
        r == (model::seen_text(*a) == model::seen_text(*b)),
{
    match (a, b) {
        (Some(x), Some(y)) => same(x.as_str(), y.as_str()),
        (None, None) => true,
        _ => false,
    }
}

impl StartKey {
    /// Whether two keys are equal.
    pub fn equals(&self, other: &StartKey) -> (r: bool)
        ensures
            r == same_keys(self@, other@),
    {
        let texts: bool = same(self.input.as_str(), other.input.as_str()) && same(
            self.output.as_str(),
            other.output.as_str(),
        ) && same(self.f0.as_str(), other.f0.as_str()) && same_texts(&self.monitor, &other.monitor)
            && same_texts(&self.voice_model, &other.voice_model);
        let numbers: bool = equal_doubles(self.native_extra, other.native_extra) && equal_doubles(
            self.native_crossfade,
            other.native_crossfade,
        ) && equal_doubles(self.block_ms, other.block_ms) && equal_doubles(
            self.crossfade_ms,
            other.crossfade_ms,
        ) && equal_doubles(self.extra_ms, other.extra_ms) && equal_doubles(
            self.formant,
            other.formant,
        );
        texts && numbers && self.backend == other.backend && self.native_chunk == other.native_chunk
            && self.native_graph == other.native_graph && self.exclusive == other.exclusive
    }
}

/// What else decides whether a run is started again.
#[derive(Clone, Copy, PartialEq, Eq, Structural, Debug)]
pub struct Moment {
    pub stage: Stage,
    /// A value is still being set.
    pub dragging: bool,
    /// The selected voice model is still being looked at.
    pub checking: bool,
    /// Something is missing for a start.
    pub incomplete: bool,
}

/// Whether the run is started again: once the value is set and the current start has finished, and not
/// with a configuration that is incomplete.
pub open spec fn restarts(m: Moment, started: Option<StartKeyValue>, now: StartKeyValue) -> bool {
    &&& m.stage == Stage::Running
    &&& !m.dragging
    &&& !m.checking
    &&& !m.incomplete
    &&& started matches Some(k) && !same_keys(k, now)
}

/// Whether the run is started again.
pub fn restart(m: &Moment, started: &Option<StartKey>, s: &Settings) -> (r: bool)
    ensures
        r == restarts(
            *m,
            match *started {
                Some(k) => Some(k@),
                None => None,
            },
            key_of(s@),
        ),
{
    let changed: bool = match started {
        Some(k) => !k.equals(&start_key(s)),
        None => false,
    };
    m.stage == Stage::Running && !m.dragging && !m.checking && !m.incomplete && changed
}

/// A name that is being given to a preset.
#[derive(Clone, Copy, PartialEq, Eq, Structural, Debug)]
pub enum Naming {
    New,
    Rename,
}

/// What becomes of a name that was entered.
#[derive(Clone, Copy, PartialEq, Eq, Structural, Debug)]
pub enum Named {
    /// Nothing: there is no name yet.
    Empty,
    /// The name stays as it is.
    Unchanged,
    /// Another preset has it.
    Taken,
    /// It is used.
    Accepted,
}

/// What becomes of a name that was entered.
pub open spec fn naming(s: SettingsValue, kind: Naming, name: Seq<char>) -> Named {
    if name.len() == 0 {
        Named::Empty
    } else if kind == Naming::Rename && name == s.active_preset {
        Named::Unchanged
    } else if name == DEFAULT_PRESET@ || settings::has_preset(s.presets, name) {
        Named::Taken
    } else {
        Named::Accepted
    }
}

/// What becomes of a name that was entered, without the space around it.
pub fn enter_name(s: &Settings, kind: Naming, name: &str) -> (r: Named)
    ensures
        r == naming(s@, kind, name@),
{
    if name.unicode_len() == 0 {
        return Named::Empty;
    }
    if kind == Naming::Rename && same(name, s.active_preset.as_str()) {
        return Named::Unchanged;
    }
    if !s.name_is_free(name) {
        return Named::Taken;
    }
    Named::Accepted
}

/// A start that goes through is not started again as long as the settings keep their values.
pub proof fn law_no_restart_without_change(m: Moment, s: SettingsValue)
    requires
        !bits::double_is_nan(s.options.native.extra_ms),
        !bits::double_is_nan(s.options.native.crossfade_ms),
        !bits::double_is_nan(s.options.block_ms),
        !bits::double_is_nan(s.options.crossfade_ms),
        !bits::double_is_nan(s.options.extra_ms),
        !bits::double_is_nan(formant_of(s)),
    ensures
        !restarts(m, Some(key_of(s)), key_of(s)),
{
}

/// What a run takes up while it goes on does not start it again: the pitch of the voice, the loudness, the
/// silence and the volume of the monitor.
pub proof fn law_live_values_do_not_restart(s: SettingsValue, l: Live, native_threshold: u32)
    ensures
        ({
            let t = SettingsValue {
                options: settings::Options {
                    rms_mix: l.rms_mix,
                    threshold_db: l.threshold_db,
                    skip_silence: l.skip_silence,
                    monitor_volume: l.monitor_volume,
                    native: settings::NativeSettings {
                        threshold_db: native_threshold,
                        ..s.options.native
                    },
                    ..s.options
                },
                voices: match s.options.voice_model {
                    Some(path) => if s.voices.dom().contains(path) {
                        s.voices.insert(path, Voice { pitch: l.pitch, ..s.voices[path] })
                    } else {
                        s.voices
                    },
                    None => s.voices,
                },
                ..s
            };
            key_of(t) == key_of(s)
        }),
{
}

/// Every other change starts a run again, once it is set and complete: one that goes on has the path, the
/// devices, the voice model, the lengths and the formant that are chosen.
pub proof fn law_other_changes_restart(m: Moment, s: SettingsValue, t: SettingsValue)
    requires
        m.stage == Stage::Running,
        !m.dragging,
        !m.checking,
        !m.incomplete,
        !restarts(m, Some(key_of(s)), key_of(t)),
    ensures
        t.options.backend == s.options.backend,
        t.options.native.chunk == s.options.native.chunk,
        bits::double_equal(s.options.native.extra_ms, t.options.native.extra_ms),
        bits::double_equal(s.options.native.crossfade_ms, t.options.native.crossfade_ms),
        t.options.native.cuda_graph == s.options.native.cuda_graph,
        t.options.input == s.options.input,
        t.options.output == s.options.output,
        t.options.monitor == s.options.monitor,
        t.options.exclusive == s.options.exclusive,
        t.options.voice_model == s.options.voice_model,
        t.options.f0 == s.options.f0,
        bits::double_equal(s.options.block_ms, t.options.block_ms),
        bits::double_equal(s.options.crossfade_ms, t.options.crossfade_ms),
        bits::double_equal(s.options.extra_ms, t.options.extra_ms),
        bits::double_equal(formant_of(s), formant_of(t)),
{
}

/// A run can be started where its devices are listed, a voice model is chosen and fits, and its path has what
/// it needs: the low-latency path its files and lengths that are in order, the other one lengths that take
/// 10240 ms of pitch history at most.
pub proof fn law_complete_configurations_start(
    s: SettingsValue,
    inputs: Seq<(Seq<char>, u32)>,
    outputs: Seq<(Seq<char>, u32)>,
    around: Surroundings,
    check: Check,
)
    ensures
        missing_text(s, None, around, check) is Some,
        missing_text(s, Some((inputs, outputs)), around, check) is None <==> {
            &&& exists|i: int| 0 <= i < inputs.len() && (#[trigger] inputs[i]).0 == s.options.input
            &&& exists|i: int| 0 <= i < outputs.len() && (#[trigger] outputs[i]).0 == s.options.output
            &&& s.options.monitor matches Some(m) ==> exists|i: int|
                0 <= i < outputs.len() && (#[trigger] outputs[i]).0 == m
            &&& s.options.voice_model is Some
            &&& s.options.backend == Backend::Deiteris ==> around.native_problem is None
                && around.absent_file is None
            &&& s.options.backend == Backend::Legacy ==> around.pitch_need <= 10240
            &&& check is Fits
        },
{
}

proof fn lemma_rate(devices: Seq<(Seq<char>, u32)>, name: Seq<char>, from: int, at: int)
    requires
        0 <= from <= at <= devices.len(),
        forall|i: int| from <= i < at ==> (#[trigger] devices[i]).0 != name,
        at < devices.len() ==> devices[at].0 == name,
    ensures
        rate_of(devices, name, from) == if at < devices.len() {
            devices[at].1
        } else {
            48000
        },
    decreases at - from,
{
    if from < at {
        lemma_rate(devices, name, from + 1, at);
    }
}

/// A run has the rate of the first input device of the chosen name, and 48000 where none is listed.
pub proof fn law_run_has_the_rate_of_its_input(
    s: SettingsValue,
    inputs: Seq<(Seq<char>, u32)>,
    outputs: Seq<(Seq<char>, u32)>,
    at: int,
)
    requires
        0 <= at <= inputs.len(),
        forall|i: int| 0 <= i < at ==> (#[trigger] inputs[i]).0 != s.options.input,
        at < inputs.len() ==> inputs[at].0 == s.options.input,
    ensures
        at < inputs.len() ==> input_rate(s, Some((inputs, outputs))) == inputs[at].1,
        at == inputs.len() ==> input_rate(s, Some((inputs, outputs))) == 48000,
        input_rate(s, None) == 48000,
{
    lemma_rate(inputs, s.options.input, 0, at);
}

/// A run is asked for with what is set: the voice model, the path with its own lengths, the devices, and the
/// formant of the voice.
pub proof fn law_requests_are_what_is_set(
    s: SettingsValue,
    devices: Option<(Seq<(Seq<char>, u32)>, Seq<(Seq<char>, u32)>)>,
    voice: Voice,
    r: Request,
)
    requires
        requested(s, devices, voice, r),
    ensures
        s.options.voice_model == Some(r.voice_model@),
        r.native is Some == (s.options.backend == Backend::Deiteris),
        r.native matches Some(n) ==> {
            &&& n.sample_rate == input_rate(s, devices)
            &&& n.chunk == s.options.native.chunk
            &&& n.extra_ms == s.options.native.extra_ms
            &&& n.crossfade_ms == s.options.native.crossfade_ms
            &&& n.block_frames is None
            &&& s.voices.dom().contains(r.voice_model@) ==> n.formant
                == s.voices[r.voice_model@].formant
        },
        r.startup.sample_rate == input_rate(s, devices),
        r.startup.block_ms == s.options.block_ms,
        r.startup.crossfade_ms == s.options.crossfade_ms,
        r.startup.extra_ms == s.options.extra_ms,
        r.startup.formant == voice.formant,
        (r.startup.f0 == F0Method::Rmvpe) == (s.options.f0 == "rmvpe"@),
        r.devices.input@ == s.options.input,
        r.devices.output@ == s.options.output,
        r.devices.monitor is Some == s.options.monitor is Some,
        r.devices.monitor matches Some(m) ==> s.options.monitor == Some(m@),
        r.devices.wasapi_exclusive == s.options.exclusive,
        r.cuda_graph == s.options.native.cuda_graph,
        r.live.pitch == voice.pitch,
        r.live.rms_mix == s.options.rms_mix,
        r.live.monitor_volume == s.options.monitor_volume,
        s.options.backend == Backend::Deiteris ==> r.live.threshold_db == s.options.native.threshold_db
            && !r.live.skip_silence,
        s.options.backend == Backend::Legacy ==> r.live.threshold_db == s.options.threshold_db
            && r.live.skip_silence == s.options.skip_silence,
{
}

/// A run goes on while a value is being set, a voice model is looked at, something is missing, or it has not
/// begun.
pub proof fn law_runs_wait_before_they_start_again(m: Moment, started: Option<StartKeyValue>, now: StartKeyValue)
    requires
        restarts(m, started, now),
    ensures
        m.stage == Stage::Running,
        !m.dragging,
        !m.checking,
        !m.incomplete,
        started is Some,
        started != Some(now) || bits::double_is_nan(now.native_extra) || bits::double_is_nan(
            now.native_crossfade,
        ) || bits::double_is_nan(now.block_ms) || bits::double_is_nan(now.crossfade_ms)
            || bits::double_is_nan(now.extra_ms) || bits::double_is_nan(now.formant),
{
}

/// A preset gets any name that is not empty, not the default's and not another preset's; its own name stays.
pub proof fn law_free_names_are_accepted(s: SettingsValue, kind: Naming, name: Seq<char>)
    ensures
        naming(s, kind, name) == Named::Empty <==> name.len() == 0,
        name.len() > 0 && kind == Naming::Rename && name == s.active_preset ==> naming(s, kind, name)
            == Named::Unchanged,
        name.len() > 0 && !(kind == Naming::Rename && name == s.active_preset) ==> {
            let taken = name == DEFAULT_PRESET@ || exists|i: int|
                0 <= i < s.presets.len() && (#[trigger] s.presets[i]).name == name;
            &&& taken ==> naming(s, kind, name) == Named::Taken
            &&& !taken ==> naming(s, kind, name) == Named::Accepted
        },
{
    settings::lemma_place(s.presets, name, 0);
}

/// The formant of a run is that of its voice model, and zero where nothing is known of it.
pub proof fn law_formant_is_that_of_the_voice(s: SettingsValue, path: Seq<char>)
    ensures
        s.options.voice_model == Some(path) && s.voices.dom().contains(path) ==> formant_of(s)
            == s.voices[path].formant,
        s.options.voice_model == Some(path) && !s.voices.dom().contains(path) ==> formant_of(s) == 0,
        s.options.voice_model is None ==> formant_of(s) == 0,
{
}

/// What is said of too long a history names its length.
pub proof fn law_budget_is_the_pitch_history(need: usize)
    ensures
        over_budget(need) is Some <==> need > 10240,
{
}

} // verus!
