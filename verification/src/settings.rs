//! The saved configuration: the options in use, the voice of every model, and the presets.
//!
//! Paths are texts; numbers with a fraction are their bits.
use crate::bits;
use crate::bits::{equal_doubles, equal_singles};
use crate::json;
use crate::json::{parse_document, Json, JsonValue};
use crate::model;
use crate::text::same;
use crate::voice_model;
use crate::voice_model::double_of;
use vstd::prelude::*;
use vstd::string::*;

verus! {

broadcast use vstd::string::group_string_axioms;

/// Which path converts.
#[derive(Clone, Copy, PartialEq, Eq, Structural, Debug)]
pub enum Backend {
    Legacy,
    Deiteris,
}

impl Default for Backend {
    fn default() -> (r: Backend)
        ensures
            r == Backend::Legacy,
    {
        Backend::Legacy
    }
}

/// The options of the low-latency path.
#[derive(Clone, Copy, PartialEq, Eq, Structural, Debug)]
pub struct NativeSettings {
    pub chunk: usize,
    pub extra_ms: u64,
    pub crossfade_ms: u64,
    pub threshold_db: u32,
    pub cuda_graph: bool,
}

impl Default for NativeSettings {
    /// 19 chunks, 500 ms of context, a crossfade of 100 ms, and silence below -90 dB.
    fn default() -> (r: NativeSettings)
        ensures
            r == (NativeSettings {
                chunk: 19,
                extra_ms: 0x407f_4000_0000_0000,
                crossfade_ms: 0x4059_0000_0000_0000,
                threshold_db: 0xc2b4_0000,
                cuda_graph: true,
            }),
    {
        NativeSettings {
            chunk: 19,
            extra_ms: 0x407f_4000_0000_0000,
            crossfade_ms: 0x4059_0000_0000_0000,
            threshold_db: 0xc2b4_0000,
            cuda_graph: true,
        }
    }
}

/// The pitch and the formant of a voice model.
#[derive(Clone, Copy, PartialEq, Eq, Structural, Debug)]
pub struct Voice {
    pub pitch: u32,
    pub formant: u64,
}

/// The voice of a model that nothing is known of.
pub open spec fn plain_voice() -> Voice {
    Voice { pitch: 0, formant: 0 }
}

/// The configuration.
pub struct Settings {
    pub backend: Backend,
    pub native: NativeSettings,
    pub input: String,
    pub output: String,
    pub monitor: Option<String>,
    pub exclusive: bool,
    pub voice_model: Option<String>,
    /// "fcpe" or "rmvpe".
    pub f0: String,
    pub block_ms: u64,
    pub crossfade_ms: u64,
    pub extra_ms: u64,
    pub rms_mix: u32,
    /// What counts as silence, in dB; -60 is off.
    pub threshold_db: u32,
    /// Nothing is converted while the input is silent.
    pub skip_silence: bool,
    /// In percent.
    pub monitor_volume: u32,
    /// The voice of every model.
    pub voices: Vec<(String, Voice)>,
    pub presets: Vec<Preset>,
    pub active_preset: String,
    /// The model that the default preset always uses.
    pub default_voice: String,
    /// Which defaults the default preset was last brought up to.
    pub defaults_version: u32,
}

/// The options under a name.
pub struct Preset {
    pub backend: Backend,
    pub native: NativeSettings,
    pub name: String,
    pub input: String,
    pub output: String,
    pub monitor: Option<String>,
    pub exclusive: bool,
    pub voice_model: Option<String>,
    pub pitch: u32,
    pub formant: u64,
    pub rms_mix: u32,
    pub threshold_db: u32,
    pub skip_silence: bool,
    pub f0: String,
    pub monitor_volume: u32,
    pub block_ms: u64,
    pub crossfade_ms: u64,
    pub extra_ms: u64,
}

/// The options that a preset keeps, without its name.
pub struct Options {
    pub backend: Backend,
    pub native: NativeSettings,
    pub input: Seq<char>,
    pub output: Seq<char>,
    pub monitor: Option<Seq<char>>,
    pub exclusive: bool,
    pub voice_model: Option<Seq<char>>,
    pub rms_mix: u32,
    pub threshold_db: u32,
    pub skip_silence: bool,
    pub f0: Seq<char>,
    pub monitor_volume: u32,
    pub block_ms: u64,
    pub crossfade_ms: u64,
    pub extra_ms: u64,
}

/// What a [`Preset`] holds.
pub struct PresetValue {
    pub name: Seq<char>,
    pub options: Options,
    pub voice: Voice,
}

impl View for Preset {
    type V = PresetValue;

    open spec fn view(&self) -> PresetValue {
        PresetValue {
            name: self.name@,
            options: Options {
                backend: self.backend,
                native: self.native,
                input: self.input@,
                output: self.output@,
                monitor: model::seen_text(self.monitor),
                exclusive: self.exclusive,
                voice_model: model::seen_text(self.voice_model),
                rms_mix: self.rms_mix,
                threshold_db: self.threshold_db,
                skip_silence: self.skip_silence,
                f0: self.f0@,
                monitor_volume: self.monitor_volume,
                block_ms: self.block_ms,
                crossfade_ms: self.crossfade_ms,
                extra_ms: self.extra_ms,
            },
            voice: Voice { pitch: self.pitch, formant: self.formant },
        }
    }
}

/// The last voice under a path.
pub open spec fn voice_at(xs: Seq<(String, Voice)>, path: Seq<char>) -> Option<Voice>
    decreases xs.len(),
{
    if xs.len() == 0 {
        None
    } else if xs.last().0@ == path {
        Some(xs.last().1)
    } else {
        voice_at(xs.drop_last(), path)
    }
}

/// The voices by their paths.
pub open spec fn voice_map(xs: Seq<(String, Voice)>) -> Map<Seq<char>, Voice> {
    Map::new(|path: Seq<char>| voice_at(xs, path) is Some, |path: Seq<char>| voice_at(xs, path)->Some_0)
}

pub open spec fn preset_values(xs: Seq<Preset>) -> Seq<PresetValue> {
    Seq::new(xs.len(), |i: int| xs[i]@)
}

/// What a [`Settings`] holds.
pub struct SettingsValue {
    pub options: Options,
    pub voices: Map<Seq<char>, Voice>,
    pub presets: Seq<PresetValue>,
    pub active_preset: Seq<char>,
    pub default_voice: Seq<char>,
    pub defaults_version: u32,
}

impl View for Settings {
    type V = SettingsValue;

    open spec fn view(&self) -> SettingsValue {
        SettingsValue {
            options: Options {
                backend: self.backend,
                native: self.native,
                input: self.input@,
                output: self.output@,
                monitor: model::seen_text(self.monitor),
                exclusive: self.exclusive,
                voice_model: model::seen_text(self.voice_model),
                rms_mix: self.rms_mix,
                threshold_db: self.threshold_db,
                skip_silence: self.skip_silence,
                f0: self.f0@,
                monitor_volume: self.monitor_volume,
                block_ms: self.block_ms,
                crossfade_ms: self.crossfade_ms,
                extra_ms: self.extra_ms,
            },
            voices: voice_map(self.voices@),
            presets: preset_values(self.presets@),
            active_preset: self.active_preset@,
            default_voice: self.default_voice@,
            defaults_version: self.defaults_version,
        }
    }
}

/// The preset that always exists and cannot be renamed or deleted.
pub const DEFAULT_PRESET: &'static str = "デフォルト";

/// Up to 1 the default was FCPE with a crossfade of 80 ms and half of the input's loudness; from 2 on it
/// is RMVPE with 100 ms and the output's own loudness.
pub const DEFAULTS_VERSION: u32 = 2;

/// The options before anything was chosen: blocks of 60 ms, a context of 1000 ms, RMVPE, a crossfade of
/// 100 ms, and silence below -60 dB.
pub open spec fn fresh_options() -> Options {
    Options {
        backend: Backend::Deiteris,
        native: NativeSettings {
            chunk: 19,
            extra_ms: 0x407f_4000_0000_0000,
            crossfade_ms: 0x4059_0000_0000_0000,
            threshold_db: 0xc2b4_0000,
            cuda_graph: true,
        },
        input: Seq::empty(),
        output: Seq::empty(),
        monitor: None,
        exclusive: false,
        voice_model: None,
        rms_mix: 0x3f80_0000,
        threshold_db: 0xc270_0000,
        skip_silence: true,
        f0: "rmvpe"@,
        monitor_volume: 50,
        block_ms: 0x404e_0000_0000_0000,
        crossfade_ms: 0x4059_0000_0000_0000,
        extra_ms: 0x408f_4000_0000_0000,
    }
}

impl Default for Settings {
    fn default() -> (r: Settings)
        ensures
            r@ == (SettingsValue {
                options: fresh_options(),
                voices: Map::empty(),
                presets: Seq::empty(),
                active_preset: DEFAULT_PRESET@,
                default_voice: Seq::empty(),
                defaults_version: 0,
            }),
            r.voices@.len() == 0,
    {
        let voices: Vec<(String, Voice)> = Vec::new();
        let presets: Vec<Preset> = Vec::new();
        proof {
            reveal_strlit("");
            assert(""@ =~= Seq::<char>::empty());
            assert(voice_map(voices@) =~= Map::<Seq<char>, Voice>::empty());
            assert(preset_values(presets@) =~= Seq::<PresetValue>::empty());
        }
        Settings {
            backend: Backend::Deiteris,
            native: NativeSettings::default(),
            input: "".to_owned(),
            output: "".to_owned(),
            monitor: None,
            exclusive: false,
            voice_model: None,
            f0: "rmvpe".to_owned(),
            block_ms: 0x404e_0000_0000_0000,
            crossfade_ms: 0x4059_0000_0000_0000,
            extra_ms: 0x408f_4000_0000_0000,
            rms_mix: 0x3f80_0000,
            threshold_db: 0xc270_0000,
            skip_silence: true,
            monitor_volume: 50,
            voices,
            presets,
            active_preset: DEFAULT_PRESET.to_owned(),
            default_voice: "".to_owned(),
            defaults_version: 0,
        }
    }
}

/// The parts of a path of the application: its base, or the current directory where there is none,
/// the application's own directory, and what it holds.
pub open spec fn app_path(base: Option<Seq<char>>, last: Seq<char>) -> Seq<Seq<char>> {
    seq![
        match base {
            Some(b) => b,
            None => "."@,
        },
        "rvc-app"@,
        last,
    ]
}

pub open spec fn parts(xs: Seq<String>) -> Seq<Seq<char>> {
    Seq::new(xs.len(), |i: int| xs[i]@)
}

fn app_dir(base: Option<String>, last: &str) -> (r: Vec<String>)
    ensures
        parts(r@) == app_path(model::seen_text(base), last@),
{
    let first: String = match base {
        Some(b) => b,
        None => ".".to_owned(),
    };
    let r: Vec<String> = vec![first, "rvc-app".to_owned(), last.to_owned()];
    assert(parts(r@) =~= app_path(model::seen_text(base), last@));
    r
}

/// The parts of the path of the saved configuration; `base` is where applications keep theirs.
pub fn file(base: Option<String>) -> (r: Vec<String>)
    ensures
        parts(r@) == app_path(model::seen_text(base), "settings.json"@),
{
    app_dir(base, "settings.json")
}

/// The parts of the path of the converted voice models; `base` is where applications keep what
/// stays on the machine.
pub fn models_dir(base: Option<String>) -> (r: Vec<String>)
    ensures
        parts(r@) == app_path(model::seen_text(base), "models"@),
{
    app_dir(base, "models")
}

/// What is known of a model out of the parameters beside it: its pitch and its formant, both as
/// doubles, where the parameters are those of the file.
pub open spec fn described_voice(v: JsonValue, file_name: Seq<char>) -> Option<(u64, u64)> {
    if json::member(v, "modelFile"@) != JsonValue::Text(file_name) {
        None
    } else {
        match (
            voice_model::as_double(json::member(v, "defaultTune"@)),
            voice_model::as_double(json::member(v, "defaultFormantShift"@)),
        ) {
            (Some(pitch), Some(formant)) => Some((pitch, formant)),
            _ => None,
        }
    }
}

/// The pitch and the formant that the parameters in `bytes` give the model `file_name`.
pub fn vcclient_defaults(bytes: &[u8], file_name: &str) -> (r: Option<(u64, u64)>)
    ensures
        r == (match json::json_document(bytes@) {
            Ok(v) => described_voice(v, file_name@),
            Err(_) => None,
        }),
{
    match parse_document(bytes) {
        Ok(v) => described(&v, file_name),
        Err(_) => None,
    }
}

/// The pitch and the formant that parameters give the model `file_name`.
pub fn described(v: &Json, file_name: &str) -> (r: Option<(u64, u64)>)
    ensures
        r == described_voice(v@, file_name@),
{
    if !v.has_text("modelFile", file_name) {
        return None;
    }
    let pitch: Option<u64> = match v.get("defaultTune") {
        Some(n) => double_of(n),
        None => None,
    };
    let formant: Option<u64> = match v.get("defaultFormantShift") {
        Some(n) => double_of(n),
        None => None,
    };
    match (pitch, formant) {
        (Some(p), Some(f)) => Some((p, f)),
        _ => None,
    }
}

/// The first preset of a name from `from` on, and the number of presets where there is none.
pub open spec fn place(presets: Seq<PresetValue>, name: Seq<char>, from: int) -> int
    decreases presets.len() - from,
{
    if from < 0 || from >= presets.len() || presets[from].name == name {
        from
    } else {
        place(presets, name, from + 1)
    }
}

/// Whether there is a preset of the name.
pub open spec fn has_preset(presets: Seq<PresetValue>, name: Seq<char>) -> bool {
    exists|i: int| 0 <= i < presets.len() && (#[trigger] presets[i]).name == name
}

pub proof fn lemma_place(presets: Seq<PresetValue>, name: Seq<char>, from: int)
    requires
        0 <= from <= presets.len(),
    ensures
        from <= place(presets, name, from) <= presets.len(),
        place(presets, name, from) < presets.len() ==> presets[place(presets, name, from)].name
            == name,
        forall|i: int| from <= i < place(presets, name, from) ==> (#[trigger] presets[i]).name != name,
    decreases presets.len() - from,
{
    if from < presets.len() && presets[from].name != name {
        lemma_place(presets, name, from + 1);
    }
}

fn find(presets: &Vec<Preset>, name: &str) -> (r: usize)
    ensures
        r == place(preset_values(presets@), name@, 0),
        r <= presets@.len(),
        r < presets@.len() ==> presets@[r as int].name@ == name@,
        (r < presets@.len()) == has_preset(preset_values(presets@), name@),
{
    let ghost all = preset_values(presets@);
    let mut i: usize = 0;
    while i < presets.len()
        invariant
            i <= presets@.len(),
            all == preset_values(presets@),
            place(all, name@, 0) == place(all, name@, i as int),
            forall|j: int| 0 <= j < i ==> (#[trigger] all[j]).name != name@,
        decreases presets@.len() - i,
    {
        assert(all[i as int] == presets@[i as int]@);
        if same(presets[i].name.as_str(), name) {
            return i;
        }
        i += 1;
    }
    i
}

fn copy_text(s: &Option<String>) -> (r: Option<String>)
    ensures
        model::seen_text(r) == model::seen_text(*s),
{
    match s {
        Some(t) => Some(t.clone()),
        None => None,
    }
}

impl Preset {
    /// The same preset again.
    pub fn copy(&self) -> (r: Preset)
        ensures
            r@ == self@,
    {
        Preset {
            backend: self.backend,
            native: self.native,
            name: self.name.clone(),
            input: self.input.clone(),
            output: self.output.clone(),
            monitor: copy_text(&self.monitor),
            exclusive: self.exclusive,
            voice_model: copy_text(&self.voice_model),
            pitch: self.pitch,
            formant: self.formant,
            rms_mix: self.rms_mix,
            threshold_db: self.threshold_db,
            skip_silence: self.skip_silence,
            f0: self.f0.clone(),
            monitor_volume: self.monitor_volume,
            block_ms: self.block_ms,
            crossfade_ms: self.crossfade_ms,
            extra_ms: self.extra_ms,
        }
    }
}

proof fn lemma_voice_update(xs: Seq<(String, Voice)>, i: int, entry: (String, Voice), path: Seq<char>)
    requires
        0 <= i < xs.len(),
        entry.0@ == xs[i].0@,
        forall|j: int| i < j < xs.len() ==> (#[trigger] xs[j]).0@ != xs[i].0@,
    ensures
        voice_at(xs.update(i, entry), path) == (if path == entry.0@ {
            Some(entry.1)
        } else {
            voice_at(xs, path)
        }),
    decreases xs.len(),
{
    let ys = xs.update(i, entry);
    if i == xs.len() - 1 {
        assert(ys.drop_last() =~= xs.drop_last());
    } else {
        assert(ys.drop_last() =~= xs.drop_last().update(i, entry));
        assert(xs.last().0@ != xs[i].0@);
        lemma_voice_update(xs.drop_last(), i, entry, path);
    }
}

/// Puts a voice under a path.
fn put_voice(voices: &mut Vec<(String, Voice)>, path: &str, voice: Voice)
    ensures
        voice_map(final(voices)@) == voice_map(old(voices)@).insert(path@, voice),
{
    let mut i: usize = voices.len();
    while i > 0
        invariant
            i <= voices@.len(),
            voices@ == old(voices)@,
            forall|j: int| i <= j < voices@.len() ==> (#[trigger] voices@[j]).0@ != path@,
        decreases i,
    {
        let at: usize = i - 1;
        if same(voices[at].0.as_str(), path) {
            let entry: (String, Voice) = (path.to_owned(), voice);
            proof {
                assert forall|q: Seq<char>| #[trigger] voice_at(voices@.update(at as int, entry), q) == (if q
                    == path@ {
                    Some(voice)
                } else {
                    voice_at(voices@, q)
                }) by {
                    lemma_voice_update(voices@, at as int, entry, q);
                }
                assert(voice_map(voices@.update(at as int, entry)) =~= voice_map(voices@).insert(
                    path@,
                    voice,
                ));
            }
            voices.set(at, entry);
            return;
        }
        i -= 1;
    }
    voices.push((path.to_owned(), voice));
    proof {
        assert(voices@.drop_last() =~= old(voices)@);
        assert forall|q: Seq<char>| #[trigger] voice_at(voices@, q) == (if q == path@ {
            Some(voice)
        } else {
            voice_at(old(voices)@, q)
        }) by {
        }
        assert(voice_map(voices@) =~= voice_map(old(voices)@).insert(path@, voice));
    }
}

/// The voice under a path.
fn get_voice(voices: &Vec<(String, Voice)>, path: &str) -> (r: Option<Voice>)
    ensures
        r == voice_at(voices@, path@),
{
    let mut i: usize = voices.len();
    assert(voices@.take(voices@.len() as int) =~= voices@);
    while i > 0
        invariant
            i <= voices@.len(),
            voice_at(voices@, path@) == voice_at(voices@.take(i as int), path@),
        decreases i,
    {
        let at: usize = i - 1;
        proof {
            assert(voices@.take(i as int).last() == voices@[at as int]);
            assert(voices@.take(i as int).drop_last() =~= voices@.take(at as int));
        }
        if same(voices[at].0.as_str(), path) {
            return Some(voices[at].1);
        }
        i -= 1;
    }
    None
}

/// The voice of the selected model: the one that is kept, or what was `found` beside a model that is
/// used for the first time.
pub open spec fn selected_voice(s: SettingsValue, found: Option<Voice>) -> Option<Voice> {
    match s.options.voice_model {
        Some(path) => if s.voices.contains_key(path) {
            Some(s.voices[path])
        } else {
            match found {
                Some(v) => Some(v),
                None => Some(plain_voice()),
            }
        },
        None => None,
    }
}

/// The configuration after the voice of the selected model was asked for: it is kept from then on.
pub open spec fn with_voice(s: SettingsValue, found: Option<Voice>) -> SettingsValue {
    match (s.options.voice_model, selected_voice(s, found)) {
        (Some(path), Some(v)) => SettingsValue { voices: s.voices.insert(path, v), ..s },
        _ => s,
    }
}

/// The options as a preset. The default one always has the default model.
pub open spec fn snapshot_of(s: SettingsValue, name: Seq<char>, found: Option<Voice>) -> PresetValue {
    PresetValue {
        name,
        options: Options {
            voice_model: if name == DEFAULT_PRESET@ {
                Some(s.default_voice)
            } else {
                s.options.voice_model
            },
            ..s.options
        },
        voice: match selected_voice(s, found) {
            Some(v) => v,
            None => plain_voice(),
        },
    }
}

/// The configuration with every option of a preset.
pub open spec fn loaded(s: SettingsValue, p: PresetValue) -> SettingsValue {
    SettingsValue {
        options: p.options,
        voices: match p.options.voice_model {
            Some(path) => s.voices.insert(path, p.voice),
            None => s.voices,
        },
        ..s
    }
}

/// Presets with one more, or with the first of its name replaced.
pub open spec fn with_preset(presets: Seq<PresetValue>, p: PresetValue) -> Seq<PresetValue> {
    let at = place(presets, p.name, 0);
    if at < presets.len() {
        presets.update(at, p)
    } else {
        presets.push(p)
    }
}

/// The configuration with the options saved under a name.
pub open spec fn saved(s: SettingsValue, name: Seq<char>, found: Option<Voice>) -> SettingsValue {
    SettingsValue {
        presets: with_preset(s.presets, snapshot_of(s, name, found)),
        ..with_voice(s, found)
    }
}

/// The configuration with the active preset renamed; the default one keeps its name.
pub open spec fn renamed(s: SettingsValue, name: Seq<char>) -> SettingsValue {
    if s.active_preset == DEFAULT_PRESET@ {
        s
    } else {
        let at = place(s.presets, s.active_preset, 0);
        SettingsValue {
            presets: if at < s.presets.len() {
                s.presets.update(at, PresetValue { name, ..s.presets[at] })
            } else {
                s.presets
            },
            active_preset: name,
            ..s
        }
    }
}

/// The presets that do not have the name.
pub open spec fn without(presets: Seq<PresetValue>, name: Seq<char>) -> Seq<PresetValue>
    decreases presets.len(),
{
    if presets.len() == 0 {
        presets
    } else if presets.last().name == name {
        without(presets.drop_last(), name)
    } else {
        without(presets.drop_last(), name).push(presets.last())
    }
}

/// The configuration without the active preset, and with the default one loaded; the default one stays.
pub open spec fn deleted(s: SettingsValue) -> SettingsValue {
    if s.active_preset == DEFAULT_PRESET@ {
        s
    } else {
        let rest = without(s.presets, s.active_preset);
        let left = SettingsValue { presets: rest, active_preset: DEFAULT_PRESET@, ..s };
        let at = place(rest, DEFAULT_PRESET@, 0);
        if at < rest.len() {
            loaded(left, rest[at])
        } else {
            left
        }
    }
}

/// Whether two sets of options for the low-latency path are equal.
pub open spec fn same_native(a: NativeSettings, b: NativeSettings) -> bool {
    &&& a.chunk == b.chunk
    &&& bits::double_equal(a.extra_ms, b.extra_ms)
    &&& bits::double_equal(a.crossfade_ms, b.crossfade_ms)
    &&& bits::single_equal(a.threshold_db, b.threshold_db)
    &&& a.cuda_graph == b.cuda_graph
}

/// Whether two presets are equal: numbers by value.
pub open spec fn same_presets(a: PresetValue, b: PresetValue) -> bool {
    let x = a.options;
    let y = b.options;
    &&& x.backend == y.backend
    &&& same_native(x.native, y.native)
    &&& a.name == b.name
    &&& x.input == y.input
    &&& x.output == y.output
    &&& x.monitor == y.monitor
    &&& x.exclusive == y.exclusive
    &&& x.voice_model == y.voice_model
    &&& bits::single_equal(a.voice.pitch, b.voice.pitch)
    &&& bits::double_equal(a.voice.formant, b.voice.formant)
    &&& bits::single_equal(x.rms_mix, y.rms_mix)
    &&& bits::single_equal(x.threshold_db, y.threshold_db)
    &&& x.skip_silence == y.skip_silence
    &&& x.f0 == y.f0
    &&& x.monitor_volume == y.monitor_volume
    &&& bits::double_equal(x.block_ms, y.block_ms)
    &&& bits::double_equal(x.crossfade_ms, y.crossfade_ms)
    &&& bits::double_equal(x.extra_ms, y.extra_ms)
}

/// Whether the options differ from what the active preset saved.
pub open spec fn modified(s: SettingsValue, found: Option<Voice>) -> bool {
    let at = place(s.presets, s.active_preset, 0);
    !(at < s.presets.len() && same_presets(s.presets[at], snapshot_of(s, s.active_preset, found)))
}

/// The first half of opening a configuration: the active preset is one that exists, and the default one
/// has its model.
pub open spec fn opened(s: SettingsValue, default_voice: Seq<char>) -> SettingsValue {
    let active = if has_preset(s.presets, s.active_preset) {
        s.active_preset
    } else {
        DEFAULT_PRESET@
    };
    SettingsValue {
        active_preset: active,
        default_voice,
        options: Options {
            voice_model: if active == DEFAULT_PRESET@ {
                Some(default_voice)
            } else {
                s.options.voice_model
            },
            ..s.options
        },
        ..s
    }
}

/// The default preset as it is kept from now on: with its model, and with the new defaults where it still
/// had all of the old ones.
pub open spec fn brought_up(p: PresetValue, default_voice: Seq<char>, version: u32) -> PresetValue {
    let o = Options { voice_model: Some(default_voice), ..p.options };
    if version < DEFAULTS_VERSION && o.f0 == "fcpe"@ && bits::double_equal(
        o.crossfade_ms,
        0x4054_0000_0000_0000,
    ) && bits::single_equal(o.rms_mix, 0x3f00_0000) {
        PresetValue {
            options: Options {
                f0: fresh_options().f0,
                crossfade_ms: fresh_options().crossfade_ms,
                rms_mix: fresh_options().rms_mix,
                ..o
            },
            ..p
        }
    } else {
        PresetValue { options: o, ..p }
    }
}

/// The configuration with a default preset: where there is none, it is what is in use.
pub open spec fn with_default(s: SettingsValue, found: Option<Voice>) -> SettingsValue {
    if has_preset(s.presets, DEFAULT_PRESET@) {
        s
    } else {
        SettingsValue {
            presets: s.presets.insert(0, snapshot_of(s, DEFAULT_PRESET@, found)),
            ..with_voice(s, found)
        }
    }
}

/// The second half of opening a configuration.
pub open spec fn settled(s: SettingsValue, found: Option<Voice>) -> SettingsValue {
    let t = with_default(s, found);
    let at = place(t.presets, DEFAULT_PRESET@, 0);
    let u = SettingsValue {
        presets: t.presets.update(at, brought_up(t.presets[at], t.default_voice, t.defaults_version)),
        defaults_version: DEFAULTS_VERSION,
        ..t
    };
    if u.active_preset == DEFAULT_PRESET@ {
        loaded(u, u.presets[at])
    } else {
        u
    }
}

impl Settings {
    /// Opens a configuration: the saved one, or a fresh one where none was saved or it cannot be read.
    /// The voice of the selected model may have to be looked for before [`Settings::settle`].
    pub fn load(saved: Option<Settings>, default_voice: &str) -> (r: Settings)
        ensures
            match saved {
                Some(s) => r@ == opened(s@, default_voice@),
                None => r@ == opened(
                    SettingsValue {
                        options: fresh_options(),
                        voices: Map::empty(),
                        presets: Seq::empty(),
                        active_preset: DEFAULT_PRESET@,
                        default_voice: Seq::empty(),
                        defaults_version: 0,
                    },
                    default_voice@,
                ),
            },
    {
        let mut s: Settings = match saved {
            Some(s) => s,
            None => Settings::default(),
        };
        s.default_voice = default_voice.to_owned();
        let at: usize = find(&s.presets, s.active_preset.as_str());
        if at == s.presets.len() {
            s.active_preset = DEFAULT_PRESET.to_owned();
        }
        if same(s.active_preset.as_str(), DEFAULT_PRESET) {
            s.voice_model = Some(default_voice.to_owned());
        }
        s
    }

    /// The rest of opening a configuration; `found` is what is known of a selected model that has no
    /// voice yet.
    pub fn settle(&mut self, found: Option<Voice>)
        ensures
            final(self)@ == settled(old(self)@, found),
    {
        let ghost start = self@;
        let none: bool = find(&self.presets, DEFAULT_PRESET) == self.presets.len();
        if none {
            let preset = self.snapshot(DEFAULT_PRESET, found);
            let ghost before = self.presets@;
            self.presets.insert(0, preset);
            assert(preset_values(self.presets@) =~= preset_values(before).insert(0, preset@));
            proof {
                assert(preset_values(self.presets@)[0].name == DEFAULT_PRESET@);
                assert(has_preset(preset_values(self.presets@), DEFAULT_PRESET@));
            }
        }
        assert(self@ == with_default(start, found));
        let at: usize = find(&self.presets, DEFAULT_PRESET);
        let ghost t = self@;
        assert(at == place(t.presets, DEFAULT_PRESET@, 0));
        let default = self.raised(at);
        let kept = default.copy();
        let ghost before = self.presets@;
        self.presets.set(at, default);
        self.defaults_version = DEFAULTS_VERSION;
        proof {
            assert(preset_values(self.presets@) =~= preset_values(before).update(at as int, kept@));
        }
        if same(self.active_preset.as_str(), DEFAULT_PRESET) {
            self.load_preset(&kept);
        }
    }

    /// The preset at `at` as it is kept from now on.
    fn raised(&self, at: usize) -> (r: Preset)
        requires
            at < self.presets@.len(),
        ensures
            r@ == brought_up(self.presets@[at as int]@, self.default_voice@, self.defaults_version),
    {
        let mut p = self.presets[at].copy();
        p.voice_model = Some(self.default_voice.clone());
        if self.defaults_version < DEFAULTS_VERSION && same(p.f0.as_str(), "fcpe") && equal_doubles(
            p.crossfade_ms,
            0x4054_0000_0000_0000,
        ) && equal_singles(p.rms_mix, 0x3f00_0000) {
            p.f0 = "rmvpe".to_owned();
            p.crossfade_ms = 0x4059_0000_0000_0000;
            p.rms_mix = 0x3f80_0000;
        }
        p
    }

    /// The selected model where it has no voice yet: what is known of it has to be looked for.
    pub fn unknown_voice(&self) -> (r: Option<String>)
        ensures
            match self@.options.voice_model {
                Some(path) => if self@.voices.contains_key(path) {
                    r is None
                } else {
                    r matches Some(p) && p@ == path
                },
                None => r is None,
            },
    {
        match &self.voice_model {
            Some(path) => match get_voice(&self.voices, path.as_str()) {
                Some(_) => None,
                None => Some(path.clone()),
            },
            None => None,
        }
    }

    /// Whether `name` can be given to a new or renamed preset.
    pub fn name_is_free(&self, name: &str) -> (r: bool)
        ensures
            r == (name@ != DEFAULT_PRESET@ && !has_preset(self@.presets, name@)),
    {
        !same(name, DEFAULT_PRESET) && find(&self.presets, name) == self.presets.len()
    }

    /// Renames the active preset, but not the default one.
    pub fn rename_active_preset(&mut self, name: &str)
        ensures
            final(self)@ == renamed(old(self)@, name@),
    {
        if same(self.active_preset.as_str(), DEFAULT_PRESET) {
            return;
        }
        let at: usize = find(&self.presets, self.active_preset.as_str());
        if at < self.presets.len() {
            let mut p = self.presets[at].copy();
            p.name = name.to_owned();
            let ghost before = self.presets@;
            self.presets.set(at, p);
            assert(preset_values(self.presets@) =~= preset_values(before).update(at as int, p@));
        }
        self.active_preset = name.to_owned();
    }

    /// Deletes the active preset, but not the default one, and loads the default one.
    pub fn delete_active_preset(&mut self)
        ensures
            final(self)@ == deleted(old(self)@),
    {
        if same(self.active_preset.as_str(), DEFAULT_PRESET) {
            return;
        }
        let ghost all = preset_values(self.presets@);
        let mut rest: Vec<Preset> = Vec::new();
        let mut i: usize = 0;
        assert(preset_values(rest@) =~= without(all.take(0), self.active_preset@));
        while i < self.presets.len()
            invariant
                i <= self.presets@.len(),
                *self == *old(self),
                all == preset_values(self.presets@),
                preset_values(rest@) == without(all.take(i as int), self.active_preset@),
            decreases self.presets@.len() - i,
        {
            proof {
                assert(all.take(i + 1).drop_last() =~= all.take(i as int));
                assert(all.take(i + 1).last() == self.presets@[i as int]@);
            }
            if !same(self.presets[i].name.as_str(), self.active_preset.as_str()) {
                let p = self.presets[i].copy();
                let ghost before = rest@;
                rest.push(p);
                assert(preset_values(rest@) =~= preset_values(before).push(p@));
            }
            i += 1;
        }
        assert(all.take(all.len() as int) =~= all);
        self.presets = rest;
        self.active_preset = DEFAULT_PRESET.to_owned();
        let at: usize = find(&self.presets, DEFAULT_PRESET);
        if at < self.presets.len() {
            let p = self.presets[at].copy();
            self.load_preset(&p);
        }
    }

    /// Whether the options differ from what the active preset saved.
    pub fn is_modified(&mut self, found: Option<Voice>) -> (r: bool)
        ensures
            r == modified(old(self)@, found),
            final(self)@ == with_voice(old(self)@, found),
    {
        let name = self.active_preset.clone();
        let now = self.snapshot(name.as_str(), found);
        let at: usize = find(&self.presets, name.as_str());
        if at == self.presets.len() {
            return true;
        }
        assert(self@.presets[at as int] == self.presets@[at as int]@);
        !are_same(&self.presets[at], &now)
    }

    /// Saves the options under `name`, in the place of a preset of that name.
    pub fn save_preset(&mut self, name: &str, found: Option<Voice>)
        ensures
            final(self)@ == saved(old(self)@, name@, found),
    {
        let preset = self.snapshot(name, found);
        let at: usize = find(&self.presets, name);
        let ghost before = self.presets@;
        if at < self.presets.len() {
            self.presets.set(at, preset);
            assert(preset_values(self.presets@) =~= preset_values(before).update(at as int, preset@));
        } else {
            self.presets.push(preset);
            assert(preset_values(self.presets@) =~= preset_values(before).push(preset@));
        }
    }

    /// The options as a preset.
    fn snapshot(&mut self, name: &str, found: Option<Voice>) -> (r: Preset)
        ensures
            r@ == snapshot_of(old(self)@, name@, found),
            final(self)@ == with_voice(old(self)@, found),
            final(self).presets@ == old(self).presets@,
    {
        let voice: Voice = match self.voice(found) {
            Some(v) => v,
            None => Voice { pitch: 0, formant: 0 },
        };
        let voice_model: Option<String> = if same(name, DEFAULT_PRESET) {
            Some(self.default_voice.clone())
        } else {
            copy_text(&self.voice_model)
        };
        Preset {
            backend: self.backend,
            native: self.native,
            name: name.to_owned(),
            voice_model,
            input: self.input.clone(),
            output: self.output.clone(),
            monitor: copy_text(&self.monitor),
            exclusive: self.exclusive,
            pitch: voice.pitch,
            formant: voice.formant,
            rms_mix: self.rms_mix,
            threshold_db: self.threshold_db,
            skip_silence: self.skip_silence,
            f0: self.f0.clone(),
            monitor_volume: self.monitor_volume,
            block_ms: self.block_ms,
            crossfade_ms: self.crossfade_ms,
            extra_ms: self.extra_ms,
        }
    }

    /// Makes every option the preset's value.
    pub fn load_preset(&mut self, p: &Preset)
        ensures
            final(self)@ == loaded(old(self)@, p@),
    {
        self.backend = p.backend;
        self.native = p.native;
        self.input = p.input.clone();
        self.output = p.output.clone();
        self.monitor = copy_text(&p.monitor);
        self.exclusive = p.exclusive;
        self.voice_model = copy_text(&p.voice_model);
        if let Some(path) = &p.voice_model {
            put_voice(&mut self.voices, path.as_str(), Voice { pitch: p.pitch, formant: p.formant });
        }
        self.rms_mix = p.rms_mix;
        self.threshold_db = p.threshold_db;
        self.skip_silence = p.skip_silence;
        self.f0 = p.f0.clone();
        self.monitor_volume = p.monitor_volume;
        self.block_ms = p.block_ms;
        self.crossfade_ms = p.crossfade_ms;
        self.extra_ms = p.extra_ms;
    }

    /// The voice of the selected model. One that is used for the first time starts from what was
    /// `found` beside it, and is kept.
    pub fn voice(&mut self, found: Option<Voice>) -> (r: Option<Voice>)
        ensures
            r == selected_voice(old(self)@, found),
            final(self)@ == with_voice(old(self)@, found),
            final(self).presets@ == old(self).presets@,
    {
        let path: String = match &self.voice_model {
            Some(p) => p.clone(),
            None => {
                return None;
            },
        };
        match get_voice(&self.voices, path.as_str()) {
            Some(v) => {
                proof {
                    let m = voice_map(self.voices@);
                    assert(m.insert(path@, v) =~= m);
                }
                Some(v)
            },
            None => {
                let v: Voice = match found {
                    Some(v) => v,
                    None => Voice { pitch: 0, formant: 0 },
                };
                put_voice(&mut self.voices, path.as_str(), v);
                Some(v)
            },
        }
    }

    /// The voice of a model, where it has one.
    pub fn known_voice(&self, path: &str) -> (r: Option<Voice>)
        ensures
            match r {
                Some(v) => self@.voices.contains_key(path@) && self@.voices[path@] == v,
                None => !self@.voices.contains_key(path@),
            },
    {
        get_voice(&self.voices, path)
    }

    /// Changes the voice of the selected model.
    pub fn set_voice(&mut self, v: Voice)
        ensures
            final(self)@ == voiced(old(self)@, v),
    {
        let path: Option<String> = copy_text(&self.voice_model);
        if let Some(p) = path {
            put_voice(&mut self.voices, p.as_str(), v);
        }
    }
}

fn same_option(a: &Option<String>, b: &Option<String>) -> (r: bool)
    ensures
        r == (model::seen_text(*a) == model::seen_text(*b)),
{
    match (a, b) {
        (Some(x), Some(y)) => same(x.as_str(), y.as_str()),
        (None, None) => true,
        _ => false,
    }
}

fn are_same_native(a: &NativeSettings, b: &NativeSettings) -> (r: bool)
    ensures
        r == same_native(*a, *b),
{
    a.chunk == b.chunk && equal_doubles(a.extra_ms, b.extra_ms) && equal_doubles(
        a.crossfade_ms,
        b.crossfade_ms,
    ) && equal_singles(a.threshold_db, b.threshold_db) && a.cuda_graph == b.cuda_graph
}

fn are_same(a: &Preset, b: &Preset) -> (r: bool)
    ensures
        r == same_presets(a@, b@),
{
    let texts: bool = same(a.name.as_str(), b.name.as_str()) && same(
        a.input.as_str(),
        b.input.as_str(),
    ) && same(a.output.as_str(), b.output.as_str()) && same_option(&a.monitor, &b.monitor)
        && same_option(&a.voice_model, &b.voice_model) && same(a.f0.as_str(), b.f0.as_str());
    let numbers: bool = equal_singles(a.pitch, b.pitch) && equal_doubles(a.formant, b.formant)
        && equal_singles(a.rms_mix, b.rms_mix) && equal_singles(a.threshold_db, b.threshold_db)
        && equal_doubles(a.block_ms, b.block_ms) && equal_doubles(a.crossfade_ms, b.crossfade_ms)
        && equal_doubles(a.extra_ms, b.extra_ms);
    texts && numbers && a.backend == b.backend && are_same_native(&a.native, &b.native)
        && a.exclusive == b.exclusive && a.skip_silence == b.skip_silence && a.monitor_volume
        == b.monitor_volume
}

/// The place of a name is the first one where it stands.
proof fn lemma_place_is(presets: Seq<PresetValue>, name: Seq<char>, k: int)
    requires
        0 <= k <= presets.len(),
        k < presets.len() ==> presets[k].name == name,
        forall|i: int| 0 <= i < k ==> (#[trigger] presets[i]).name != name,
    ensures
        place(presets, name, 0) == k,
{
    lemma_place(presets, name, 0);
    let at = place(presets, name, 0);
    if at < k {
        assert(presets[at].name != name);
    }
}

/// Whether no two presets have the same name.
pub open spec fn distinct_names(presets: Seq<PresetValue>) -> bool {
    forall|i: int, j: int|
        0 <= i < j < presets.len() ==> (#[trigger] presets[i]).name != (#[trigger] presets[j]).name
}

/// Whether all numbers of the options and the voice are numbers.
pub open spec fn numeric(o: Options, v: Voice) -> bool {
    &&& !bits::double_is_nan(o.native.extra_ms)
    &&& !bits::double_is_nan(o.native.crossfade_ms)
    &&& !bits::single_is_nan(o.native.threshold_db)
    &&& !bits::single_is_nan(o.rms_mix)
    &&& !bits::single_is_nan(o.threshold_db)
    &&& !bits::double_is_nan(o.block_ms)
    &&& !bits::double_is_nan(o.crossfade_ms)
    &&& !bits::double_is_nan(o.extra_ms)
    &&& !bits::single_is_nan(v.pitch)
    &&& !bits::double_is_nan(v.formant)
}

/// Options that are saved under a name and loaded again are the options as they were, the voice of the
/// model included.
pub proof fn law_saved_options_load_again(s: SettingsValue, name: Seq<char>, found: Option<Voice>)
    requires
        name != DEFAULT_PRESET@,
    ensures
        ({
            let t = saved(s, name, found);
            let at = place(t.presets, name, 0);
            &&& 0 <= at < t.presets.len()
            &&& loaded(t, t.presets[at]) == t
            &&& t.options == s.options
        }),
{
    let t = saved(s, name, found);
    let p = snapshot_of(s, name, found);
    lemma_place(s.presets, name, 0);
    let at = place(s.presets, name, 0);
    assert forall|i: int| 0 <= i < at implies (#[trigger] t.presets[i]).name != name by {
        assert(t.presets[i] == s.presets[i]);
    }
    lemma_place_is(t.presets, name, at);
    assert(t.presets[at] == p);
    match s.options.voice_model {
        Some(path) => {
            assert(t.voices.insert(path, p.voice) =~= t.voices);
        },
        None => {},
    }
}

/// Options that were just saved under the active preset's name do not differ from it.
pub proof fn law_saved_is_unmodified(s: SettingsValue, found: Option<Voice>, later: Option<Voice>)
    requires
        numeric(s.options, snapshot_of(s, s.active_preset, found).voice),
    ensures
        !modified(saved(s, s.active_preset, found), later),
{
    let name = s.active_preset;
    let t = saved(s, name, found);
    let p = snapshot_of(s, name, found);
    lemma_place(s.presets, name, 0);
    let at = place(s.presets, name, 0);
    assert forall|i: int| 0 <= i < at implies (#[trigger] t.presets[i]).name != name by {
        assert(t.presets[i] == s.presets[i]);
    }
    lemma_place_is(t.presets, name, at);
    assert(t.presets[at] == p);
    assert(snapshot_of(t, name, later).voice == p.voice);
}

/// The default preset never goes away: not by saving, renaming, deleting or opening.
pub proof fn law_default_preset_stays(s: SettingsValue, name: Seq<char>, found: Option<Voice>)
    ensures
        has_preset(settled(s, found).presets, DEFAULT_PRESET@),
        has_preset(s.presets, DEFAULT_PRESET@) ==> {
            &&& has_preset(saved(s, name, found).presets, DEFAULT_PRESET@)
            &&& has_preset(renamed(s, name).presets, DEFAULT_PRESET@)
            &&& has_preset(deleted(s).presets, DEFAULT_PRESET@)
        },
{
    let t = with_default(s, found);
    if !has_preset(s.presets, DEFAULT_PRESET@) {
        assert(t.presets[0].name == DEFAULT_PRESET@);
    }
    lemma_place(t.presets, DEFAULT_PRESET@, 0);
    let at = place(t.presets, DEFAULT_PRESET@, 0);
    if at == t.presets.len() {
        let i = choose|i: int| 0 <= i < t.presets.len() && (#[trigger] t.presets[i]).name
            == DEFAULT_PRESET@;
        assert(t.presets[i].name != DEFAULT_PRESET@);
    }
    assert(settled(s, found).presets[at].name == DEFAULT_PRESET@);
    if has_preset(s.presets, DEFAULT_PRESET@) {
        let i = choose|i: int| 0 <= i < s.presets.len() && (#[trigger] s.presets[i]).name
            == DEFAULT_PRESET@;
        lemma_place(s.presets, name, 0);
        assert(saved(s, name, found).presets[i].name == DEFAULT_PRESET@);
        lemma_place(s.presets, s.active_preset, 0);
        assert(renamed(s, name).presets[i].name == DEFAULT_PRESET@);
        if s.active_preset != DEFAULT_PRESET@ {
            lemma_without_keeps(s.presets, s.active_preset, i);
        }
    }
}

proof fn lemma_without_keeps(presets: Seq<PresetValue>, name: Seq<char>, i: int)
    requires
        0 <= i < presets.len(),
        presets[i].name != name,
    ensures
        has_preset(without(presets, name), presets[i].name),
    decreases presets.len(),
{
    let rest = without(presets.drop_last(), name);
    if i == presets.len() - 1 {
        assert(rest.push(presets.last())[rest.len() as int].name == presets[i].name);
    } else {
        lemma_without_keeps(presets.drop_last(), name, i);
        let k = choose|k: int| 0 <= k < rest.len() && (#[trigger] rest[k]).name == presets[i].name;
        if presets.last().name != name {
            assert(rest.push(presets.last())[k] == rest[k]);
        }
    }
}

proof fn lemma_without_distinct(presets: Seq<PresetValue>, name: Seq<char>)
    requires
        distinct_names(presets),
    ensures
        distinct_names(without(presets, name)),
        forall|k: int|
            0 <= k < without(presets, name).len() ==> has_preset(
                presets,
                (#[trigger] without(presets, name)[k]).name,
            ),
    decreases presets.len(),
{
    if presets.len() > 0 {
        let shorter = presets.drop_last();
        let rest = without(shorter, name);
        lemma_without_distinct(shorter, name);
        assert forall|k: int| 0 <= k < rest.len() implies has_preset(presets, (#[trigger] rest[k]).name)
            && rest[k].name != presets.last().name by {
            assert(has_preset(shorter, rest[k].name));
            let i = choose|i: int| 0 <= i < shorter.len() && (#[trigger] shorter[i]).name
                == rest[k].name;
            assert(presets[i].name == rest[k].name);
            assert(presets[i].name != presets[presets.len() - 1].name);
        }
        let all = without(presets, name);
        assert forall|k: int| 0 <= k < all.len() implies has_preset(presets, (#[trigger] all[k]).name) by {
            if k < rest.len() {
                assert(all[k] == rest[k]);
            } else {
                assert(presets[presets.len() - 1].name == all[k].name);
            }
        }
        assert forall|i: int, j: int| 0 <= i < j < all.len() implies (#[trigger] all[i]).name != (
        #[trigger] all[j]).name by {
            assert(all[i] == rest[i]);
            if j < rest.len() {
                assert(all[j] == rest[j]);
            }
        }
    }
}

/// No two presets ever have the same name: not after saving, not after renaming to a name that is free,
/// not after deleting, and not after opening.
pub proof fn law_names_stay_distinct(s: SettingsValue, name: Seq<char>, found: Option<Voice>)
    requires
        distinct_names(s.presets),
    ensures
        distinct_names(saved(s, name, found).presets),
        name != DEFAULT_PRESET@ && !has_preset(s.presets, name) ==> distinct_names(
            renamed(s, name).presets,
        ),
        distinct_names(deleted(s).presets),
        distinct_names(settled(s, found).presets),
{
    lemma_place(s.presets, name, 0);
    lemma_place(s.presets, s.active_preset, 0);
    let t = saved(s, name, found).presets;
    let at = place(s.presets, name, 0);
    assert forall|i: int, j: int| 0 <= i < j < t.len() implies (#[trigger] t[i]).name != (
    #[trigger] t[j]).name by {
        if at == s.presets.len() && j == at {
            assert(t[i] == s.presets[i]);
        } else {
            assert(t[i].name == s.presets[i].name);
            assert(t[j].name == s.presets[j].name);
        }
    }
    if name != DEFAULT_PRESET@ && !has_preset(s.presets, name) {
        let u = renamed(s, name).presets;
        let k = place(s.presets, s.active_preset, 0);
        assert forall|i: int, j: int| 0 <= i < j < u.len() implies (#[trigger] u[i]).name != (
        #[trigger] u[j]).name by {
            assert(s.presets[i].name != s.presets[j].name);
            assert(s.presets[i].name != name);
            assert(s.presets[j].name != name);
        }
    }
    if s.active_preset != DEFAULT_PRESET@ {
        lemma_without_distinct(s.presets, s.active_preset);
    }
    let w = with_default(s, found).presets;
    assert forall|i: int, j: int| 0 <= i < j < w.len() implies (#[trigger] w[i]).name != (
    #[trigger] w[j]).name by {
        if has_preset(s.presets, DEFAULT_PRESET@) {
        } else {
            if i > 0 {
                assert(w[i] == s.presets[i - 1]);
            }
            assert(w[j] == s.presets[j - 1]);
        }
    }
    let x = settled(s, found).presets;
    let d = place(w, DEFAULT_PRESET@, 0);
    lemma_place(w, DEFAULT_PRESET@, 0);
    assert forall|i: int, j: int| 0 <= i < j < x.len() implies (#[trigger] x[i]).name != (
    #[trigger] x[j]).name by {
        assert(w[i].name != w[j].name);
        assert(x[i].name == w[i].name);
        assert(x[j].name == w[j].name);
    }
}

/// A preset that is deleted is gone, all others stay, and the options are those of the default preset.
pub proof fn law_deleted_is_gone(s: SettingsValue, other: Seq<char>)
    requires
        s.active_preset != DEFAULT_PRESET@,
        has_preset(s.presets, DEFAULT_PRESET@),
    ensures
        ({
            let t = deleted(s);
            let at = place(t.presets, DEFAULT_PRESET@, 0);
            &&& !has_preset(t.presets, s.active_preset)
            &&& other != s.active_preset && has_preset(s.presets, other) ==> has_preset(
                t.presets,
                other,
            )
            &&& t.active_preset == DEFAULT_PRESET@
            &&& 0 <= at < t.presets.len()
            &&& t.options == t.presets[at].options
        }),
{
    let rest = without(s.presets, s.active_preset);
    lemma_without_lacks(s.presets, s.active_preset);
    if other != s.active_preset && has_preset(s.presets, other) {
        let i = choose|i: int| 0 <= i < s.presets.len() && (#[trigger] s.presets[i]).name == other;
        lemma_without_keeps(s.presets, s.active_preset, i);
    }
    let i = choose|i: int| 0 <= i < s.presets.len() && (#[trigger] s.presets[i]).name
        == DEFAULT_PRESET@;
    lemma_without_keeps(s.presets, s.active_preset, i);
    lemma_place(rest, DEFAULT_PRESET@, 0);
    if place(rest, DEFAULT_PRESET@, 0) == rest.len() {
        let k = choose|k: int| 0 <= k < rest.len() && (#[trigger] rest[k]).name == DEFAULT_PRESET@;
        assert(rest[k].name != DEFAULT_PRESET@);
    }
}

proof fn lemma_without_lacks(presets: Seq<PresetValue>, name: Seq<char>)
    ensures
        !has_preset(without(presets, name), name),
    decreases presets.len(),
{
    if presets.len() > 0 {
        let rest = without(presets.drop_last(), name);
        lemma_without_lacks(presets.drop_last(), name);
        let all = without(presets, name);
        if has_preset(all, name) {
            let k = choose|k: int| 0 <= k < all.len() && (#[trigger] all[k]).name == name;
            assert(all[k] == rest[k]);
        }
    }
}

/// A preset that is renamed keeps its options under the new name, and its old name is free again.
pub proof fn law_renamed_keeps_its_options(s: SettingsValue, name: Seq<char>)
    requires
        s.active_preset != DEFAULT_PRESET@,
        has_preset(s.presets, s.active_preset),
        distinct_names(s.presets),
        !has_preset(s.presets, name),
    ensures
        ({
            let t = renamed(s, name);
            let before = place(s.presets, s.active_preset, 0);
            let at = place(t.presets, name, 0);
            &&& t.active_preset == name
            &&& 0 <= at == before < t.presets.len()
            &&& t.presets[at].options == s.presets[before].options
            &&& t.presets[at].voice == s.presets[before].voice
            &&& !has_preset(t.presets, s.active_preset)
        }),
{
    let t = renamed(s, name);
    lemma_place(s.presets, s.active_preset, 0);
    let before = place(s.presets, s.active_preset, 0);
    let i = choose|i: int| 0 <= i < s.presets.len() && (#[trigger] s.presets[i]).name
        == s.active_preset;
    assert(s.presets[i].name == s.active_preset);
    assert forall|k: int| 0 <= k < before implies (#[trigger] t.presets[k]).name != name by {
        assert(s.presets[k].name != name);
    }
    lemma_place_is(t.presets, name, before);
    if has_preset(t.presets, s.active_preset) {
        let k = choose|k: int| 0 <= k < t.presets.len() && (#[trigger] t.presets[k]).name
            == s.active_preset;
        assert(s.presets[i].name != name);
        assert(k != before);
        assert(s.presets[k].name == s.active_preset);
        assert(s.presets[before].name == s.active_preset);
    }
}

/// Opening a configuration that was opened before changes nothing any more.
pub proof fn law_opening_settles(s: SettingsValue, voice: Seq<char>, found: Option<Voice>, later: Option<Voice>)
    ensures
        ({
            let once = settled(opened(s, voice), found);
            settled(opened(once, voice), later) == once
        }),
{
    let o = opened(s, voice);
    let t = with_default(o, found);
    law_default_preset_stays(o, DEFAULT_PRESET@, found);
    let once = settled(o, found);
    lemma_place(t.presets, DEFAULT_PRESET@, 0);
    let at = place(t.presets, DEFAULT_PRESET@, 0);
    if !has_preset(o.presets, DEFAULT_PRESET@) {
        assert(t.presets[0].name == DEFAULT_PRESET@);
    }
    if at == t.presets.len() {
        let i = choose|i: int| 0 <= i < t.presets.len() && (#[trigger] t.presets[i]).name
            == DEFAULT_PRESET@;
        assert(t.presets[i].name != DEFAULT_PRESET@);
    }
    assert(once.presets[at].name == DEFAULT_PRESET@);
    assert forall|i: int| 0 <= i < at implies (#[trigger] once.presets[i]).name != DEFAULT_PRESET@ by {
        assert(once.presets[i] == t.presets[i]);
    }
    lemma_place_is(once.presets, DEFAULT_PRESET@, at);
    // the active preset is still there
    assert(has_preset(once.presets, once.active_preset)) by {
        if once.active_preset == DEFAULT_PRESET@ {
        } else {
            let i = choose|i: int| 0 <= i < s.presets.len() && (#[trigger] s.presets[i]).name
                == s.active_preset;
            if has_preset(o.presets, DEFAULT_PRESET@) {
                assert(once.presets[i].name == once.active_preset);
            } else {
                assert(t.presets[i + 1] == s.presets[i]);
                assert(once.presets[i + 1].name == once.active_preset);
            }
        }
    }
    let again = opened(once, voice);
    assert(once.presets[at].options.voice_model == Some(voice));
    assert(again == once);
    let p = once.presets[at];
    assert(brought_up(p, once.default_voice, once.defaults_version) == p);
    assert(once.presets.update(at, p) =~= once.presets);
    if once.active_preset == DEFAULT_PRESET@ {
        assert(once.voices.insert(voice, p.voice) =~= once.voices);
    }
}

/// The defaults in numbers: 60 ms blocks, a crossfade of 100 ms and a context of 1000 ms for one path; 19 chunks,
/// a crossfade of 100 ms and a context of 500 ms for the other, which is chosen; RMVPE, and half the volume.
pub proof fn law_fresh_options()
    ensures
        ({
            let o = fresh_options();
            &&& o.backend == Backend::Deiteris
            &&& o.block_ms == bits::exact_double(60)
            &&& o.crossfade_ms == bits::exact_double(100)
            &&& o.extra_ms == bits::exact_double(1000)
            &&& o.native.chunk == 19
            &&& o.native.crossfade_ms == bits::exact_double(100)
            &&& o.native.extra_ms == bits::exact_double(500)
            &&& o.native.cuda_graph
            &&& o.f0 == "rmvpe"@
            &&& o.monitor_volume == 50
            &&& o.skip_silence
            &&& !o.exclusive
            &&& o.voice_model is None && o.monitor is None && o.input.len() == 0 && o.output.len() == 0
            &&& bits::single_value(o.rms_mix) == vstd::arithmetic::power2::pow2(149)
            &&& bits::single_value(o.threshold_db) == -60 * vstd::arithmetic::power2::pow2(149)
            &&& bits::single_value(o.native.threshold_db) == -90 * vstd::arithmetic::power2::pow2(149)
        }),
{
    reveal_with_fuel(bits::highest_bit, 12);
    vstd::arithmetic::power2::lemma2_to64();
    vstd::arithmetic::power2::lemma2_to64_rest();
    vstd::arithmetic::power2::lemma_pow2_adds(23, 126);
    vstd::arithmetic::power2::lemma_pow2_adds(18, 131);
    vstd::arithmetic::power2::lemma_pow2_adds(17, 132);
    let o = fresh_options();
    assert(o.rms_mix as int / 0x80_0000 % 0x100 == 127 && o.rms_mix as int % 0x80_0000 == 0);
    assert(o.threshold_db as int / 0x80_0000 % 0x100 == 132 && o.threshold_db as int % 0x80_0000
        == 0x70_0000);
    assert(o.native.threshold_db as int / 0x80_0000 % 0x100 == 133 && o.native.threshold_db as int
        % 0x80_0000 == 0x34_0000);
    let q = vstd::arithmetic::power2::pow2(131) as int;
    assert(0xf0_0000 * q == 60 * (0x4_0000 * q));
    let r = vstd::arithmetic::power2::pow2(132) as int;
    assert(0xb4_0000 * r == 90 * (0x2_0000 * r));
}

/// The voice of a model is the one that is kept; only a model without one takes what was found beside it, and
/// neither pitch nor formant is shifted where nothing was.
pub proof fn law_kept_voice_comes_first(s: SettingsValue, path: Seq<char>, found: Option<Voice>)
    requires
        s.options.voice_model == Some(path),
    ensures
        s.voices.dom().contains(path) ==> selected_voice(s, found) == Some(s.voices[path]),
        !s.voices.dom().contains(path) && found is Some ==> selected_voice(s, found) == found,
        !s.voices.dom().contains(path) && found is None ==> selected_voice(s, found) == Some(
            Voice { pitch: 0, formant: 0 },
        ),
        with_voice(s, found).voices.dom().contains(path),
        selected_voice(with_voice(s, found), None) == selected_voice(s, found),
        with_voice(s, found).options == s.options,
        with_voice(s, found).presets == s.presets,
{
}

/// Saving keeps what is in use under the name, and every other preset as it was, in its place; the default one
/// always has its own model.
pub proof fn law_saving_keeps_what_is_in_use(s: SettingsValue, name: Seq<char>, found: Option<Voice>, i: int)
    ensures
        ({
            let t = saved(s, name, found);
            let at = place(s.presets, name, 0);
            &&& 0 <= at < t.presets.len()
            &&& t.presets[at].name == name
            &&& t.presets[at].options == (Options {
                voice_model: if name == DEFAULT_PRESET@ {
                    Some(s.default_voice)
                } else {
                    s.options.voice_model
                },
                ..s.options
            })
            &&& s.options.voice_model is Some ==> selected_voice(s, found) == Some(t.presets[at].voice)
            &&& 0 <= i < s.presets.len() && i != at ==> t.presets[i] == s.presets[i]
            &&& has_preset(s.presets, name) ==> t.presets.len() == s.presets.len()
            &&& !has_preset(s.presets, name) ==> t.presets.len() == s.presets.len() + 1
            &&& t.options == s.options
            &&& t.active_preset == s.active_preset
            &&& t.default_voice == s.default_voice
        }),
{
    lemma_place(s.presets, name, 0);
    if has_preset(s.presets, name) {
        let k = choose|k: int| 0 <= k < s.presets.len() && (#[trigger] s.presets[k]).name == name;
        if place(s.presets, name, 0) == s.presets.len() {
            assert(s.presets[k].name != name);
        }
    } else {
        let at = place(s.presets, name, 0);
        if at < s.presets.len() {
            assert(s.presets[at].name == name);
        }
    }
}

/// A preset that is loaded is in use: every option, and the voice of its model. The presets stay.
pub proof fn law_loading_takes_every_option(s: SettingsValue, p: PresetValue, other: Seq<char>)
    ensures
        ({
            let t = loaded(s, p);
            &&& t.options == p.options
            &&& t.presets == s.presets
            &&& t.active_preset == s.active_preset
            &&& p.options.voice_model matches Some(path) ==> t.voices.dom().contains(path)
                && t.voices[path] == p.voice
            &&& p.options.voice_model != Some(other) ==> t.voices.dom().contains(other)
                == s.voices.dom().contains(other) && (s.voices.dom().contains(other) ==> t.voices[other]
                == s.voices[other])
        }),
{
}

/// Options that count as unmodified are those of the active preset, each by its value.
pub proof fn law_unmodified_options_are_the_presets(s: SettingsValue, found: Option<Voice>)
    requires
        !modified(s, found),
        s.active_preset != DEFAULT_PRESET@,
    ensures
        ({
            let at = place(s.presets, s.active_preset, 0);
            let o = s.presets[at].options;
            &&& 0 <= at < s.presets.len()
            &&& s.presets[at].name == s.active_preset
            &&& o.backend == s.options.backend
            &&& o.input == s.options.input && o.output == s.options.output
            &&& o.monitor == s.options.monitor && o.exclusive == s.options.exclusive
            &&& o.voice_model == s.options.voice_model
            &&& o.f0 == s.options.f0
            &&& o.skip_silence == s.options.skip_silence
            &&& o.monitor_volume == s.options.monitor_volume
            &&& bits::double_equal(o.block_ms, s.options.block_ms)
            &&& bits::double_equal(o.crossfade_ms, s.options.crossfade_ms)
            &&& bits::double_equal(o.extra_ms, s.options.extra_ms)
            &&& bits::single_equal(o.rms_mix, s.options.rms_mix)
            &&& bits::single_equal(o.threshold_db, s.options.threshold_db)
            &&& o.native.chunk == s.options.native.chunk
            &&& o.native.cuda_graph == s.options.native.cuda_graph
            &&& bits::double_equal(o.native.extra_ms, s.options.native.extra_ms)
            &&& bits::double_equal(o.native.crossfade_ms, s.options.native.crossfade_ms)
            &&& bits::single_equal(o.native.threshold_db, s.options.native.threshold_db)
            &&& selected_voice(s, found) matches Some(v) ==> bits::single_equal(
                s.presets[at].voice.pitch,
                v.pitch,
            ) && bits::double_equal(s.presets[at].voice.formant, v.formant)
        }),
{
    lemma_place(s.presets, s.active_preset, 0);
}

/// Deleting takes away the presets of the name and keeps every other as it was, in its order.
pub proof fn law_deleting_keeps_the_others(presets: Seq<PresetValue>, name: Seq<char>)
    ensures
        without(presets, name) == presets.filter(|p: PresetValue| p.name != name),
    decreases presets.len(),
{
    reveal(Seq::filter);
    if presets.len() > 0 {
        law_deleting_keeps_the_others(presets.drop_last(), name);
    } else {
        assert(without(presets, name) =~= presets.filter(|p: PresetValue| p.name != name));
    }
}

/// Renaming changes one name, and not the default's.
pub proof fn law_renaming_changes_one_name(s: SettingsValue, name: Seq<char>, i: int)
    ensures
        s.active_preset == DEFAULT_PRESET@ ==> renamed(s, name) == s,
        s.active_preset != DEFAULT_PRESET@ ==> {
            let t = renamed(s, name);
            &&& t.active_preset == name
            &&& t.presets.len() == s.presets.len()
            &&& 0 <= i < s.presets.len() ==> t.presets[i].options == s.presets[i].options
                && t.presets[i].voice == s.presets[i].voice
            &&& 0 <= i < s.presets.len() && s.presets[i].name != s.active_preset ==> t.presets[i]
                == s.presets[i]
            &&& t.options == s.options && t.voices == s.voices
        },
{
    lemma_place(s.presets, s.active_preset, 0);
}

/// Opening keeps an active preset that exists and falls back to the default one, whose model is always its
/// own; nothing else of the options changes.
pub proof fn law_opening_falls_back(s: SettingsValue, voice: Seq<char>)
    ensures
        ({
            let t = opened(s, voice);
            &&& has_preset(s.presets, s.active_preset) ==> t.active_preset == s.active_preset
            &&& !has_preset(s.presets, s.active_preset) ==> t.active_preset == DEFAULT_PRESET@
            &&& t.default_voice == voice
            &&& t.active_preset == DEFAULT_PRESET@ ==> t.options.voice_model == Some(voice)
            &&& t.active_preset != DEFAULT_PRESET@ ==> t.options == s.options
            &&& t.options == (Options { voice_model: t.options.voice_model, ..s.options })
            &&& t.presets == s.presets && t.voices == s.voices
        }),
{
}

/// A default preset is brought up to new defaults only from an older version and only where it still has all
/// three of the old ones; anything that was chosen stays.
pub proof fn law_only_old_defaults_are_brought_up(p: PresetValue, voice: Seq<char>, version: u32)
    ensures
        ({
            let q = brought_up(p, voice, version);
            let old = version < 2 && p.options.f0 == "fcpe"@ && bits::double_equal(
                p.options.crossfade_ms,
                bits::exact_double(80) as u64,
            ) && bits::single_equal(p.options.rms_mix, 0x3f00_0000);
            &&& q.name == p.name && q.voice == p.voice
            &&& q.options.voice_model == Some(voice)
            &&& !old ==> q.options == (Options { voice_model: Some(voice), ..p.options })
            &&& old ==> q.options == (Options {
                voice_model: Some(voice),
                f0: "rmvpe"@,
                crossfade_ms: bits::exact_double(100) as u64,
                rms_mix: 0x3f80_0000,
                ..p.options
            })
        }),
{
    reveal_with_fuel(bits::highest_bit, 8);
    vstd::arithmetic::power2::lemma2_to64();
    vstd::arithmetic::power2::lemma2_to64_rest();
    assert(bits::exact_double(80) == 0x4054_0000_0000_0000);
    assert(bits::exact_double(100) == 0x4059_0000_0000_0000);
}

/// Of several voices under a path the last counts.
pub proof fn law_last_voice_counts(xs: Seq<(String, Voice)>, path: Seq<char>, at: int)
    requires
        -1 <= at < xs.len(),
        forall|i: int| at < i < xs.len() ==> (#[trigger] xs[i]).0@ != path,
        at >= 0 ==> xs[at].0@ == path,
    ensures
        voice_at(xs, path) == if at >= 0 {
            Some(xs[at].1)
        } else {
            None
        },
    decreases xs.len(),
{
    if xs.len() > 0 && at < xs.len() - 1 {
        let rest = xs.drop_last();
        assert forall|i: int| at < i < rest.len() implies (#[trigger] rest[i]).0@ != path by {
            assert(rest[i] == xs[i]);
        }
        law_last_voice_counts(rest, path, at);
    }
}

/// Parameters beside a model are taken where they name its file and hold two numbers, the pitch under one key
/// and the formant under the other.
pub proof fn law_parameters_name_their_file(v: JsonValue, file: Seq<char>, pitch: u64, formant: u64)
    ensures
        json::member(v, "modelFile"@) != JsonValue::Text(file) ==> described_voice(v, file) is None,
        json::member(v, "modelFile"@) == JsonValue::Text(file) && json::member(v, "defaultTune"@)
            == JsonValue::Double(pitch) && json::member(v, "defaultFormantShift"@)
            == JsonValue::Double(formant) ==> described_voice(v, file) == Some((pitch, formant)),
        json::member(v, "modelFile"@) == JsonValue::Text(file) && json::member(v, "defaultTune"@)
            == JsonValue::Natural(pitch) && pitch < 0x20_0000_0000_0000 && json::member(
            v,
            "defaultFormantShift"@,
        ) == JsonValue::Double(formant) ==> described_voice(v, file) == Some(
            (bits::exact_double(pitch as int) as u64, formant),
        ),
        json::member(v, "defaultTune"@) is Text || json::member(v, "defaultTune"@) is Null
            ==> described_voice(v, file) is None,
        json::member(v, "defaultFormantShift"@) is Text || json::member(v, "defaultFormantShift"@) is Null
            ==> described_voice(v, file) is None,
{
}

/// The files of the application stand in its own directory under the base, or under the current directory.
pub proof fn law_files_stand_in_their_directory(base: Seq<char>, last: Seq<char>)
    ensures
        app_path(Some(base), last) == seq![base, "rvc-app"@, last],
        app_path(None, last) == seq!["."@, "rvc-app"@, last],
{
}

/// The settings with another voice of the selected model.
pub open spec fn voiced(s: SettingsValue, v: Voice) -> SettingsValue {
    match s.options.voice_model {
        Some(path) => SettingsValue { voices: s.voices.insert(path, v), ..s },
        None => s,
    }
}

/// A voice that is set is the one of the selected model, whatever else is known of it, and of no other; without a
/// model nothing is set.
pub proof fn law_set_voice_is_selected(s: SettingsValue, v: Voice, found: Option<Voice>, other: Seq<char>)
    ensures
        s.options.voice_model is Some ==> selected_voice(voiced(s, v), found) == Some(v),
        s.options.voice_model is None ==> voiced(s, v) == s,
        s.options.voice_model != Some(other) ==> voiced(s, v).voices.dom().contains(other)
            == s.voices.dom().contains(other) && (s.voices.dom().contains(other) ==> voiced(s, v).voices[other]
            == s.voices[other]),
        voiced(s, v).options == s.options && voiced(s, v).presets == s.presets,
{
}

/// Settings that have settled have a default preset; every other preset is as it was, in its order. Without one, the
/// default is made of what is in use and stands first.
pub proof fn law_default_is_made_once(s: SettingsValue, found: Option<Voice>, i: int)
    ensures
        ({
            let t = with_default(s, found);
            &&& has_preset(t.presets, DEFAULT_PRESET@)
            &&& has_preset(s.presets, DEFAULT_PRESET@) ==> t == s
            &&& !has_preset(s.presets, DEFAULT_PRESET@) ==> {
                &&& t.presets.len() == s.presets.len() + 1
                &&& t.presets[0].name == DEFAULT_PRESET@
                &&& t.presets[0].options == (Options { voice_model: Some(s.default_voice), ..s.options })
                &&& 0 <= i < s.presets.len() ==> t.presets[i + 1] == s.presets[i]
                &&& t.options == s.options && t.active_preset == s.active_preset
            }
        }),
{
    let t = with_default(s, found);
    if !has_preset(s.presets, DEFAULT_PRESET@) {
        assert(t.presets[0].name == DEFAULT_PRESET@);
    }
}

/// Settling brings the default preset up and leaves the others; the options in use change only where the default
/// preset is the active one, and are then its own.
pub proof fn law_settling_leaves_the_others(s: SettingsValue, found: Option<Voice>, i: int)
    requires
        has_preset(s.presets, DEFAULT_PRESET@),
    ensures
        ({
            let t = settled(s, found);
            let at = place(s.presets, DEFAULT_PRESET@, 0);
            &&& t.presets.len() == s.presets.len()
            &&& 0 <= at < s.presets.len() && s.presets[at].name == DEFAULT_PRESET@
            &&& 0 <= i < s.presets.len() && i != at ==> t.presets[i] == s.presets[i]
            &&& t.presets[at].name == DEFAULT_PRESET@ && t.presets[at].options.voice_model == Some(
                s.default_voice,
            )
            &&& s.active_preset != DEFAULT_PRESET@ ==> t.options == s.options && t.voices == s.voices
            &&& s.active_preset == DEFAULT_PRESET@ ==> t.options == t.presets[at].options
            &&& t.active_preset == s.active_preset
            &&& t.defaults_version == 2
        }),
{
    lemma_place(s.presets, DEFAULT_PRESET@, 0);
    let k = choose|k: int| 0 <= k < s.presets.len() && (#[trigger] s.presets[k]).name == DEFAULT_PRESET@;
    if place(s.presets, DEFAULT_PRESET@, 0) == s.presets.len() {
        assert(s.presets[k].name != DEFAULT_PRESET@);
    }
}

} // verus!
