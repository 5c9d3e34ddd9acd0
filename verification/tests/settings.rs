//! The configuration and its presets.
use rvc_realtime::settings;
use rvc_realtime::settings::{
    described, models_dir, vcclient_defaults, Backend, NativeSettings, Preset, Settings, Voice,
    DEFAULT_PRESET,
};

#[test]
fn old_configuration_stays_legacy_and_native_preset_roundtrips() {
    let old = Settings {
        backend: Backend::default(),
        block_ms: 50.0f64.to_bits(),
        threshold_db: (-42.0f32).to_bits(),
        ..Settings::default()
    };
    assert_eq!(old.backend, Backend::Legacy);
    assert_eq!(f64::from_bits(old.block_ms), 50.0);
    assert_eq!(f32::from_bits(old.threshold_db), -42.0);
    let mut fresh = Settings::default();
    assert_eq!(fresh.backend, Backend::Deiteris);
    fresh.native.chunk = 17;
    fresh.native.threshold_db = (-83.0f32).to_bits();
    fresh.save_preset("native", None);
    let mut restored = fresh;
    restored.backend = Backend::Legacy;
    restored.native.chunk = 99;
    let p = restored.presets[0].copy();
    restored.load_preset(&p);
    assert_eq!(restored.backend, Backend::Deiteris);
    assert_eq!(restored.native.chunk, 17);
    assert_eq!(f32::from_bits(restored.native.threshold_db), -83.0);
    let old_preset = Preset { backend: Backend::default(), native: NativeSettings::default(), ..p };
    assert_eq!(old_preset.backend, Backend::Legacy);
}

#[test]
fn the_defaults_are_the_documented_values() {
    let s = Settings::default();
    assert_eq!(f64::from_bits(s.block_ms), 60.0);
    assert_eq!(f64::from_bits(s.crossfade_ms), 100.0);
    assert_eq!(f64::from_bits(s.extra_ms), 1000.0);
    assert_eq!(f32::from_bits(s.rms_mix), 1.0);
    assert_eq!(f32::from_bits(s.threshold_db), -60.0);
    assert_eq!(s.f0, "rmvpe");
    assert_eq!(s.monitor_volume, 50);
    assert_eq!(s.active_preset, DEFAULT_PRESET);
    assert_eq!(s.native.chunk, 19);
    assert_eq!(f64::from_bits(s.native.extra_ms), 500.0);
    assert_eq!(f64::from_bits(s.native.crossfade_ms), 100.0);
    assert_eq!(f32::from_bits(s.native.threshold_db), -90.0);
    assert!(s.native.cuda_graph);
}

#[test]
fn paths_lie_below_the_applications_directory() {
    assert_eq!(settings::file(Some("C:/a".to_owned())), ["C:/a", "rvc-app", "settings.json"]);
    assert_eq!(settings::file(None), [".", "rvc-app", "settings.json"]);
    assert_eq!(models_dir(Some("b".to_owned())), ["b", "rvc-app", "models"]);
}

fn opened(saved: Option<Settings>) -> Settings {
    let mut s = Settings::load(saved, "default.pth");
    s.settle(None);
    s
}

#[test]
fn a_fresh_configuration_opens_on_the_default_preset() {
    let s = opened(None);
    assert_eq!(s.presets.len(), 1);
    assert_eq!(s.presets[0].name, DEFAULT_PRESET);
    assert_eq!(s.voice_model.as_deref(), Some("default.pth"));
    assert_eq!(s.defaults_version, 2);
    assert!(s.unknown_voice().is_none());
}

#[test]
fn untouched_old_defaults_are_brought_up_and_others_are_not() {
    let old = |crossfade: f64| {
        let mut s = opened(None);
        s.defaults_version = 1;
        s.presets[0].f0 = "fcpe".to_owned();
        s.presets[0].crossfade_ms = crossfade.to_bits();
        s.presets[0].rms_mix = 0.5f32.to_bits();
        opened(Some(s))
    };
    let s = old(80.0);
    assert_eq!(s.f0, "rmvpe");
    assert_eq!(f64::from_bits(s.crossfade_ms), 100.0);
    assert_eq!(f32::from_bits(s.rms_mix), 1.0);
    let s = old(81.0);
    assert_eq!(s.f0, "fcpe");
    assert_eq!(f64::from_bits(s.crossfade_ms), 81.0);
}

#[test]
fn an_active_preset_that_is_gone_gives_way_to_the_default() {
    let mut s = opened(None);
    s.active_preset = "gone".to_owned();
    s.voice_model = Some("other.pth".to_owned());
    let s = opened(Some(s));
    assert_eq!(s.active_preset, DEFAULT_PRESET);
    assert_eq!(s.voice_model.as_deref(), Some("default.pth"));
}

#[test]
fn presets_are_saved_renamed_and_deleted() {
    let mut s = opened(None);
    assert!(!s.name_is_free(DEFAULT_PRESET));
    assert!(s.name_is_free("a"));
    s.voice_model = Some("a.pth".to_owned());
    s.block_ms = 30.0f64.to_bits();
    s.save_preset("a", Some(Voice { pitch: 7.0f32.to_bits(), formant: 1.5f64.to_bits() }));
    s.active_preset = "a".to_owned();
    assert!(!s.name_is_free("a"));
    assert!(!s.is_modified(None));
    s.monitor_volume = 1;
    assert!(s.is_modified(None));
    s.save_preset("a", None);
    assert!(!s.is_modified(None));
    assert_eq!(s.presets.len(), 2);
    assert_eq!(f32::from_bits(s.presets[1].pitch), 7.0);
    s.rename_active_preset("b");
    assert_eq!((s.presets[1].name.as_str(), s.active_preset.as_str()), ("b", "b"));
    s.delete_active_preset();
    assert_eq!(s.presets.len(), 1);
    assert_eq!(s.active_preset, DEFAULT_PRESET);
    assert_eq!(s.voice_model.as_deref(), Some("default.pth"));
    assert_eq!(f64::from_bits(s.block_ms), 60.0);
    // the default one stays as it is
    s.rename_active_preset("c");
    s.delete_active_preset();
    assert_eq!(s.presets[0].name, DEFAULT_PRESET);
}

#[test]
fn zeros_of_both_signs_are_no_change() {
    let mut s = opened(None);
    s.presets[0].pitch = (-0.0f32).to_bits();
    s.set_voice(Voice { pitch: 0, formant: (-0.0f64).to_bits() });
    assert!(!s.is_modified(None));
}

#[test]
fn a_model_starts_from_what_was_found_beside_it() {
    let mut s = opened(None);
    s.voice_model = Some("new.pth".to_owned());
    assert_eq!(s.unknown_voice().as_deref(), Some("new.pth"));
    let found = Voice { pitch: 3, formant: 4 };
    assert_eq!(s.voice(Some(found)), Some(found));
    assert_eq!(s.voice(None), Some(found));
    assert!(s.unknown_voice().is_none());
    s.set_voice(Voice { pitch: 5, formant: 6 });
    assert_eq!(s.known_voice("new.pth"), Some(Voice { pitch: 5, formant: 6 }));
    assert_eq!(s.voices.len(), 2);
    s.voice_model = None;
    assert_eq!(s.voice(Some(found)), None);
}

#[test]
fn parameters_beside_a_model_describe_it_alone() {
    let text = b"{\"modelFile\": \"a.pth\", \"defaultTune\": 12, \"defaultFormantShift\": -0.5}";
    let (pitch, formant) = vcclient_defaults(text, "a.pth").unwrap();
    assert_eq!(f64::from_bits(pitch), 12.0);
    assert_eq!(f64::from_bits(formant), -0.5);
    assert!(vcclient_defaults(text, "b.pth").is_none());
    assert!(vcclient_defaults(b"{\"modelFile\": \"a.pth\"}", "a.pth").is_none());
    assert!(vcclient_defaults(b"no document", "a.pth").is_none());
    let v = rvc_realtime::json::parse_document(text).unwrap();
    assert!(described(&v, "a.pth").is_some());
}

#[test]
fn opening_again_changes_nothing() {
    let mut s = opened(None);
    s.f0 = "fcpe".to_owned();
    s.save_preset("mine", None);
    s.active_preset = "mine".to_owned();
    let s = opened(Some(s));
    assert_eq!(s.active_preset, "mine");
    assert_eq!(s.f0, "fcpe");
    assert_eq!(s.presets.len(), 2);
    let t = opened(Some(s));
    assert_eq!(t.active_preset, "mine");
    assert_eq!(t.presets.len(), 2);
}
