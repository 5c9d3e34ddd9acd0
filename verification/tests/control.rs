//! Runs, and what the window decides.
use rvc_realtime::control::{
    enter_name, explain, live, missing, native_startup, over_pitch_cache, request, required_files,
    restart, start_key, Check, Moment, Named, Naming, Surroundings,
};
use rvc_realtime::config::F0Method;
use rvc_realtime::error::Unsupported;
use rvc_realtime::processor::{Bundle, Conversion};
use rvc_realtime::realtime::{DeviceEntry, DeviceList, Status};
use rvc_realtime::session::{model_name, unconvertible, unreadable, Session, Stage};
use rvc_realtime::settings::{Backend, Settings, Voice, DEFAULT_PRESET};
use rvc_realtime::startup::Startup;

fn devices() -> Option<DeviceList> {
    let entry = |name: &str, rate| DeviceEntry { name: name.to_owned(), default_sample_rate: rate };
    Some(DeviceList {
        inputs: vec![entry("mic", 44100)],
        outputs: vec![entry("speaker", 48000), entry("headset", 48000)],
    })
}

fn settings() -> Settings {
    Settings {
        input: "mic".to_owned(),
        output: "speaker".to_owned(),
        voice_model: Some("a.pth".to_owned()),
        ..Settings::default()
    }
}

fn around() -> Surroundings {
    Surroundings { native_problem: None, absent_file: None, pitch_need: 0 }
}

fn fits() -> Check {
    Check::Fits("40k".to_owned())
}

#[test]
fn what_is_missing_is_told_in_order() {
    let s = settings();
    assert!(missing(&s, &devices(), &around(), &fits()).is_none());
    assert_eq!(
        missing(&s, &None, &around(), &fits()).unwrap(),
        "音声デバイスを取得できません"
    );
    let other = Settings { input: "none".to_owned(), ..settings() };
    assert_eq!(
        missing(&other, &devices(), &around(), &fits()).unwrap(),
        "オプションで入力デバイスと出力デバイスを選んでください"
    );
    let monitor = Settings { monitor: Some("mic".to_owned()), ..settings() };
    assert_eq!(
        missing(&monitor, &devices(), &around(), &fits()).unwrap(),
        "オプションでモニター出力デバイスを選び直してください"
    );
    let silent = Settings { voice_model: None, ..settings() };
    assert_eq!(
        missing(&silent, &devices(), &around(), &fits()).unwrap(),
        "オプションで声モデルを選んでください"
    );
    let problem = Surroundings { native_problem: Some("invalid formant".to_owned()), ..around() };
    assert_eq!(
        missing(&s, &devices(), &problem, &fits()).unwrap(),
        "Deiteris の設定: invalid formant"
    );
    let absent = Surroundings { absent_file: Some("x.onnx".to_owned()), ..around() };
    assert_eq!(
        missing(&s, &devices(), &absent, &fits()).unwrap(),
        "Deiteris の資産がありません: x.onnx"
    );
    let long = Surroundings { pitch_need: 10241, ..around() };
    assert!(missing(&s, &devices(), &long, &fits()).is_none());
    let legacy = Settings { backend: Backend::Legacy, ..settings() };
    assert!(missing(&legacy, &devices(), &absent, &fits()).is_none());
    assert_eq!(missing(&legacy, &devices(), &long, &fits()), over_pitch_cache(10241));
    assert_eq!(
        missing(&s, &devices(), &around(), &Check::Pending).unwrap(),
        "声モデルを確認しています…"
    );
    let bad = Check::Unsupported("why".to_owned());
    assert_eq!(missing(&s, &devices(), &around(), &bad).unwrap(), "why");
}

#[test]
fn the_pitch_history_has_a_budget() {
    assert!(over_pitch_cache(10240).is_none());
    assert_eq!(
        over_pitch_cache(10350).unwrap(),
        "ブロック長・クロスフェード・文脈長の合計が 10350 ms です。10240 ms までにしてください"
    );
}

#[test]
fn unsupported_models_are_explained() {
    assert_eq!(
        explain(&Unsupported::Version("v1".to_owned())),
        "対応外の声モデルです（RVC v2 ではありません: v1）"
    );
    assert_eq!(explain(&Unsupported::NoF0), "対応外の声モデルです（F0 なし）");
    assert_eq!(
        explain(&Unsupported::Config),
        "対応外の声モデルです（公式の学習設定 32k / 40k / 48k と違う設定）"
    );
    assert_eq!(
        explain(&Unsupported::Weights("w".to_owned())),
        "対応外の声モデルです（重み w が無いか形が違います）"
    );
}

#[test]
fn a_request_follows_the_settings() {
    let mut s = settings();
    let voice = Voice { pitch: 2.0f32.to_bits(), formant: 0.5f64.to_bits() };
    s.set_voice(voice);
    let r = request(&s, &devices(), &voice).unwrap();
    assert_eq!(r.voice_model, "a.pth");
    let n = r.native.unwrap();
    assert_eq!((n.sample_rate, n.chunk), (44100, 19));
    assert_eq!(n.formant, voice.formant);
    assert_eq!(r.startup.sample_rate, 44100);
    assert!(matches!(r.startup.f0, F0Method::Rmvpe));
    assert_eq!(f32::from_bits(r.live.threshold_db), -90.0);
    assert!(!r.live.skip_silence);
    s.backend = Backend::Legacy;
    s.f0 = "fcpe".to_owned();
    let r = request(&s, &devices(), &voice).unwrap();
    assert!(r.native.is_none());
    assert!(matches!(r.startup.f0, F0Method::Fcpe));
    assert_eq!(f32::from_bits(r.live.threshold_db), -60.0);
    assert!(r.live.skip_silence);
    assert!(request(&s, &None, &voice).is_none());
    s.voice_model = None;
    assert!(request(&s, &devices(), &voice).is_none());
    assert_eq!(native_startup(&s, &None).sample_rate, 48000);
}

#[test]
fn live_values_follow_the_backend_that_runs() {
    let s = settings();
    let voice = Voice { pitch: 9, formant: 0 };
    assert_eq!(f32::from_bits(live(&s, Backend::Deiteris, &voice).threshold_db), -90.0);
    let l = live(&s, Backend::Legacy, &voice);
    assert_eq!((l.pitch, l.monitor_volume), (9, 50));
    assert!(l.skip_silence);
}

#[test]
fn only_a_change_that_matters_starts_again() {
    let mut s = settings();
    let m = Moment { stage: Stage::Running, dragging: false, checking: false, incomplete: false };
    let started = Some(start_key(&s));
    assert!(!restart(&m, &started, &s));
    s.rms_mix = 0;
    s.monitor_volume = 3;
    assert!(!restart(&m, &started, &s));
    s.native.chunk = 20;
    assert!(restart(&m, &started, &s));
    assert!(!restart(&Moment { dragging: true, ..m }, &started, &s));
    assert!(!restart(&Moment { checking: true, ..m }, &started, &s));
    assert!(!restart(&Moment { incomplete: true, ..m }, &started, &s));
    assert!(!restart(&Moment { stage: Stage::Loading, ..m }, &started, &s));
    assert!(!restart(&m, &None, &s));
}

#[test]
fn names_are_empty_unchanged_taken_or_accepted() {
    let mut s = Settings::load(None, "d.pth");
    s.settle(None);
    s.save_preset("a", None);
    s.active_preset = "a".to_owned();
    assert_eq!(enter_name(&s, Naming::New, ""), Named::Empty);
    assert_eq!(enter_name(&s, Naming::Rename, "a"), Named::Unchanged);
    assert_eq!(enter_name(&s, Naming::New, "a"), Named::Taken);
    assert_eq!(enter_name(&s, Naming::Rename, DEFAULT_PRESET), Named::Taken);
    assert_eq!(enter_name(&s, Naming::New, "b"), Named::Accepted);
}

#[test]
fn the_files_of_the_low_latency_path_are_eleven() {
    let files = required_files();
    assert_eq!(files.len(), 11);
    assert_eq!(files[0], "tg-fast-v1/audio-contract.json");
    assert_eq!(files[10], "tg-gpu-pitch-v2/decode.onnx");
}

#[test]
fn a_run_goes_through_its_stages() {
    let mut s = Session::new();
    assert_eq!(s.stage(), Stage::Idle);
    assert!(!s.start());
    assert_eq!(s.stage(), Stage::Loading);
    assert!(s.prepare(false, true));
    assert_eq!(s.stage(), Stage::Converting);
    s.converted();
    s.started();
    assert_eq!(s.stage(), Stage::Loading);
    assert!(!s.poll(Status::Loading, ""));
    assert!(!s.poll(Status::Running, ""));
    assert_eq!(s.stage(), Stage::Running);
    assert!(s.poll(Status::Error, "inference: x"));
    assert_eq!(s.stage(), Stage::Idle);
    assert_eq!(s.error().unwrap(), "変換が止まりました: inference: x");
    assert!(!s.poll(Status::Error, "again"));
    assert!(!s.start());
    assert!(s.error().is_none());
    assert!(!s.prepare(true, true));
    assert!(s.prepare(true, false));
    s.fail(unreadable("gone"));
    assert_eq!(s.error().unwrap(), "声モデルを読めません: gone");
    assert_eq!(unconvertible("why"), "声モデルを変換できませんでした: why");
    s.start();
    s.started();
    assert!(s.poll(Status::Error, "audio: y"));
    assert_eq!(s.error().unwrap(), "開始できませんでした: audio: y");
    s.start();
    s.started();
    assert!(s.stop());
    assert!(!s.stop());
}

#[test]
fn a_conversion_is_named_by_the_start_of_its_digest() {
    assert_eq!(model_name(b"abc"), "ba7816bf8f01cfea");
    assert_eq!(model_name(b""), "e3b0c44298fc1c14");
}

#[test]
fn missing_quality_bundle_is_reported_before_loading_runtime() {
    let startup = Startup {
        sample_rate: 48000,
        chunk: 60,
        block_frames: None,
        extra_ms: 3000.0f64.to_bits(),
        crossfade_ms: 30.0f64.to_bits(),
        formant: (-0.2f64).to_bits(),
    };
    let bundle = |name: &str, present| Bundle { path: name.to_owned(), present };
    let c = Conversion::Deiteris {
        model_dir: "absent".to_owned(),
        assets: "absent".to_owned(),
        startup,
        cuda_graph: true,
    };
    assert_eq!(c.sample_rate(), 48000);
    let e = c.check_bundles(&bundle("pipeline", false), &bundle("pitch", false)).err().unwrap();
    assert!(e.message().contains("missing Fast V2 GPU assets"));
    assert!(c.check_bundles(&bundle("pipeline", false), &bundle("pitch", true)).is_ok());
    let c = Conversion::DeiterisGpu {
        model_dir: "absent".to_owned(),
        assets: "absent".to_owned(),
        startup,
        cuda_graph: true,
    };
    let e = c.check_bundles(&bundle("pipeline", false), &bundle("pitch", false)).err().unwrap();
    assert!(e.message().contains("missing experimental full-GPU assets"));
    let e = c.check_bundles(&bundle("pipeline", true), &bundle("pitch", false)).err().unwrap();
    assert_eq!(e.message(), "runtime: missing Fast V2 GPU assets: pitch");
}
