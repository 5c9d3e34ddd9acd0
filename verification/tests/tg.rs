//! The low-latency path between blocks, and the small parts under it.
use rvc_realtime::bits;
use rvc_realtime::dsp::{
    fcpe_layout, fills, first_largest, gcd, reduced, reflect_pad, rms_frames, Fill, Resampler,
};
use rvc_realtime::json::parse_document;
use rvc_realtime::pitch::Estimates;
use rvc_realtime::startup::{Dims, Startup};
use rvc_realtime::text;
use rvc_realtime::tg::{
    append, check_asset, check_live, check_manifest, check_ports, expand_features, expected_ports,
    is_loud, model_rate, salience, validate_assets, AudioFiles, Blocks, Engine, Trial,
};

fn dims() -> Dims {
    Dims {
        block: 4,
        crossfade: 2,
        search: 1,
        audio: 3,
        convert: 5,
        features: 1,
        silence_front: 0,
        skip: 0,
        ret: 1,
        formant_length: 1,
        scaled_window: 1,
        generated: 1,
        trimmed: 1,
    }
}

#[test]
fn caches_hold_the_end_of_the_stream() {
    let mut b = Blocks::new(&dims());
    b.take(&[1, 2]);
    b.take(&[3, 4]);
    assert_eq!(b.audio(), &[2, 3, 4]);
    assert_eq!(b.context(), &[0, 1, 2, 3, 4]);
    b.take(&[5, 6, 7, 8, 9, 10]);
    assert_eq!(b.context(), &[6, 7, 8, 9, 10]);
    let mut cache = vec![1u16, 2, 3];
    append(&mut cache, &[]);
    assert_eq!(cache, [1, 2, 3]);
}

#[test]
fn a_block_that_is_not_heard_is_joined_to_silence() {
    let (pitch, threshold) = (0.0f64.to_bits(), (-90.0f64).to_bits());
    let mut b = Blocks::new(&dims());
    assert!(b.begin(pitch, threshold).is_ok());
    assert_eq!(b.finish(&[1, 2, 3, 4], true, vec![8, 9]), Ok(vec![1, 2, 3, 4]));
    assert_eq!(b.sola(), &[8, 9]);
    assert!(b.finish(&[1, 2, 3, 4], false, vec![8, 9]).is_ok());
    assert_eq!(b.sola(), &[0, 0]);
    assert!(b.reset_stream_state().is_ok());
    assert_eq!(b.finish(&[1], true, vec![8, 9]).unwrap_err(), "invalid output block");
    assert_eq!(b.begin(pitch, threshold).unwrap_err(), "failed engine must be recreated");
    assert_eq!(b.reset_stream_state().unwrap_err(), "failed engine must be recreated");
    let mut b = Blocks::new(&dims());
    assert_eq!(
        b.begin(f64::NAN.to_bits(), threshold).unwrap_err(),
        "invalid live parameters"
    );
    assert!(b.begin(pitch, threshold).is_err());
}

#[test]
fn live_parameters_have_ranges() {
    let live = |p: f64, t: f64| check_live(p.to_bits(), t.to_bits()).is_ok();
    assert!(live(0.0, -90.0) && live(-48.0, -120.0) && live(48.0, 0.0) && live(-0.0, -0.0));
    assert!(!live(48.5, -90.0) && !live(0.0, 0.5) && !live(0.0, -120.5));
    assert!(!live(f64::NAN, 0.0) && !live(0.0, f64::NEG_INFINITY));
}

#[test]
fn features_stand_for_two_frames_each() {
    let mut rows = vec![1u16; 768];
    rows.extend([2u16; 768]);
    let out = expand_features(&rows, 4).unwrap();
    let firsts: Vec<u16> = out.chunks_exact(768).map(|c| c[0]).collect();
    assert_eq!(firsts, [1, 1, 2, 2]);
    // the last row stands for the frames behind it, but not for any number of them
    let one = expand_features(&rows[..768], 4).unwrap();
    assert!(one.iter().all(|v| *v == 1));
    assert_eq!(expand_features(&rows[..768], 5).unwrap_err(), "ContentVec frame mismatch");
    assert_eq!(expand_features(&rows[..767], 1).unwrap_err(), "ContentVec frame mismatch");
}

#[test]
fn loudness_reaches_the_threshold_or_not() {
    let half = |v: f32| half::f16::from_f32(v).to_bits();
    assert!(is_loud(half(0.25), 0.25f32.to_bits()));
    assert!(!is_loud(half(0.25), 0.2500001f32.to_bits()));
    assert!(is_loud(half(-0.0), 0.0f32.to_bits()));
    assert!(!is_loud(half(f32::NAN), 0.0f32.to_bits()));
}

#[test]
fn assets_are_held_to_their_manifest() {
    let list = |name: &str| {
        let ports: Vec<String> =
            expected_ports(name).unwrap().iter().map(|p| format!("\"{p}\"")).collect();
        ports.join(", ")
    };
    let text = |tf32: &str| {
        format!(
            "{{\"schema\": 1, \"algorithm\": \"tg-fast-v1\", \"generator_kind\": \"deiteris-onnx-v1\", \"tf32\": {tf32}, \"ports\": {{\"contentvec\": [{}], \"rmvpe\": [{}], \"post\": [{}]}}, \"files\": {{\"a\": \"ba7816bf8f01cfea414140de5dae2223b00361a396177a9cb410ff61f20015ad\"}}}}",
            list("contentvec.onnx"),
            list("rmvpe-salience.onnx"),
            list("post.onnx")
        )
    };
    let good = parse_document(text("false").as_bytes()).unwrap();
    assert!(check_manifest(&good).is_ok());
    assert!(check_asset(&good, "a", b"abc").is_ok());
    assert_eq!(check_asset(&good, "a", b"").unwrap_err(), "audio asset hash mismatch: a");
    assert_eq!(check_asset(&good, "b", b"abc").unwrap_err(), "audio asset hash mismatch: b");
    let fast = parse_document(text("true").as_bytes()).unwrap();
    assert_eq!(check_manifest(&fast).unwrap_err(), "unsupported audio contract");
    let other = parse_document(text("false").replace("\"post\"", "\"last\"").as_bytes()).unwrap();
    assert_eq!(check_manifest(&other).unwrap_err(), "unsupported audio port contract");
    assert!(expected_ports("other.onnx").is_none());
}

#[test]
fn halves_widen_to_the_same_value() {
    for h in 0..=u16::MAX {
        let v = half::f16::from_bits(h);
        if !v.is_nan() {
            assert_eq!(f32::from_bits(bits::widen(h)), v.to_f32());
        }
        assert_eq!(bits::is_finite_half(h), v.is_finite());
    }
}

#[test]
fn comparisons_are_those_of_the_numbers() {
    let values = [
        0.0f32, -0.0, 1.0, -1.0, 1e-40, f32::MAX, f32::INFINITY, f32::NEG_INFINITY, f32::NAN,
    ];
    for a in values {
        for b in values {
            assert_eq!(bits::is_above(a.to_bits(), b.to_bits()), a > b);
            assert_eq!(bits::is_at_least(a.to_bits(), b.to_bits()), a >= b);
            assert_eq!(bits::equal_singles(a.to_bits(), b.to_bits()), a == b);
            assert_eq!(
                bits::equal_doubles((a as f64).to_bits(), (b as f64).to_bits()),
                a == b
            );
        }
        assert_eq!(bits::is_finite_single(a.to_bits()), a.is_finite());
    }
}

#[test]
fn texts_are_read_joined_and_written() {
    assert_eq!(text::text_between("aé".as_bytes(), 1, 3).unwrap(), "é");
    assert!(text::text_between(&[0xff], 0, 1).is_err());
    assert_eq!(text::hex(&vec![0, 0xaf]), "00af");
    assert_eq!(text::decimal(0), "0");
    assert_eq!(text::decimal(1024), "1024");
    assert_eq!(text::signed_decimal(-7), "-7");
    let names = ["b", "", "ab", "a"].map(str::to_owned).to_vec();
    assert_eq!(text::sort_names(names), ["", "a", "ab", "b"]);
}

#[test]
fn rates_reduce_and_resample() {
    assert_eq!(gcd(48000, 44100), 300);
    assert_eq!(reduced(48000, 16000), (3, 1));
    let r = Resampler { orig: 3, new: 1, width: 2 };
    assert_eq!(r.output_len(7), 3);
    assert_eq!(r.taps(), 7);
    assert_eq!(reflect_pad(&[1, 2, 3], 2, 2), [3, 2, 1, 2, 3, 2, 1]);
    assert_eq!(rms_frames(10, 4, 2), 6);
}

#[test]
fn gaps_in_the_pitch_are_filled() {
    let row = [1.0f32, 3.0, 3.0, 2.0].map(f32::to_bits);
    assert_eq!(first_largest(&row), 1);
    let f0 = [0.0f32, 100.0, 0.0, 200.0, 0.0].map(f32::to_bits);
    let filled = fills(&f0);
    assert!(matches!(filled[0], Fill::Copy(1)));
    assert!(matches!(filled[1], Fill::Own));
    assert!(matches!(filled[2], Fill::Between(1, 3)));
    assert!(matches!(filled[4], Fill::Copy(3)));
    assert_eq!(fcpe_layout(1600).wanted, 11);
}

fn path(trial: Trial, features: usize) -> Engine {
    let startup = Startup {
        sample_rate: 48000,
        chunk: 0,
        block_frames: Some(480),
        extra_ms: 0,
        crossfade_ms: 0,
        formant: 0.0f64.to_bits(),
    };
    let d = Dims { block: 480, features, silence_front: 2, ..dims() };
    Engine::new(trial, &startup, &d).ok().unwrap()
}

fn estimates(values: &[f32]) -> Estimates {
    Estimates {
        raw: values.iter().map(|v| v.to_bits()).collect(),
        shifted: values.iter().map(|v| half::f16::from_f32(*v).to_bits()).collect(),
        coarse: values.iter().map(|v| *v as i64).collect(),
    }
}

#[test]
fn a_path_takes_blocks_until_it_fails() {
    let (pitch, threshold) = (0.0f64.to_bits(), (-90.0f64).to_bits());
    let mut g = path(Trial::default(), 2);
    assert_eq!(g.block_frames(), 480);
    let block = vec![0.5f32.to_bits(); 480];
    assert_eq!(g.process(&block, pitch, threshold).unwrap().len(), 160);
    g.listen(&[1, 2, 3]);
    assert_eq!(g.context(), &[0, 0, 1, 2, 3]);
    assert_eq!(g.audio(), &[1, 2, 3]);
    assert_eq!(g.pitch_window(), [1, 2, 3]);
    let one = 1.0f32.to_bits();
    let p = g.prepare(&[7u16; 768], &estimates(&[100.0, 200.0]), pitch, one).unwrap();
    assert_eq!(p.features.len(), 2 * 768);
    assert_eq!(p.pitch, [100, 200]);
    assert_eq!(half::f16::from_bits(p.pitchf[1]).to_f32(), 200.0);
    assert_eq!(g.finish(&block, true, vec![3, 4]).unwrap().len(), 480);
    assert_eq!(g.sola(), &[3, 4]);
    // a reset is a fresh start
    assert!(g.reset_stream_state().is_ok());
    assert_eq!(g.sola(), &[0, 0]);
    assert_eq!(g.pitch_window(), [0, 0, 0]);
    assert_eq!(g.process(&block[1..], pitch, threshold).err().unwrap(), "invalid input block");
    assert_eq!(
        g.process(&block, pitch, threshold).err().unwrap(),
        "failed engine must be recreated"
    );
    assert_eq!(g.reset_stream_state().unwrap_err(), "failed engine must be recreated");
}

#[test]
fn the_pitch_of_a_trial_moves_with_the_time() {
    let tune = 0.0f64.to_bits();
    let one = 1.0f32.to_bits();
    let trial = Trial { aligned_pitch_history: true, ..Trial::default() };
    let mut g = path(trial, 3);
    // a block of 480 samples is one frame
    g.prepare(&[7u16; 768], &estimates(&[10.0, 20.0]), tune, one).ok().unwrap();
    let p = g.prepare(&[7u16; 768], &estimates(&[30.0, 40.0]), tune, one).unwrap();
    assert_eq!(p.pitch, [10, 30, 40]);
    let mut g = path(Trial::default(), 3);
    g.prepare(&[7u16; 768], &estimates(&[10.0, 20.0]), tune, one).ok().unwrap();
    let p = g.prepare(&[7u16; 768], &estimates(&[30.0, 40.0]), tune, one).unwrap();
    assert_eq!(p.pitch, [20, 30, 40]);
    let bad = g.prepare(&[7u16; 767], &estimates(&[30.0]), tune, one);
    assert_eq!(bad.err().unwrap(), "ContentVec frame mismatch");
    let mut g = path(Trial::default(), 3);
    let bad = g.prepare(&[7u16; 768], &estimates(&[30.0]), tune, 0.0f32.to_bits());
    assert_eq!(bad.err().unwrap(), "invalid generator pitch slice");
    let mut g = path(trial, 3);
    let bad = g.prepare(&[7u16; 768], &estimates(&[]), tune, one);
    assert_eq!(bad.err().unwrap(), "invalid pitch history hop");
    g = path(trial, 3);
    g.fail();
    assert!(g.reset_stream_state().is_err());
}

#[test]
fn a_path_needs_lengths_that_it_can_hold() {
    let startup = Startup {
        sample_rate: 32000,
        chunk: 0,
        block_frames: Some(480),
        extra_ms: 0,
        crossfade_ms: 0,
        formant: 0,
    };
    let bad = Engine::new(Trial::default(), &startup, &dims());
    assert_eq!(bad.err().unwrap(), "unsupported input dimensions");
    let startup = Startup { sample_rate: 44100, ..startup };
    let bad = Engine::new(Trial::default(), &startup, &Dims { features: 0, ..dims() });
    assert_eq!(bad.err().unwrap(), "invalid pitch feature length");
}

#[test]
fn opened_graphs_have_the_ports_of_their_names() {
    let ports = expected_ports("rmvpe-salience.onnx").unwrap();
    assert!(check_ports("rmvpe-salience.onnx", &ports, "a/b").is_ok());
    assert_eq!(
        check_ports("contentvec.onnx", &ports, "a/b").unwrap_err(),
        "audio graph port/dtype mismatch: a/b"
    );
    assert_eq!(check_ports("x.onnx", &ports, "a/b").unwrap_err(), "unknown audio graph");
    assert_eq!(model_rate(b"{\"model_sr\": 40000}"), Ok(40000));
    assert_eq!(model_rate(b"{\"model_sr\": -1}").unwrap_err(), "missing model rate");
    assert!(model_rate(b"{").is_err());
    assert_eq!(salience(&[9u16; 720], 1, 2).unwrap().len(), 360);
    assert_eq!(salience(&[9u16; 719], 1, 2).unwrap_err(), "RMVPE frame mismatch");
}

#[test]
fn all_files_of_the_manifest_are_checked() {
    let list = |name: &str| {
        let ports: Vec<String> =
            expected_ports(name).unwrap().iter().map(|p| format!("\"{p}\"")).collect();
        ports.join(", ")
    };
    let empty = "e3b0c44298fc1c149afbf4c8996fb92427ae41e4649b934ca495991b7852b855";
    let text = format!(
        "{{\"schema\": 1, \"algorithm\": \"tg-fast-v1\", \"generator_kind\": \"deiteris-onnx-v1\", \"tf32\": false, \"ports\": {{\"contentvec\": [{}], \"rmvpe\": [{}], \"post\": [{}]}}, \"files\": {{\"contentvec.onnx\": \"{empty}\", \"rmvpe-salience.onnx\": \"{empty}\", \"post.onnx\": \"{empty}\", \"mel-basis.f32\": \"{empty}\", \"hann.f32\": \"{empty}\"}}}}",
        list("contentvec.onnx"),
        list("rmvpe-salience.onnx"),
        list("post.onnx")
    );
    let files = || AudioFiles {
        contentvec: vec![],
        rmvpe: vec![],
        post: vec![],
        mel_basis: vec![],
        hann: vec![],
    };
    assert!(validate_assets(text.as_bytes(), &files()).is_ok());
    let changed = AudioFiles { mel_basis: vec![0], hann: vec![0], ..files() };
    assert_eq!(
        validate_assets(text.as_bytes(), &changed).unwrap_err(),
        "audio asset hash mismatch: mel-basis.f32"
    );
    assert_eq!(validate_assets(b"{}", &files()).unwrap_err(), "unsupported audio contract");
    assert!(validate_assets(b"", &files()).is_err());
}
