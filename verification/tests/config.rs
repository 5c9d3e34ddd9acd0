//! The lengths of the path with a legacy engine, and its stream.
use rvc_realtime::config::{
    feats_frames, is_countable, Dims, F0Method, GraphFile, Hops, Model, ModelFiles, Startup,
};
use rvc_realtime::engine::{feature_row, Stream};
use rvc_realtime::error::Error;
use rvc_realtime::infer::ModelsPlan;
use rvc_realtime::plan::Elem;

fn model() -> Model {
    Model {
        model_sr: 40000,
        upp: 400,
        half: true,
        f0_min: 50.0f32.to_bits(),
        f0_max: 1100.0f32.to_bits(),
        pitch_cache_len: 1024,
        inter_channels: 192,
        files: ModelFiles {
            contentvec: "c.onnx".to_owned(),
            rmvpe: "r.onnx".to_owned(),
            fcpe: "f.onnx".to_owned(),
            generator: "g.onnx".to_owned(),
        },
        dir: String::new(),
    }
}

fn startup(block_ms: f64, crossfade_ms: f64, extra_ms: f64) -> Startup {
    Startup {
        sample_rate: 48000,
        block_ms: block_ms.to_bits(),
        crossfade_ms: crossfade_ms.to_bits(),
        extra_ms: extra_ms.to_bits(),
        formant: 0.0f64.to_bits(),
        f0: F0Method::Fcpe,
    }
}

/// The times in hops of 10 ms, rounded to the nearest and half to even.
fn hops(s: &Startup) -> Hops {
    let sr = s.sample_rate as f64;
    let zc = (s.sample_rate / 100).max(1) as f64;
    let hop = |ms: u64| (f64::from_bits(ms) / 1000.0 * sr / zc).round_ties_even() as usize;
    Hops { block: hop(s.block_ms), crossfade: hop(s.crossfade_ms), extra: hop(s.extra_ms) }
}

fn compute(s: &Startup) -> Result<Dims, Error> {
    if let Err(fault) = s.validate() {
        return Err(fault.error("?"));
    }
    let h = hops(s);
    assert!(is_countable(s, &h));
    let ret = h.block + h.crossfade.min(4) + 1;
    Dims::compute(&model(), s, h, ret, 400)
}

/// Context, crossfade and block share the pitch cache (1024 frames): what fits computes, what does not is
/// refused at startup instead of running past the cache.
#[test]
fn pitch_cache_limits_the_context() {
    // 1024 frames of 10 ms, minus block, crossfade and the 10 ms SOLA search
    assert!(compute(&startup(60.0, 80.0, 10_000.0)).is_ok());
    assert!(compute(&startup(200.0, 80.0, 10_000.0)).is_err());
    assert!(compute(&startup(200.0, 80.0, 9_950.0)).is_ok());
}

#[test]
fn a_layout_has_its_lengths() {
    let d = compute(&startup(60.0, 80.0, 1000.0)).unwrap();
    assert_eq!((d.zc, d.block_frame, d.block_frame_16k), (480, 2880, 960));
    assert_eq!((d.crossfade_frame, d.sola_buffer_frame, d.sola_search_frame), (3840, 1920, 480));
    assert_eq!((d.extra_frame, d.input_wav_len, d.n16, d.p_len), (48000, 55200, 18400, 115));
    assert_eq!((d.skip_head, d.return_length, d.flow_head), (100, 11, 76));
    assert_eq!((d.f0_extractor_frame, d.f0_frames, d.feats_frames), (1760, 12, 57));
    let r = compute(&Startup { f0: F0Method::Rmvpe, ..startup(60.0, 80.0, 1000.0) }).unwrap();
    assert_eq!((r.f0_extractor_frame, r.f0_frames), (4960, 32));
    assert_eq!(feats_frames(18400), 57);
    assert_eq!(feats_frames(400), 1);
}

#[test]
fn startup_parameters_have_ranges() {
    for s in [
        startup(19.0, 80.0, 1000.0),
        startup(60.0, 101.0, 1000.0),
        startup(60.0, 80.0, 499.0),
        startup(60.0, 80.0, 10_001.0),
        startup(f64::NAN, 80.0, 1000.0),
        Startup { formant: 12.5f64.to_bits(), ..startup(60.0, 80.0, 1000.0) },
        Startup { sample_rate: 99, ..startup(60.0, 80.0, 1000.0) },
    ] {
        assert!(matches!(compute(&s), Err(Error::Startup(_))));
    }
}

#[test]
fn a_stream_keeps_the_end_of_its_input() {
    let d = compute(&startup(60.0, 80.0, 1000.0)).unwrap();
    let mut s = Stream::new(d);
    assert_eq!(s.block_frames(), 2880);
    assert!(matches!(
        s.accept(&[0; 7]),
        Err(Error::BlockSize { expected: 2880, got: 7 })
    ));
    let first: Vec<u32> = (1..=2880).collect();
    s.accept(&first).unwrap();
    let recent = s.recent();
    assert_eq!(recent.last(), Some(&2880));
    s.reset();
    assert!(s.recent().iter().all(|v| *v == 0));
    assert_eq!(feature_row(0, 57), 0);
    assert_eq!(feature_row(7, 57), 3);
    assert_eq!(feature_row(113, 57), 56);
    assert_eq!(feature_row(114, 57), 56);
}

#[test]
fn a_model_needs_its_graphs() {
    let names = model().files.graphs();
    assert_eq!(names, ["c.onnx", "r.onnx", "f.onnx", "g.onnx"]);
    let found = |absent: &str| -> Vec<GraphFile> {
        names.iter().map(|n| GraphFile { path: n.clone(), present: n != absent }).collect()
    };
    assert_eq!(model().open(&found("")).unwrap().model_sr, 40000);
    assert!(matches!(
        model().open(&found("f.onnx")),
        Err(Error::ModelFiles { path, reason }) if path == "f.onnx" && reason == "not found"
    ));
}

#[test]
fn a_stream_hands_a_block_through() {
    let d = compute(&startup(60.0, 80.0, 1000.0)).unwrap();
    let mut s = Stream::new(d);
    // the first 10 ms at 16 kHz are left out, and the block is what comes last
    let resampled: Vec<u32> = (0..1280).collect();
    s.accept_resampled(&resampled);
    assert_eq!(s.resampled().len(), 18400);
    assert_eq!(s.resampled()[18400 - 961..18400 - 958], [0, 320, 321]);
    assert_eq!(s.resampled().last(), Some(&1279));
    let heard = s.pitch_input();
    assert_eq!((heard.len(), heard[1759]), (1760, 1279));

    // of twelve estimates the first three and the last one are left out
    let coarse: Vec<i64> = (1..=12).collect();
    let curve: Vec<u32> = (101..=112).collect();
    s.accept_pitch(&coarse, &curve);
    s.accept_pitch(&coarse, &curve);
    let (coarse, curve) = s.context_pitch();
    assert_eq!((coarse.len(), curve.len()), (115, 115));
    assert_eq!(coarse[100..], [0, 4, 5, 6, 7, 8, 9, 4, 5, 6, 7, 8, 9, 10, 11][..]);
    assert_eq!(curve[113..], [110, 111]);

    // each row serves two frames, and the last one a third
    let rows: Vec<u32> = (0..57 * 768).collect();
    let features = s.features(&rows);
    assert_eq!(features.len(), 115 * 768);
    assert_eq!(features[768 + 5], 5);
    assert_eq!(features[2 * 768], 768);
    assert_eq!(features[114 * 768 + 1], 56 * 768 + 1);

    let joined: Vec<u32> = (0..5000).collect();
    let block = s.emit(&joined, 10);
    assert_eq!((block.len(), block[0], block[2879]), (2880, 10, 2889));
    assert_eq!((s.overlap().len(), s.overlap()[0]), (1920, 2890));
}

#[test]
fn the_graphs_are_bound_to_the_layout() {
    let m = model();
    let d = compute(&startup(60.0, 80.0, 1000.0)).unwrap();
    let p = ModelsPlan::load(&m, &d, F0Method::Rmvpe);
    assert_eq!(p.contentvec.file, "c.onnx");
    assert_eq!(p.contentvec.inputs[0].shape, [1, 18400]);
    assert_eq!(p.contentvec.output.shape, [1, 57, 768]);
    assert_eq!(p.f0.file, "r.onnx");
    assert_eq!(p.f0.output.shape, [1, 12, 360]);
    assert_eq!(ModelsPlan::load(&m, &d, F0Method::Fcpe).f0.output.name, "f0");
    let g = p.generator;
    let dims: Vec<usize> = g.dimensions.iter().map(|d| d.size).collect();
    assert_eq!(dims, [115, 39, 4400, 11]);
    assert_eq!(g.inputs[3].shape, [1, 192, 39]);
    assert!(g.inputs[3].elem == Elem::Half);
    assert_eq!(g.output.shape, [1, 1, 4400]);
}
