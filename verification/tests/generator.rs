//! Lengths, plans and calls of the generator.
use rvc_realtime::generator::{runner_plan, valid_lengths, Generator, Inputs, Lengths};
use rvc_realtime::model::{read_safetensors, Dtype, Source, Tensor};
use rvc_realtime::native;

#[test]
fn short_context_and_invalid_lengths() {
    assert!(valid_lengths(7, 5, 2, 3));
    assert!(valid_lengths(67, 50, 17, 17));
    assert!(!valid_lengths(7, 8, 1, 1));
    assert!(!valid_lengths(7, 0, 7, 1));
    assert!(!valid_lengths(67, 50, 18, 17));
    assert!(!valid_lengths(67, 50, 17, usize::MAX));
}

fn description(rate: usize) -> Vec<u8> {
    format!(
        "{{\"generator_kind\": \"deiteris-onnx-v1\", \"model_sr\": {rate}, \"inter_channels\": 192, \"half\": true}}"
    )
    .into_bytes()
}

fn lengths(frames: usize, skip: usize, formant: usize) -> Lengths {
    Lengths { frames, skip, ret: frames - skip, formant }
}

#[test]
fn models_that_do_not_match_are_refused() {
    let fault = |text: &[u8], rate: usize, present: bool| {
        Generator::new(text, rate, present).err().unwrap()
    };
    assert!(Generator::new(&description(40000), 40000, true).unwrap().graph());
    assert!(!Generator::new_with_graph(&description(40000), 40000, true, false).unwrap().graph());
    assert_eq!(fault(b"{}", 40000, true), "requires converted deiteris-onnx-v1 model");
    assert_eq!(fault(&description(40000), 48000, true), "incompatible generator model");
    assert_eq!(fault(&description(44100), 44100, true), "incompatible generator model");
    assert_eq!(fault(&description(40000), 40000, false), "missing generator graph");
    assert!(!fault(b"{", 40000, true).is_empty());
}

#[test]
fn a_graph_is_bound_to_its_lengths() {
    let p = runner_plan(&lengths(67, 50, 20), 40000).unwrap();
    let dims: Vec<(String, usize)> = p.dimensions.into_iter().map(|d| (d.name, d.size)).collect();
    let named = |n: &str, s: usize| (n.to_owned(), s);
    assert_eq!(
        dims,
        [
            named("p_len", 67),
            named("flow_len", 41),
            named("sine_len", 6800),
            named("ret2_len", 20),
            named("dec_head", 24),
        ]
    );
    assert_eq!(p.output_len, 8000);
    assert_eq!(p.inputs[0].shape, [1, 67, 768]);
    assert_eq!(p.inputs[3].shape, [1, 192, 41]);
    assert_eq!(p.inputs[6].shape, [1, 24]);
    let short = runner_plan(&lengths(7, 5, 3), 32000).unwrap();
    assert_eq!(short.inputs[6].shape, [1, 5]);
    assert_eq!(
        runner_plan(&lengths(7, 0, 3), 32000).err().unwrap(),
        "invalid generator dimensions"
    );
}

#[test]
fn a_call_goes_through_once_everything_fits() {
    let mut g = Generator::new(&description(40000), 40000, true).unwrap();
    let l = lengths(7, 5, 3);
    let (latent, sine) = g.noise_counts(&l).unwrap();
    assert_eq!((latent, sine), (192 * 7, 800));
    assert_eq!(g.noise_counts(&lengths(7, 0, 3)).err().unwrap(), "invalid generator lengths");
    let (features, pitchf) = (vec![0u16; 7 * 768], vec![0u16; 7]);
    let (rnd, sine_noise) = (vec![0u16; latent], vec![0u16; sine]);
    let pitch = [1i64; 7];
    let inputs = |features, pitch, rnd| Inputs {
        features,
        pitch,
        pitchf: &pitchf,
        rnd,
        sine_noise: &sine_noise,
    };
    let good = inputs(&features, &pitch, &rnd);
    assert_eq!(g.infer_with_noise(&good, 5, 2, 3), Ok(true));
    assert_eq!(g.infer_with_noise(&good, 5, 3, 3).unwrap_err(), "invalid lengths");
    assert_eq!(
        g.infer_with_noise(&inputs(&features[1..], &pitch, &rnd), 5, 2, 3).unwrap_err(),
        "invalid generator inputs"
    );
    assert_eq!(
        g.infer_with_noise(&inputs(&features, &[256; 7], &rnd), 5, 2, 3).unwrap_err(),
        "invalid generator values"
    );
    let nan = vec![0x7e00u16; latent];
    assert_eq!(
        g.infer_with_noise(&inputs(&features, &pitch, &nan), 5, 2, 3).unwrap_err(),
        "invalid generator values"
    );
    g.open(&l);
    assert_eq!(g.infer_with_noise(&good, 5, 2, 3), Ok(false));
    assert_eq!(
        g.infer_with_noise(&good, 5, 2, 4).unwrap_err(),
        "startup dimensions changed; recreate generator"
    );
    assert_eq!(g.finish(Ok(vec![1, 2])), Ok(vec![1, 2]));
    let bad = g.finish(Ok(vec![f32::NAN.to_bits()])).unwrap_err();
    assert_eq!(bad, "nonfinite generator output");
    assert_eq!(
        g.infer_with_noise(&good, 5, 2, 3).unwrap_err(),
        "generator previously failed; recreate it"
    );
}

fn tensor(shape: &[usize], bytes: usize) -> Tensor {
    Tensor { dtype: Dtype::F16, shape: shape.to_vec(), data: vec![0; bytes] }
}

#[test]
fn native_weights_are_handed_over_whole() {
    let w = native::weight(&tensor(&[2, 3], 12)).unwrap();
    assert_eq!((w.kind, w.dims), (0, vec![2, 3]));
    assert_eq!(native::weight(&tensor(&[2, 0], 0)).err().unwrap(), "zero dimension");
    assert_eq!(native::weight(&tensor(&[2, 3], 11)).err().unwrap(), "invalid weight byte count");
    assert_eq!(
        native::weight(&tensor(&[usize::MAX, 3], 0)).err().unwrap(),
        "weight size overflow"
    );
}

fn source(config: &str, meta: &[(&str, &str)]) -> Source {
    let data = [0u8; 2];
    let view =
        safetensors::tensor::TensorView::new(safetensors::Dtype::F16, vec![1], &data).unwrap();
    let mut all: std::collections::HashMap<String, String> =
        meta.iter().map(|(k, v)| (k.to_string(), v.to_string())).collect();
    all.insert("config".to_owned(), config.to_owned());
    read_safetensors(&safetensors::serialize([("x", view)], Some(all)).unwrap()).unwrap()
}

#[test]
fn native_checkpoints_have_one_architecture_for_each_rate() {
    let config = "[1025, 32, 192, 192, 768, 2, 6, 3, 0, \"1\", [3, 7, 11], [[1, 3, 5], [1, 3, 5], [1, 3, 5]], [10, 10, 2, 2], 512, [16, 16, 4, 4], 109, 256, 40000]";
    let v2 = [("version", "v2")];
    assert!(native::check_source(&source(config, &v2), 40000).is_ok());
    let dropout = config.replace("3, 0, \"1\"", "3, 0.0, \"1\"");
    assert!(native::check_source(&source(&dropout, &v2), 40000).is_ok());
    let wide = config
        .replace("[10, 10, 2, 2]", "[12, 10, 2, 2]")
        .replace("[16, 16, 4, 4]", "[24, 20, 4, 4]")
        .replace("40000", "48000");
    assert!(native::Generator::new(&source(&wide, &v2), 48000).is_ok());
    let narrow = config
        .replace("1025", "513")
        .replace("[10, 10, 2, 2]", "[10, 8, 2, 2]")
        .replace("[16, 16, 4, 4]", "[20, 16, 4, 4]")
        .replace("40000", "32000");
    assert!(native::check_source(&source(&narrow, &v2), 32000).is_ok());
    let fault = |config: &str, meta: &[(&str, &str)], rate: usize| {
        native::check_source(&source(config, meta), rate).err().unwrap()
    };
    assert_eq!(fault(config, &[], 40000), "requires RVC v2 F0");
    assert_eq!(fault(config, &[("version", "v2"), ("f0", "0")], 40000), "requires RVC v2 F0");
    assert_eq!(
        fault(config, &[("version", "v2"), ("vocoder", "other")], 40000),
        "unsupported embedder/vocoder"
    );
    assert_eq!(fault("[]", &v2, 40000), "missing model rate");
    assert_eq!(fault("[1.5]", &v2, 40000), "missing model rate");
    assert_eq!(fault(config, &v2, 48000), "model/template rate mismatch");
    assert_eq!(fault("[44100]", &v2, 44100), "unsupported model rate");
    let odd = config.replace("512", "513");
    assert_eq!(fault(&odd, &v2, 40000), "unsupported generator architecture");
    let g = native::Generator::new(&source(config, &v2), 40000).unwrap();
    assert_eq!(g.infer(&[0; 768], &[1], &[0], 0, 1, 2), Ok(800));
    assert_eq!(g.infer(&[0; 767], &[1], &[0], 0, 1, 2).unwrap_err(), "invalid generator inputs");
    assert_eq!(g.infer(&[0; 768], &[300], &[0], 0, 1, 2).unwrap_err(), "invalid generator values");
}

#[test]
fn one_native_generator_is_alive_at_a_time() {
    let mut e = native::Exclusive::new();
    assert!(e.acquire().is_ok());
    assert_eq!(
        e.acquire().unwrap_err(),
        "only one native generator may be alive; stop/drop it before restarting"
    );
    e.release();
    assert!(e.acquire().is_ok());
    assert!(native::Generator::restore_rng(&[1], &[1]).is_ok());
    assert_eq!(native::Generator::restore_rng(&[], &[1]).unwrap_err(), "empty RNG state");
}
