//! The stages on the device.
use rvc_realtime::deiteris;
use rvc_realtime::gpu_pipeline::{
    self, expected_ports, graph_file, Graph, GpuPipeline, Output, PipelinePlan, Producer, Shape,
};
use rvc_realtime::gpu_pitch::{self, GpuFeatures, GpuPitch, Phase};
use rvc_realtime::gpu_pre::{grid, pre_plan, GpuPre};
use rvc_realtime::mel;
use rvc_realtime::plan::{buffer_bytes, checked_product, element_count, Elem, Table};
use rvc_realtime::startup::Dims;

const ABC: &str = "ba7816bf8f01cfea414140de5dae2223b00361a396177a9cb410ff61f20015ad";

/// A block of 60 ms at 48 kHz for a model at 40 kHz.
fn dims() -> Dims {
    Dims {
        block: 2880,
        crossfade: 1440,
        search: 480,
        audio: 1440,
        convert: 9600,
        features: 60,
        silence_front: 6400,
        skip: 50,
        ret: 10,
        formant_length: 10,
        scaled_window: 400,
        generated: 4000,
        trimmed: 4000,
    }
}

fn output() -> Output {
    Output {
        sample_rate: 48000,
        formant_width: 0,
        model_samples: 4000,
        output_width: 7,
        pre_sola_samples: 4800,
    }
}

fn table<'a>(tables: &'a [Table], name: &str) -> &'a [i64] {
    &tables.iter().find(|t| t.name == name).unwrap().values
}

#[test]
fn the_stages_are_bound_to_the_lengths() {
    let p = PipelinePlan::new(&dims(), 40000, &output()).unwrap();
    let size = |ds: &[rvc_realtime::plan::Dimension], name: &str| {
        ds.iter().find(|d| d.name == name).unwrap().size
    };
    assert_eq!(size(&p.prepare.dimensions, "cv_frames"), 29);
    assert_eq!(size(&p.prepare.dimensions, "raw_f0_frames"), 21);
    assert_eq!(size(&p.prepare.dimensions, "cache_frames"), 61);
    let features = table(&p.prepare.tables, "feature_index");
    assert_eq!((features[0], features[1], features[2], features[59]), (0, 0, 1, 28));
    let cache = table(&p.prepare.tables, "pitch_cache_index");
    assert_eq!((cache.len(), cache[0], cache[60]), (61, 21, 81));
    let pitch = table(&p.prepare.tables, "generator_pitch_index");
    assert_eq!((pitch[0], pitch[59]), (1, 60));
    assert_eq!(size(&p.noise.dimensions, "flow_frames"), 34);
    assert_eq!(size(&p.noise.dimensions, "sine_samples"), 4000);
    assert_eq!(p.generator.links.len(), 5);
    assert!(p.generator.links[3].producer == Producer::Noise);
    assert_eq!(p.generator.outputs[0].shape, [4000]);
    assert_eq!(size(&p.post.dimensions, "alignment_samples"), 4320);
    assert_eq!(size(&p.post.dimensions, "sola_search_samples"), 1920);
    assert_eq!(size(&p.post.dimensions, "output_phases"), 6);
    assert_eq!(size(&p.post.dimensions, "output_taps"), 19);
    let blend = table(&p.post.tables, "sola_blend_index");
    assert_eq!((blend[1439], blend[1440], blend.len()), (1439, 0, 4320));
    let state = table(&p.post.tables, "state_index");
    assert_eq!((state[0], state.len()), (2880, 1440));
}

#[test]
fn lengths_that_do_not_fit_are_refused_in_order() {
    let fault = |d: Dims, o: Output| PipelinePlan::new(&d, 40000, &o).err().unwrap();
    let short = Dims { silence_front: 9000, ..dims() };
    assert_eq!(fault(short, output()), "invalid RMVPE window length");
    let many = Dims { features: 100, ..dims() };
    assert_eq!(fault(many, output()), "ContentVec frame mismatch");
    let skipped = Dims { skip: 90, ..dims() };
    assert_eq!(fault(skipped, output()), "invalid generator flow length");
    let empty = Dims { trimmed: 0, ..dims() };
    assert_eq!(fault(empty, output()), "invalid resample dimensions");
    let none = Output { model_samples: 0, ..output() };
    assert_eq!(fault(dims(), none), "invalid resample dimensions");
    let wide = Output { output_width: 10_000_000, ..output() };
    assert_eq!(fault(dims(), wide), "resampling allocation exceeds bound");
    let cut = Output { pre_sola_samples: 4799, ..output() };
    assert_eq!(fault(dims(), cut), "post output is too short for SOLA");
    let hard = Dims { crossfade: 1, ..dims() };
    assert_eq!(fault(hard, output()), "invalid crossfade length");
}

fn graph_entry(file: &str, hash: &str, graph: Graph) -> String {
    let kind = |e: Elem| match e {
        Elem::Half => "float16",
        Elem::Single => "float32",
        Elem::Long => "int64",
        Elem::Flag => "bool",
    };
    let ports: Vec<String> = expected_ports(graph)
        .iter()
        .map(|p| format!("{{\"name\": \"{}\", \"dtype\": \"{}\"}}", p.name, kind(p.elem)))
        .collect();
    let (inputs, outputs) = ports.split_at(2);
    format!(
        "{{\"file\": \"{file}\", \"sha256\": \"{hash}\", \"inputs\": [{}], \"outputs\": [{}]}}",
        inputs.join(", "),
        outputs.join(", ")
    )
}

fn contract(graphs: &str) -> Vec<u8> {
    format!(
        "{{\"schema\": 1, \"algorithm\": \"tg-full-gpu-pipeline-v1\", \"opset\": 18, \"fixed_shape\": true, \"runtime_torch_dependency\": false, \"graphs\": {{{graphs}}}}}"
    )
    .into_bytes()
}

#[test]
fn graphs_are_held_to_the_contract() {
    let entry = graph_entry("noise.onnx", ABC, Graph::Noise);
    let good =
        gpu_pipeline::check_contract(&contract(&format!("\"noise\": {entry}"))).unwrap();
    assert_eq!(graph_file(&good, Graph::Noise).unwrap(), "noise.onnx");
    assert!(gpu_pipeline::check_graph(&good, Graph::Noise, b"abc").is_ok());
    assert_eq!(
        gpu_pipeline::check_graph(&good, Graph::Noise, b"abd").unwrap_err(),
        "full GPU graph hash mismatch: noise.onnx"
    );
    assert_eq!(graph_file(&good, Graph::Pre).unwrap_err(), "missing graph file");
    let fault = |entry: &str| {
        let c = gpu_pipeline::check_contract(&contract(&format!("\"noise\": {entry}"))).unwrap();
        gpu_pipeline::check_graph(&c, Graph::Noise, b"abc").unwrap_err()
    };
    assert_eq!(fault("{\"file\": \"noise.onnx\"}"), "missing graph hash");
    assert_eq!(
        fault(&graph_entry("other.onnx", ABC, Graph::Noise)),
        "unexpected graph file: other.onnx"
    );
    assert_eq!(
        fault(&graph_entry("noise.onnx", ABC, Graph::Post)),
        "full GPU graph port mismatch: noise.onnx"
    );
    assert_eq!(fault(&entry.replacen("name", "nome", 1)), "missing graph port name");
    assert_eq!(fault(&entry.replacen("dtype", "kind", 1)), "missing graph port dtype");
    assert_eq!(
        gpu_pipeline::check_contract(b"{}").err().unwrap(),
        "unsupported full GPU pipeline contract"
    );
    assert!(gpu_pipeline::check_contract(b"{").is_err());
    assert_eq!(expected_ports(Graph::Pre).len(), 25);
    assert_eq!(expected_ports(Graph::Post).len(), 22);
}

#[test]
fn a_pipeline_takes_blocks_until_it_fails() {
    let mut p = GpuPipeline::new(&dims(), 40000);
    assert_eq!(p.block_frames(), 2880);
    assert!(p.check().is_ok());
    assert_eq!(p.observe().err().unwrap(), "GPU observation requires a completed block");
    let block = vec![0u32; 2880];
    let (pitch, threshold) = (0.0f64.to_bits(), (-90.0f64).to_bits());
    assert!(p.process(&block, pitch, threshold).is_ok());
    assert_eq!(p.process(&block[1..], pitch, threshold).unwrap_err(), "invalid audio block");
    assert_eq!(
        p.process(&block, 49.0f64.to_bits(), threshold).unwrap_err(),
        "invalid live parameters"
    );
    assert_eq!(
        p.check_noise(&[0; 3], &[0; 3]).unwrap_err(),
        "invalid shared generator noise"
    );
    assert!(p.check_noise(&vec![0; 192 * 34], &vec![0; 4000]).is_ok());
    let one = half::f16::from_f32(0.5).to_bits();
    assert!(p.decide(one, 0.5f32.to_bits()));
    assert!(p.finish(Ok(block.clone())).is_ok());
    let seen: Vec<String> = p.observe().unwrap().into_iter().map(|o| o.name).collect();
    assert_eq!(seen.len(), 20);
    assert!(seen.contains(&"sola_offset".to_owned()));
    assert!(!p.decide(one, 0.75f32.to_bits()));
    let seen: Vec<String> = p.observe().unwrap().into_iter().map(|o| o.name).collect();
    assert_eq!(seen.len(), 17);
    assert!(!seen.contains(&"pre_sola".to_owned()));
    assert!(p.changed(Ok(())).is_ok());
    assert!(p.reset_stream_state(Ok(())).is_ok());
    assert!(p.observe().is_err());
    let bad = p.finish(Ok(vec![f32::NAN.to_bits(); 2880])).unwrap_err();
    assert_eq!(bad, "invalid converted output");
    assert_eq!(
        p.process(&block, pitch, threshold).unwrap_err(),
        "failed GPU pipeline must be recreated"
    );
    assert!(p.check().is_err());
}

#[test]
fn observed_values_have_their_shapes() {
    assert!(Shape::Scalar.dimensions(1).is_empty());
    assert_eq!(Shape::Flat.dimensions(5), [5]);
    assert_eq!(Shape::Rows(768).dimensions(1536), [1, 2, 768]);
    assert_eq!(Shape::Channels(128).dimensions(4096), [1, 128, 32]);
    assert_eq!(Shape::Frames.dimensions(60), [1, 60]);
}

#[test]
fn pitch_tables_mirror_and_stay_inside() {
    let p = GpuPitch::new(3040).unwrap();
    assert_eq!(p.frames(), (20, 32));
    let t = p.tables();
    assert_eq!(t.index.len(), 20 * 1024);
    assert_eq!((t.index[0], t.index[511], t.index[512], t.index[513]), (512, 1, 0, 1));
    assert_eq!(t.index[19 * 1024 + 511], 3039);
    assert_eq!(t.index[19 * 1024 + 512], 3038);
    assert_eq!(t.index[19 * 1024 + 1023], 2527);
    assert_eq!((t.pad_index[19], t.pad_index[20], t.pad_index[31]), (19, 18, 7));
    assert_eq!(t.trim_index, (0..20).collect::<Vec<i64>>());
    assert_eq!(GpuPitch::new(3039).err().unwrap(), "invalid RMVPE window length");
    assert_eq!(GpuPitch::new(160001).err().unwrap(), "invalid RMVPE window length");
}

#[test]
fn a_pitch_block_goes_through_in_order() {
    let mut p = GpuPitch::new(3040).unwrap();
    let audio = vec![0u16; 3040];
    assert!(p.enable_blocking_wait().is_ok());
    assert_eq!(p.enqueue().unwrap_err(), "GPU pitch enqueue requires upload");
    assert_eq!(p.upload(&audio[1..]).unwrap_err(), "invalid pitch input");
    assert!(p.upload(&audio).is_ok());
    p.advance(true, Phase::Uploaded);
    assert_eq!(p.upload(&audio).unwrap_err(), "GPU pitch block already pending");
    assert_eq!(p.finish().unwrap_err(), "GPU pitch finish requires enqueue");
    assert!(p.enqueue().is_ok());
    p.advance(true, Phase::Queued);
    assert_eq!(p.observe().unwrap_err(), "GPU pitch observation requires completed block");
    assert_eq!(p.enable_blocking_wait().unwrap_err(), "pitch block pending or failed");
    assert!(p.finish().is_ok());
    assert_eq!(p.finished(Ok(vec![7])), Ok(vec![7]));
    assert!(p.observe().is_ok());
    assert!(p.enqueue_device().is_ok());
    assert_eq!(p.enqueue_device().unwrap_err(), "GPU pitch block pending or failed");
    p.advance(true, Phase::Idle);
    let bad = p.finished(Ok(vec![f32::INFINITY.to_bits()])).unwrap_err();
    assert_eq!(bad, "nonfinite RMVPE output");
    for e in [p.upload(&audio), p.enqueue(), p.finish(), p.observe()] {
        assert_eq!(e.unwrap_err(), "GPU pitch failed; recreate it");
    }
}

#[test]
fn a_feature_block_goes_through_in_order() {
    assert_eq!(GpuFeatures::new(399).err().unwrap(), "ContentVec input too short");
    let mut f = GpuFeatures::new(9600).unwrap();
    let shapes: Vec<Vec<usize>> = f.outputs().into_iter().map(|p| p.shape).collect();
    assert_eq!(shapes, [vec![1, 29, 256], vec![1, 29, 768], vec![1, 29, 768]]);
    let audio = vec![0u16; 9600];
    assert!(f.enable_blocking_wait().is_ok());
    assert_eq!(
        f.upload(&[0x7c00; 9600]).unwrap_err(),
        "invalid ContentVec input or failed engine"
    );
    assert!(f.upload(&audio).is_ok());
    f.advance(true, Phase::Uploaded);
    assert_eq!(f.upload(&audio).unwrap_err(), "ContentVec block already pending");
    assert_eq!(f.finish().unwrap_err(), "ContentVec finish requires enqueue");
    f.advance(true, Phase::Queued);
    assert_eq!(f.enqueue().unwrap_err(), "ContentVec enqueue requires upload");
    assert_eq!(f.enqueue_device().unwrap_err(), "ContentVec block pending or failed");
    assert!(f.finished(Ok(vec![0])).is_ok());
    assert_eq!(f.finished(Ok(vec![0x7c00])).unwrap_err(), "nonfinite ContentVec output");
    assert_eq!(f.enqueue().unwrap_err(), "ContentVec failed; recreate it");
    assert_eq!(f.enable_blocking_wait().unwrap_err(), "ContentVec block pending or failed");
}

#[test]
fn pitch_assets_are_held_to_the_contract() {
    let text = format!(
        "{{\"schema\": 2, \"algorithm\": \"tg-cufft-rmvpe-v2\", \"model_export\": \"unfused-conv-bn\", \"files\": {{\"mel.onnx\": \"{ABC}\"}}}}"
    );
    let c = gpu_pitch::check_contract(text.as_bytes()).unwrap();
    assert!(gpu_pitch::check_pitch_asset(&c, "mel.onnx", b"abc").is_ok());
    assert_eq!(
        gpu_pitch::check_pitch_asset(&c, "mel.onnx", b"").unwrap_err(),
        "GPU pitch asset mismatch: mel.onnx"
    );
    assert_eq!(
        gpu_pitch::check_pitch_asset(&c, "frame.onnx", b"abc").unwrap_err(),
        "GPU pitch asset mismatch: frame.onnx"
    );
    assert_eq!(
        gpu_pitch::check_contract(b"{\"schema\": 1}").err().unwrap(),
        "requires unfused GPU pitch bundle; folded assets are not supported"
    );
}

#[test]
fn the_input_of_the_device_keeps_count() {
    let mut pre = GpuPre::new(1000, grid(48000, 19));
    let block = vec![0u32; 1000];
    assert!(pre.check(&block, 0).is_ok());
    assert_eq!(
        pre.check(&block, f32::NAN.to_bits()).unwrap_err(),
        "invalid GPU pre input or failed state"
    );
    let at = pre.enqueue().unwrap();
    assert_eq!((at.phase, at.origin, at.valid), (0, 1920, 334));
    assert_eq!(pre.commit(Ok(())), Ok(334));
    let at = pre.enqueue().unwrap();
    // 334 outputs begin at sample 1002, two behind the block
    assert_eq!((at.phase, at.origin, at.valid), (0, 1922, 333));
    assert_eq!(pre.commit(Ok(())), Ok(333));
    assert_eq!(pre.total_output(), 667);
    let buffer: Vec<u16> = (0..334).collect();
    assert_eq!(pre.audio16(&buffer), (0..333).collect::<Vec<u16>>());
    assert!(pre.check_reset().is_ok());
    pre.reset();
    assert_eq!(pre.total_output(), 0);
    assert!(pre.commit(Err("device".to_owned())).is_err());
    assert_eq!(pre.check_reset().unwrap_err(), "failed GPU pre must be recreated");
    assert!(pre.check(&block, 0).is_err());
    let mut odd = GpuPre::new(1000, grid(44100, 17));
    odd.commit(Ok(())).unwrap();
    let at = odd.enqueue().unwrap();
    // 363 outputs: two grids of 160 and 43 more; the grids begin 118 samples before the block
    assert_eq!((at.phase, at.origin, at.valid), (43, 14994 - 118, 363));
}

#[test]
fn the_input_graph_is_bound_to_the_lengths() {
    let p = pre_plan(&dims(), &grid(44100, 17));
    let sizes: Vec<usize> = p.dimensions.iter().map(|d| d.size).collect();
    assert_eq!(sizes, [2880, 14994, 160, 1045, 475, 1440, 9600, 3200]);
    let samples = table(&p.tables, "resample_sample_index");
    assert_eq!(samples.len(), 160 * 1045);
    assert_eq!((samples[0], samples[159], samples[160], samples[1045 + 159]), (0, 0, 441, 441));
    let kernels = table(&p.tables, "resample_kernel_index");
    assert_eq!((kernels[0], kernels[159], kernels[160], kernels[1045 + 159]), (0, 159, 0, 0));
    let taps = table(&p.tables, "resample_tap_index");
    assert_eq!((taps[0], taps[474]), (-17, 457));
    assert_eq!(table(&p.tables, "source_limit"), [14994 + 2880]);
    assert_eq!(table(&p.tables, "pitch_input_index")[0], 6400);
    assert_eq!(p.inputs.len() + p.outputs.len(), 25);
}

#[test]
fn the_path_with_context_starts_from_its_tables() {
    let f = deiteris::Filters {
        sample_rate: 48000,
        input_width: 19,
        input_samples: 960,
        formant_width: 0,
        model_samples: 4000,
        output_width: 7,
        output_samples: 4800,
    };
    let p = deiteris::EnginePlan::new(&dims(), 40000, &f).unwrap();
    assert_eq!(p.pre.inputs[6].shape, [21, 1024]);
    let stft = table(&p.pre.tables, "stft_indices");
    assert_eq!((stft[0], stft[1023], stft[1024], stft[21 * 1024 - 1]), (0, 1023, 160, 4223));
    assert_eq!(table(&p.pre.tables, "output_length"), [960]);
    assert_eq!(table(&p.prepare.tables, "feature_length"), [60]);
    assert_eq!(table(&p.post.tables, "search_end"), [1920]);
    assert_eq!(table(&p.post.tables, "gather_range").len(), 4320);
    let none = deiteris::Filters { model_samples: 0, ..f };
    assert_eq!(
        deiteris::EnginePlan::new(&dims(), 40000, &none).err().unwrap(),
        "invalid resample dimensions"
    );
    let hard = Dims { crossfade: 0, ..dims() };
    assert_eq!(
        deiteris::EnginePlan::new(&hard, 40000, &f).err().unwrap(),
        "invalid crossfade length"
    );
    let mut e = deiteris::Engine::new(&dims());
    assert_eq!((e.block_frames(), e.dimensions().features), (2880, 60));
    let block = vec![0u32; 2880];
    let (pitch, threshold) = (0.0f64.to_bits(), (-90.0f64).to_bits());
    assert!(e.process(&block, pitch, threshold).is_ok());
    assert_eq!(e.process(&[], pitch, threshold).unwrap_err(), "invalid audio block");
    assert_eq!(
        e.process(&block, pitch, 1.0f64.to_bits()).unwrap_err(),
        "invalid live parameters"
    );
    assert!(e.finish(Ok(block.clone())).is_ok());
    assert_eq!(e.finish(Ok(vec![])).unwrap_err(), "invalid converted output");
    assert_eq!(
        e.process(&block, pitch, threshold).unwrap_err(),
        "engine previously failed; recreate before continuing"
    );
}

#[test]
fn stages_run_only_for_blocks_that_go_through() {
    let mut e = deiteris::Engine::new(&dims());
    let block = vec![0u32; 2880];
    let (pitch, threshold) = (0.0f64.to_bits(), (-90.0f64).to_bits());
    let mut shown = 0;
    let refused = e.process_observed(&[], pitch, threshold, || {
        shown += 1;
        Ok(vec![])
    });
    assert_eq!(refused.unwrap_err(), "invalid audio block");
    let loud = 1.0f64.to_bits();
    let refused = e.process_observed(&block, pitch, loud, || {
        shown += 1;
        Ok(vec![])
    });
    assert_eq!(refused.unwrap_err(), "invalid live parameters");
    assert_eq!(shown, 0);
    let other = vec![0x3f80_0000u32; 2880];
    let output = e.process_observed(&block, pitch, threshold, || {
        shown += 1;
        Ok(other.clone())
    });
    assert_eq!((output.unwrap(), shown), (other, 1));
    let failed = e.process_observed(&block, pitch, threshold, || {
        shown += 1;
        Err("the observer failed".to_owned())
    });
    assert_eq!((failed.unwrap_err().as_str(), shown), ("the observer failed", 2));
    let later = e.process_observed(&block, pitch, threshold, || {
        shown += 1;
        Ok(vec![])
    });
    assert_eq!(later.unwrap_err(), "engine previously failed; recreate before continuing");
    assert_eq!(shown, 2);
}

#[test]
fn spectrograms_are_framed_and_padded() {
    assert_eq!(mel::layout(3039).unwrap_err(), "RMVPE needs at least 190ms");
    assert_eq!(mel::layout(3040).unwrap(), (20, 32));
    let audio: Vec<u16> = (0..3040).collect();
    let w = mel::window(&audio, 0);
    assert_eq!((w[0], w[511], w[512], w[1023]), (512, 1, 0, 511));
    let w = mel::window(&audio, 19);
    assert_eq!((w[0], w[511], w[512]), (2528, 3039, 3038));
    let mut rows = vec![0u16; 128 * 32];
    for (i, v) in rows.iter_mut().enumerate() {
        *v = (i / 32 * 100 + i % 32) as u16;
    }
    let padded = mel::pad(rows, 20, 32);
    assert_eq!((padded[19], padded[20], padded[31]), (19, 18, 7));
    assert_eq!((padded[32 + 19], padded[32 + 20]), (119, 118));
}

#[test]
fn coefficients_are_finite_singles() {
    let bytes: Vec<u8> = [1.5f32, -2.0].iter().flat_map(|v| v.to_le_bytes()).collect();
    let got = mel::coefficients(&bytes, 2, "hann.f32").unwrap();
    assert_eq!(got, [1.5f32.to_bits(), (-2.0f32).to_bits()]);
    assert_eq!(
        mel::coefficients(&bytes, 3, "hann.f32").unwrap_err(),
        "invalid coefficient length: hann.f32"
    );
    let nan = f32::NAN.to_le_bytes();
    assert_eq!(mel::coefficients(&nan, 1, "hann.f32").unwrap_err(), "nonfinite coefficients");
}

#[test]
fn buffers_are_measured() {
    assert_eq!(buffer_bytes(Elem::Half, &vec![3, 4]), Ok(24));
    assert_eq!(buffer_bytes(Elem::Long, &vec![]), Ok(8));
    assert_eq!(
        buffer_bytes(Elem::Flag, &vec![usize::MAX, 2]).unwrap_err(),
        "device buffer size overflow"
    );
    assert_eq!(checked_product(1, &vec![0, usize::MAX, 2]), Some(0));
    assert_eq!(element_count(&vec![2, 3]), Some(6));
    assert_eq!(element_count(&vec![2, -1]), None);
}
