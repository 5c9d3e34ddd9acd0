//! Which template a checkpoint fits, and what its conversion is made of.
use rvc_realtime::error::{Error, Unsupported};
use rvc_realtime::json::{parse_array, parse_document, Json};
use rvc_realtime::model::{read_safetensors, Source};
use rvc_realtime::voice_model::{
    are_values_there, cache_key, check, do_pieces_fit, files_entry, inspect, is_inspectable,
    model_with_files, place_weights, prepare_deiteris, same_config, weight_pieces, weight_values,
    Cached, Task, Template, TemplateEntry, TemplateWeight, KIND,
};

const CONFIG: &str = "[1025, 32, 192, 192, 768, 2, 6, 3, 0, \"1\", [3, 7, 11], [[1, 3, 5], [1, 3, 5], [1, 3, 5]], [10, 10, 2, 2], 512, [16, 16, 4, 4], 109, 256, 40000]";

fn source(version: &str, f0: &str, config: &str) -> Source {
    let data = [0u8; 8];
    let view =
        safetensors::tensor::TensorView::new(safetensors::Dtype::F16, vec![2, 2], &data).unwrap();
    let meta: std::collections::HashMap<String, String> =
        [("version", version), ("f0", f0), ("config", config)]
            .into_iter()
            .map(|(k, v)| (k.to_string(), v.to_string()))
            .collect();
    read_safetensors(&safetensors::serialize([("x", view)], Some(meta)).unwrap()).unwrap()
}

fn template(config: &str, key: &str, shape: &[usize]) -> Template {
    Template {
        config: parse_array(config).unwrap(),
        model: parse_document(b"{\"model_sr\": 40000}").unwrap(),
        weights_len: 12,
        weights: vec![TemplateWeight {
            key: key.to_owned(),
            offset: 2,
            shape: shape.to_vec(),
            weight_norm: None,
            rows: None,
        }],
    }
}

fn entry(name: &str, template: Template) -> TemplateEntry {
    TemplateEntry { name: name.to_owned(), template: Ok(template) }
}

#[test]
fn unsupported_models_are_told_apart() {
    let entries = || vec![entry("40k", template(CONFIG, "x", &[2, 2]))];
    let old = check(&source("v1", "1", CONFIG), entries());
    assert!(matches!(old, Err(Error::Unsupported(Unsupported::Version(v))) if v == "v1"));
    let flat = check(&source("v2", "0", CONFIG), entries());
    assert!(matches!(flat, Err(Error::Unsupported(Unsupported::NoF0))));
    let odd = check(&source("v2", "1", "[1, 2]"), entries());
    assert!(matches!(odd, Err(Error::Unsupported(Unsupported::Config))));
    let lacking = vec![entry("40k", template(CONFIG, "y", &[2, 2]))];
    let missing = check(&source("v2", "1", CONFIG), lacking);
    assert!(matches!(missing, Err(Error::Unsupported(Unsupported::Weights(k))) if k == "y"));
    let other = vec![entry("40k", template(CONFIG, "x", &[4]))];
    let shape = check(&source("v2", "1", CONFIG), other);
    assert!(matches!(shape, Err(Error::Unsupported(Unsupported::Weights(k))) if k == "x"));
    assert_eq!(check(&source("v2", "1", CONFIG), entries()).unwrap(), "40k");
}

#[test]
fn the_first_fitting_template_is_taken() {
    let entries = vec![
        entry("32k", template("[1, 2]", "x", &[2, 2])),
        entry("40k", template(CONFIG, "x", &[2, 2])),
        entry("again", template(CONFIG, "x", &[2, 2])),
    ];
    let (name, t) = inspect(&source("v2", "1", CONFIG), entries).unwrap();
    assert_eq!(name, "40k");
    assert_eq!(t.weights.len(), 1);
}

#[test]
fn numbers_compare_by_value_and_the_speaker_count_is_free() {
    let array = |s: &str| parse_array(s).unwrap();
    assert!(same_config(&array("[0, [1, 2]]"), &array("[0.0, [1.0, 2]]")));
    assert!(same_config(&array("[-3]"), &array("[-3.0]")));
    assert!(!same_config(&array("[3]"), &array("[-3]")));
    assert!(!same_config(&array("[1]"), &array("[\"1\"]")));
    assert!(!same_config(&array("[1]"), &array("[1, 2]")));
    // more than a double holds
    assert!(same_config(&array("[9007199254740993]"), &array("[9007199254740992.0]")));
    assert!(same_config(&array("[18446744073709551615]"), &array("[18446744073709551616.0]")));
    assert!(same_config(&array("[-9223372036854775808]"), &array("[-9223372036854775808.0]")));
    let speakers = CONFIG.replace("109", "1");
    assert!(same_config(&array(CONFIG), &array(&speakers)));
    let rate = CONFIG.replace("40000", "48000");
    assert!(!same_config(&array(CONFIG), &array(&rate)));
}

#[test]
fn the_key_is_a_digest_of_everything() {
    let mut t = template(CONFIG, "x", &[2, 2]);
    assert!(cache_key(&t, b"s", b"d", b"g").is_err());
    t.model = parse_document(b"{\"generator_kind\": \"deiteris-onnx-v1\"}").unwrap();
    let key = cache_key(&t, b"s", b"d", b"g").unwrap();
    assert_eq!(key, "db3288dd76b44ae0b59d36f535260b1b2697744fe014c7b26b53ca7e6645eccd");
    for other in [
        cache_key(&t, b"S", b"d", b"g").unwrap(),
        cache_key(&t, b"s", b"D", b"g").unwrap(),
        cache_key(&t, b"s", b"d", b"G").unwrap(),
    ] {
        assert_ne!(key, other);
    }
}

#[test]
fn a_whole_conversion_is_used_again() {
    let t = template(CONFIG, "x", &[2, 2]);
    let whole = || Cached {
        graph: Some(b"graph".to_vec()),
        weights_len: Some(12),
        description: Some(
            b"{\"generator_kind\": \"deiteris-onnx-v1\", \"model_sr\": 40000}".to_vec(),
        ),
    };
    let p = prepare_deiteris("key".to_owned(), &t, b"graph", &whole());
    assert_eq!(p.directory, (KIND.to_owned(), "key".to_owned()));
    assert!(!p.convert);
    let convert = |c: Cached| prepare_deiteris("key".to_owned(), &t, b"graph", &c).convert;
    assert!(convert(Cached { graph: None, ..whole() }));
    assert!(convert(Cached { graph: Some(b"other".to_vec()), ..whole() }));
    assert!(convert(Cached { weights_len: Some(11), ..whole() }));
    assert!(convert(Cached { description: None, ..whole() }));
    assert!(convert(Cached { description: Some(b"{}".to_vec()), ..whole() }));
    assert!(convert(Cached {
        description: Some(
            b"{\"generator_kind\": \"deiteris-onnx-v1\", \"model_sr\": 48000}".to_vec()
        ),
        ..whole()
    }));
}

#[test]
fn weights_stand_at_their_offsets() {
    let t = template(CONFIG, "x", &[2, 2]);
    let pieces = vec![vec![0x1234u16, 0x5678, 0x9abc, 0xdef0]];
    assert!(do_pieces_fit(&t, &pieces));
    assert_eq!(
        place_weights(&t, &pieces),
        [0, 0, 0x34, 0x12, 0x78, 0x56, 0xbc, 0x9a, 0xf0, 0xde, 0, 0]
    );
    assert!(!do_pieces_fit(&t, &vec![vec![0u16; 6]]));
    assert!(!do_pieces_fit(&t, &vec![]));
}

#[test]
fn long_integers_compare_as_the_nearest_double() {
    let same = |n: u64, d: f64| {
        same_config(&vec![Json::Natural(n)], &vec![Json::Double(d.to_bits())])
    };
    let p = 9007199254740992.0;
    assert!(same((1 << 53) + 1, p) && !same((1 << 53) + 1, p + 2.0));
    assert!(same((1 << 53) + 3, p + 4.0) && !same((1 << 53) + 3, p + 2.0));
    assert!(same((1 << 54) + 3, 2.0 * p + 4.0));
    assert!(same(u64::MAX, 18446744073709551616.0));
    assert!(same(u64::MAX - 1024, 18446744073709549568.0));
    let negative = |n: i64, d: f64| {
        same_config(&vec![Json::Negative(n)], &vec![Json::Double(d.to_bits())])
    };
    assert!(negative(i64::MIN, -9223372036854775808.0));
    assert!(negative(-(1 << 53) - 1, -p));
}

#[test]
fn every_content_changes_the_name() {
    let mut t = template(CONFIG, "x", &[2, 2]);
    t.model = parse_document(b"{\"generator_kind\": \"deiteris-onnx-v1\"}").unwrap();
    let key = |s: &[u8], d: &[u8], g: &[u8]| cache_key(&t, s, d, g).unwrap();
    let name = key(b"source", b"description", b"graph");
    assert_eq!(name, key(b"source", b"description", b"graph"));
    assert_eq!(name.len(), 64);
    for other in [
        key(b"sourcE", b"description", b"graph"),
        key(b"source", b"descriptioN", b"graph"),
        key(b"source", b"description", b"grapH"),
        key(b"sourc", b"description", b"graph"),
    ] {
        assert_ne!(name, other);
    }
}

/// A checkpoint with a tensor `x` of four halves, and of singles `g`, `m` and `v` of two,
/// three and four.
fn filled() -> Source {
    let halves: Vec<u8> =
        [1.0f32, 2.0, 3.0, 4.0].iter().flat_map(|v| half::f16::from_f32(*v).to_le_bytes()).collect();
    let singles: Vec<u8> = [5.0f32, 6.0, 7.0, 8.0].iter().flat_map(|v| v.to_le_bytes()).collect();
    let view = safetensors::tensor::TensorView::new;
    let x = view(safetensors::Dtype::F16, vec![2, 2], &halves).unwrap();
    let v = view(safetensors::Dtype::F32, vec![2, 2], &singles).unwrap();
    let g = view(safetensors::Dtype::F32, vec![2, 1], &singles[..8]).unwrap();
    let m = view(safetensors::Dtype::F32, vec![3, 1], &singles[..12]).unwrap();
    let meta: std::collections::HashMap<String, String> =
        [("version", "v2"), ("config", CONFIG)]
            .into_iter()
            .map(|(k, v)| (k.to_string(), v.to_string()))
            .collect();
    let bytes = safetensors::serialize([("x", x), ("g", g), ("m", m), ("v", v)], Some(meta)).unwrap();
    read_safetensors(&bytes).unwrap()
}

fn weight(key: &str, offset: usize, shape: &[usize]) -> TemplateWeight {
    TemplateWeight {
        key: key.to_owned(),
        offset,
        shape: shape.to_vec(),
        weight_norm: None,
        rows: None,
    }
}

#[test]
fn a_weight_is_the_first_values_of_its_tensor() {
    let source = filled();
    let bits = |xs: &[f32]| -> Vec<u32> { xs.iter().map(|x| x.to_bits()).collect() };
    assert_eq!(weight_values(&weight("x", 0, &[2, 2]), &source), bits(&[1.0, 2.0, 3.0, 4.0]));
    assert_eq!(weight_values(&weight("x", 0, &[1, 2]), &source), bits(&[1.0, 2.0]));

    let mut t = template(CONFIG, "x", &[1, 2]);
    t.weights_len = 14;
    let norm = Some(("g".to_owned(), "v".to_owned()));
    t.weights.push(TemplateWeight { weight_norm: norm, ..weight("n", 6, &[2, 2]) });
    assert!(are_values_there(&t, &source));
    let narrow = |x: u32| half::f16::from_f32(f32::from_bits(x)).to_bits();
    let without_norm = |g: Vec<u32>, v: Vec<u32>| {
        assert_eq!((g, v.clone()), (bits(&[5.0, 6.0]), bits(&[5.0, 6.0, 7.0, 8.0])));
        vec![0x1234, v.len() as u16]
    };
    let pieces = weight_pieces(&t, &source, narrow, without_norm);
    assert_eq!(pieces, [vec![0x3c00u16, 0x4000], vec![0x1234, 4]]);
    assert!(do_pieces_fit(&t, &pieces));
    let written = place_weights(&t, &pieces);
    assert_eq!(written, [0, 0, 0, 0x3c, 0, 0x40, 0x34, 0x12, 4, 0, 0, 0, 0, 0]);

    let pair = |g: &str, v: &str| Some((g.to_owned(), v.to_owned()));
    t.weights[1].weight_norm = pair("v", "g");
    assert!(!are_values_there(&t, &source));
    t.weights[1].weight_norm = pair("m", "v");
    assert!(!are_values_there(&t, &source));
    t.weights[1].weight_norm = pair("v", "v");
    assert!(are_values_there(&t, &source));

    t.weights[0].shape = vec![3, 2];
    assert!(!are_values_there(&t, &source));
    t.weights[0] = weight("y", 0, &[1]);
    assert!(!are_values_there(&t, &source));
}

#[test]
fn only_the_template_of_its_config_is_held_against_a_checkpoint() {
    let source = filled();
    let flat = |config: &str| {
        let mut t = template(config, "n", &[]);
        t.weights[0].weight_norm = Some(("g".to_owned(), "v".to_owned()));
        t
    };
    let good = || entry("40k", template(CONFIG, "x", &[2, 2]));
    let behind = vec![good(), entry("48k", flat(CONFIG))];
    assert!(is_inspectable(&source, &behind));
    assert_eq!(check(&source, behind).unwrap(), "40k");
    let other = vec![entry("32k", flat("[1]")), good()];
    assert!(is_inspectable(&source, &other));
    assert_eq!(check(&source, other).unwrap(), "40k");
    assert!(!is_inspectable(&source, &vec![entry("32k", flat(CONFIG)), good()]));
    // a weight that is missing ends the search before one that cannot be asked for
    let mut early = flat(CONFIG);
    early.weights.insert(0, weight("absent", 0, &[1]));
    let early = vec![entry("40k", early)];
    assert!(is_inspectable(&source, &early));
    assert!(matches!(
        check(&source, early),
        Err(Error::Unsupported(Unsupported::Weights(k))) if k == "absent"
    ));
}

#[test]
fn a_conversion_is_announced_once_and_published_last() {
    let t = template(CONFIG, "x", &[2, 2]);
    let nothing = Cached { graph: None, weights_len: None, description: None };
    let run = |temporary: bool, output: bool| {
        let mut task = prepare_deiteris("key".to_owned(), &t, b"graph", &nothing).task();
        let mut tasks = Vec::new();
        while task != Task::Finished {
            tasks.push(task);
            task = task.next(match task {
                Task::LookForTemporary => temporary,
                Task::LookForOutput => output,
                _ => false,
            });
        }
        tasks
    };
    assert_eq!(
        run(true, true),
        [
            Task::Announce,
            Task::Inspect,
            Task::LookForTemporary,
            Task::RemoveTemporary,
            Task::CreateTemporary,
            Task::CopyGraph,
            Task::WriteWeights,
            Task::WriteDescription,
            Task::LookForOutput,
            Task::RemoveOutput,
            Task::Publish,
        ]
    );
    let fresh = run(false, false);
    assert_eq!(fresh.len(), 9);
    assert_eq!(fresh.iter().filter(|t| **t == Task::Announce).count(), 1);
    assert!(!fresh.contains(&Task::RemoveTemporary) && !fresh.contains(&Task::RemoveOutput));
    let whole = Cached {
        graph: Some(b"graph".to_vec()),
        weights_len: Some(12),
        description: Some(
            b"{\"generator_kind\": \"deiteris-onnx-v1\", \"model_sr\": 40000}".to_vec(),
        ),
    };
    let done = prepare_deiteris("key".to_owned(), &t, b"graph", &whole);
    assert!(done.task() == Task::Finished);
}

#[test]
fn a_description_names_the_files_of_its_model() {
    let files = || files_entry("c".to_owned(), "r".to_owned(), "f".to_owned());
    let model = parse_document(b"{\"files\": 1, \"model_sr\": 40000}").unwrap();
    let v = model_with_files(model, files());
    assert!(v.has_number("model_sr", 40000));
    assert!(v.get("files").unwrap().has_text("rmvpe", "r"));
    let bare = model_with_files(parse_document(b"{\"upp\": 400}").unwrap(), files());
    assert!(bare.has_number("upp", 400));
    assert!(bare.get("files").unwrap().has_text("generator", "generator.onnx"));
    let empty = model_with_files(Json::Null, files());
    assert!(empty.get("files").unwrap().has_text("fcpe", "f"));
}

#[test]
fn the_files_of_a_model_are_an_object() {
    let v = files_entry("c.onnx".to_owned(), "r.onnx".to_owned(), "f.onnx".to_owned());
    assert!(v.has_text("contentvec", "c.onnx"));
    assert!(v.has_text("rmvpe", "r.onnx"));
    assert!(v.has_text("fcpe", "f.onnx"));
}

#[test]
fn documents_are_read_as_they_are_written() {
    let v = parse_document(b"{\"b\": [1, -2, 2.5, null, true], \"a\": \"x\"}").unwrap();
    assert!(v.has_text("a", "x"));
    match v.get("b") {
        Some(Json::Array(xs)) => {
            assert!(matches!(xs[0], Json::Natural(1)));
            assert!(matches!(xs[1], Json::Negative(-2)));
            assert!(matches!(xs[2], Json::Double(d) if f64::from_bits(d) == 2.5));
            assert!(matches!(xs[3], Json::Null));
            assert!(matches!(xs[4], Json::Bool(true)));
        }
        _ => panic!("no array"),
    }
    assert!(v.get("c").is_none());
    assert!(parse_document(b"{").is_err());
    assert!(parse_array("{}").is_err());
    let one = Json::Natural(1);
    assert!(!one.equals(&Json::Double(1.0f64.to_bits())));
    assert!(one.equals(&Json::Natural(1)));
}

#[test]
fn errors_say_what_went_wrong() {
    let e = Error::ModelFiles { path: "a".to_owned(), reason: "b".to_owned() };
    assert_eq!(e.message(), "a: b");
    assert_eq!(Error::BlockSize { expected: 480, got: 7 }.message(), "block of 7 samples, engine expects 480");
    assert_eq!(Error::Runtime("x".to_owned()).message(), "runtime: x");
    assert_eq!(
        Error::Unsupported(Unsupported::Version("v1".to_owned())).message(),
        "unsupported voice model: version v1 (only v2 is supported)"
    );
}
