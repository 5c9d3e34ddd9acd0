//! Reading checkpoints: pickles, archives, safetensors.
use rvc_realtime::json::Json;
use rvc_realtime::model::{fault_at, read_pth, read_safetensors, Dtype, Source};
use rvc_realtime::pickle::{load, V};
use std::io::Write;

fn text(s: &str) -> Vec<u8> {
    let mut out = vec![b'X'];
    out.extend((s.len() as u32).to_le_bytes());
    out.extend(s.as_bytes());
    out
}

fn cat(parts: &[&[u8]]) -> Vec<u8> {
    parts.concat()
}

/// A tensor of four halves in a storage.
fn tensor(storage: &str, key: &str, offset: u8, stride: (u8, u8)) -> Vec<u8> {
    cat(&[
        b"ctorch._utils\n_rebuild_tensor_v2\n((",
        &text("storage"),
        b"ctorch\n",
        storage.as_bytes(),
        b"\n",
        &text(key),
        &text("cpu"),
        b"K\x04tQK",
        &[offset],
        b"K\x02K\x02\x86K",
        &[stride.0],
        b"K",
        &[stride.1],
        b"\x86\x89ccollections\nOrderedDict\n)RtR",
    ])
}

fn checkpoint(weight: &[u8]) -> Vec<u8> {
    cat(&[
        b"\x80\x02}q\x00(",
        &text("weight"),
        b"}(",
        &text("a"),
        weight,
        b"u",
        &text("config"),
        b"](K\x01",
        &text("x"),
        b"G\x3f\xe0\x00\x00\x00\x00\x00\x00e",
        &text("version"),
        &text("v2"),
        &text("f0"),
        b"K\x01u.",
    ])
}

fn archive(files: &[(&str, &[u8])]) -> Vec<u8> {
    let mut zip = zip::ZipWriter::new(std::io::Cursor::new(Vec::new()));
    let options = zip::write::SimpleFileOptions::default()
        .compression_method(zip::CompressionMethod::Stored);
    for (name, data) in files {
        zip.start_file(*name, options).unwrap();
        zip.write_all(data).unwrap();
    }
    zip.finish().unwrap().into_inner()
}

fn reason(r: Result<Source, String>) -> String {
    match r {
        Ok(_) => "read".to_owned(),
        Err(e) => e,
    }
}

#[test]
fn an_archive_gives_its_tensors() {
    let storage = [1u8, 2, 3, 4, 5, 6, 7, 8, 9, 10];
    let pkl = checkpoint(&tensor("HalfStorage", "0", 1, (2, 1)));
    let bytes = archive(&[("model/data.pkl", &pkl), ("model/data/0", &storage)]);
    for source in [read_pth(&bytes).unwrap(), Source::read("a voice", &bytes).unwrap()] {
        assert_eq!(source.version.as_deref(), Some("v2"));
        assert!(source.f0);
        assert!(source.embedder.is_none());
        assert!(matches!(source.config[0], Json::Natural(1)));
        assert!(matches!(&source.config[1], Json::Text(s) if s == "x"));
        assert!(matches!(source.config[2], Json::Double(d) if f64::from_bits(d) == 0.5));
        let t = source.tensors.get("a").unwrap();
        assert!(matches!(t.dtype, Dtype::F16));
        assert_eq!(t.shape, [2, 2]);
        assert_eq!(t.data, [3, 4, 5, 6, 7, 8, 9, 10]);
        assert_eq!(source.names, ["a"]);
    }
}

#[test]
fn faults_of_an_archive_say_why() {
    let storage = [0u8; 8];
    let read = |weight: &[u8]| {
        let pkl = checkpoint(weight);
        reason(read_pth(&archive(&[("m/data.pkl", &pkl), ("m/data/0", &storage)])))
    };
    assert_eq!(read(&tensor("HalfStorage", "0", 0, (2, 1))), "read");
    assert_eq!(
        read(&tensor("HalfStorage", "0", 1, (2, 1))),
        "tensor a is outside its storage"
    );
    assert_eq!(
        read(&tensor("DoubleStorage", "0", 0, (2, 1))),
        "tensor a has storage DoubleStorage"
    );
    assert_eq!(read(&tensor("HalfStorage", "0", 0, (1, 2))), "tensor a is not contiguous");
    assert_ne!(read(&tensor("HalfStorage", "1", 0, (2, 1))), "read");
    assert_eq!(
        reason(read_pth(&archive(&[("m/other", &storage)]))),
        "no data.pkl in the archive"
    );
    let empty = b"\x80\x02}.";
    assert_eq!(reason(read_pth(&archive(&[("data.pkl", empty)]))), "no weight dict");
    let bare = cat(&[b"\x80\x02}(", &text("weight"), b"}u."]);
    assert_eq!(reason(read_pth(&archive(&[("data.pkl", &bare)]))), "no config");
    let odd = cat(&[b"\x80\x02}(", &text("weight"), b"}", &text("config"), b"K\x01u."]);
    assert_eq!(reason(read_pth(&archive(&[("data.pkl", &odd)]))), "config is not a list");
    assert_ne!(reason(read_pth(b"PK but no archive")), "read");
}

#[test]
fn halves_and_singles_widen() {
    let t = rvc_realtime::model::Tensor {
        dtype: Dtype::F16,
        shape: vec![4],
        data: [0x3c00u16, 0xc000, 0x0001, 0x7c00].iter().flat_map(|v| v.to_le_bytes()).collect(),
    };
    let got: Vec<f32> = t.to_f32().into_iter().map(f32::from_bits).collect();
    assert_eq!(got, [1.0, -2.0, 5.9604645e-8, f32::INFINITY]);
    let t = rvc_realtime::model::Tensor {
        dtype: Dtype::F32,
        shape: vec![1],
        data: 1.25f32.to_le_bytes().to_vec(),
    };
    assert_eq!(t.to_f32(), [1.25f32.to_bits()]);
}

#[test]
fn a_pickle_is_data() {
    // a call of anything else than a tensor stays a value, and what follows the end is not looked at
    let v = load(b"cos\nsystem\n(X\x02\x00\x00\x00lstR.ignored").unwrap();
    assert!(!matches!(v, V::Int(_)));
    assert!(matches!(load(b"K\x07."), Ok(V::Int(7))));
    assert!(matches!(load(b"J\xff\xff\xff\xff."), Ok(V::Int(-1))));
    assert!(matches!(load(b"\x88."), Ok(V::Bool(true))));
    assert!(matches!(load(b"N."), Ok(V::Nil)));
}

#[test]
fn a_broken_pickle_is_refused() {
    for bytes in [&b""[..], b"K", b"X\x05\x00\x00\x00ab", b"(K\x01"] {
        assert_eq!(load(bytes).err().unwrap(), "truncated pickle");
    }
    assert!(load(b"\x01.").is_err());
}

#[test]
fn a_list_becomes_json() {
    let v = load(b"](K\x01J\xfe\xff\xff\xff\x89Ne.").unwrap();
    match v.to_json() {
        Json::Array(xs) => {
            assert!(matches!(xs[0], Json::Natural(1)));
            assert!(matches!(xs[1], Json::Negative(-2)));
            assert!(matches!(xs[2], Json::Bool(false)));
            assert!(matches!(xs[3], Json::Null));
        }
        _ => panic!("no array"),
    }
}

fn safetensors(meta: &[(&str, &str)], dtype: safetensors::Dtype) -> Vec<u8> {
    let data = [1u8, 2, 3, 4];
    let view = safetensors::tensor::TensorView::new(dtype, vec![1], &data).unwrap();
    let meta: std::collections::HashMap<String, String> =
        meta.iter().map(|(k, v)| (k.to_string(), v.to_string())).collect();
    safetensors::serialize([("x", view)], Some(meta)).unwrap()
}

#[test]
fn safetensors_give_their_tensors_and_metadata() {
    let meta = [("version", "v1"), ("f0", "False"), ("config", "[1, 2.5]"), ("vocoder", "other")];
    let bytes = safetensors(&meta, safetensors::Dtype::F32);
    for source in [read_safetensors(&bytes).unwrap(), Source::read("a voice", &bytes).unwrap()] {
        assert_eq!(source.version.as_deref(), Some("v1"));
        assert!(!source.f0);
        assert_eq!(source.vocoder.as_deref(), Some("other"));
        assert!(matches!(source.config[0], Json::Natural(1)));
        assert!(matches!(source.config[1], Json::Double(d) if f64::from_bits(d) == 2.5));
        let t = source.tensors.get("x").unwrap();
        assert!(matches!(t.dtype, Dtype::F32));
        assert_eq!(t.data, [1, 2, 3, 4]);
        assert_eq!(source.names, ["x"]);
    }
}

#[test]
fn a_fault_starts_with_the_path() {
    let fault = |bytes: &[u8]| Source::read("voices/a.pth", bytes).err().unwrap();
    let archive = archive(&[("m/other", &[0u8; 8])]);
    assert_eq!(fault(&archive), "voices/a.pth: no data.pkl in the archive");
    let stored = safetensors(&[("version", "v2")], safetensors::Dtype::F32);
    assert_eq!(fault(&stored), "voices/a.pth: no config in the metadata");
    assert_eq!(fault_at("a", "not there"), "a: not there");
    assert_eq!(Source::read_bytes(&stored).err().unwrap(), "no config in the metadata");
}

#[test]
fn faults_of_safetensors_say_why() {
    let bytes = safetensors(&[("version", "v2")], safetensors::Dtype::F32);
    assert_eq!(reason(read_safetensors(&bytes)), "no config in the metadata");
    let bytes = safetensors(&[("config", "[1]")], safetensors::Dtype::I32);
    assert_eq!(reason(read_safetensors(&bytes)), "tensor x has dtype I32");
    let bytes = safetensors(&[("config", "[1")], safetensors::Dtype::F32);
    assert!(reason(read_safetensors(&bytes)).starts_with("config: "));
    assert_ne!(reason(read_safetensors(b"neither")), "read");
}

/// A file with this header and this data behind it.
fn headed(header: &[u8], data: &[u8]) -> Vec<u8> {
    let mut bytes = (header.len() as u64).to_le_bytes().to_vec();
    bytes.extend_from_slice(header);
    bytes.extend_from_slice(data);
    bytes
}

#[test]
fn headers_that_claim_too_much_are_refused() {
    let size: u64 = (1 << 61) - 1;
    let object = |i: u64| {
        let (from, to) = (i * size, (i + 1) * size);
        format!(
            "\"t{i}\":{{\"dtype\":\"U8\",\"shape\":[{size}],\"data_offsets\":[{from},{to}]}}"
        )
    };
    let list = |i: u64| {
        let (from, to) = (i * size, (i + 1) * size);
        format!("\"t{i}\":[\"U8\",[{size}],[{from},{to}]]")
    };
    let header = |entry: &dyn Fn(u64) -> String, n: u64| {
        let entries: Vec<String> = (0..n).map(entry).collect();
        format!("{{{}}}", entries.join(","))
    };
    for header in [header(&object, 8), header(&list, 8), header(&object, 7), header(&list, 7)] {
        let bytes = headed(header.as_bytes(), &[]);
        let uncovered = "incomplete metadata, file not fully covered";
        assert_eq!(reason(read_safetensors(&bytes)), uncovered);
        assert_eq!(Source::read("v", &bytes).err().unwrap(), format!("v: {uncovered}"));
    }
}

#[test]
fn entries_of_a_header_may_be_lists() {
    let header = "{\"__metadata__\":{\"config\":\"[1]\"},\"x\":[\"F32\",[1],[0,4]]}";
    let source = read_safetensors(&headed(header.as_bytes(), &[1, 2, 3, 4])).unwrap();
    assert_eq!(source.tensors.get("x").unwrap().data, [1, 2, 3, 4]);
    assert!(read_safetensors(&headed(header.as_bytes(), &[1, 2, 3])).is_err());
}

#[test]
fn headers_that_cannot_be_read_say_why() {
    assert_eq!(reason(read_safetensors(b"neither")), "header too small");
    assert_eq!(reason(read_safetensors(&[9, 0, 0, 0, 0, 0, 0, 0, 0])), "invalid header length");
    let broken = reason(read_safetensors(&headed(b"{", &[])));
    assert!(broken.starts_with("invalid JSON in header: EOF while parsing"), "{broken}");
    let list = reason(read_safetensors(&headed(b"[]", &[])));
    assert!(list.starts_with("invalid JSON in header: invalid type"), "{list}");
    let foreign = reason(read_safetensors(&headed(b"{\"\xff\":1}", &[])));
    assert!(foreign.starts_with("invalid UTF-8 in header: "), "{foreign}");
}
