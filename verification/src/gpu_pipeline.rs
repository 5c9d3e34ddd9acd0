//! The whole conversion on the device: what its contract has to say, what its graphs are bound to, and
//! which blocks go through.
use crate::generator;
use crate::generator::{are_finite_singles, DECODER_HEAD};
use crate::gpu_pitch;
use crate::gpu_pitch::{GpuFeatures, GpuPitch};
use crate::gpu_pre;
use crate::json::{parse_document, Json, JsonValue};
use crate::plan::{
    put_dimension, put_port, put_table, range, shape0, shape1, shape2, shape3, Dimension, Elem, Port,
    PortValue, Table,
};
use crate::startup::{Dims, ResampleInputs};
use crate::text::{hex, join, join3, same};
use crate::tg;
use crate::tg::{check_live, copied, is_good_output, is_loud, zero_singles};
use crate::voice_model::digest;
use crate::{json, plan, startup, text, voice_model};
use vstd::prelude::*;
use vstd::string::*;

verus! {

broadcast use vstd::string::group_string_axioms;

/// The graphs that the contract speaks of.
#[derive(Clone, Copy, PartialEq, Eq, Structural)]
pub enum Graph {
    Pre,
    Prepare,
    Post,
    Noise,
}

/// The name of a graph.
pub open spec fn graph_name(g: Graph) -> Seq<char> {
    match g {
        Graph::Pre => "pre"@,
        Graph::Prepare => "prepare"@,
        Graph::Post => "post"@,
        Graph::Noise => "noise"@,
    }
}

/// The name that a contract has for what a port holds.
pub open spec fn elem_name(e: Elem) -> Seq<char> {
    match e {
        Elem::Half => "float16"@,
        Elem::Single => "float32"@,
        Elem::Long => "int64"@,
        Elem::Flag => "bool"@,
    }
}

/// A port as it is compared: its name and what it holds.
pub open spec fn label(p: (Seq<char>, Elem)) -> Seq<char> {
    p.0 + ":"@ + elem_name(p.1)
}

/// The ports that a graph has to have: the inputs, and behind them the outputs.
pub open spec fn graph_ports(g: Graph) -> Seq<(Seq<char>, Elem)> {
    match g {
        Graph::Pre => pre_ports(),
        Graph::Prepare => prepare_ports(),
        Graph::Post => post_ports(),
        Graph::Noise => noise_ports(),
    }
}

pub open spec fn pre_ports() -> Seq<(Seq<char>, Elem)> {
    seq![
        ("block"@, Elem::Single),
        ("source_history"@, Elem::Single),
        ("audio_buffer"@, Elem::Half),
        ("context_buffer"@, Elem::Half),
        ("resample_kernel"@, Elem::Single),
        ("resample_sample_index"@, Elem::Long),
        ("resample_tap_index"@, Elem::Long),
        ("resample_kernel_index"@, Elem::Long),
        ("phase"@, Elem::Long),
        ("origin"@, Elem::Long),
        ("valid"@, Elem::Long),
        ("source_limit"@, Elem::Long),
        ("source_history_commit_index"@, Elem::Long),
        ("audio_append_index"@, Elem::Long),
        ("context_append_index"@, Elem::Long),
        ("pitch_input_index"@, Elem::Long),
        ("sensitivity"@, Elem::Single),
        ("audio16"@, Elem::Half),
        ("next_source_history"@, Elem::Single),
        ("next_audio_buffer"@, Elem::Half),
        ("next_context_buffer"@, Elem::Half),
        ("cv_audio"@, Elem::Half),
        ("pitch_audio"@, Elem::Half),
        ("volume"@, Elem::Half),
        ("active"@, Elem::Flag),
    ]
}

pub open spec fn prepare_ports() -> Seq<(Seq<char>, Elem)> {
    seq![
        ("cv_features"@, Elem::Half),
        ("raw_f0"@, Elem::Single),
        ("pitch_buffer"@, Elem::Long),
        ("pitchf_buffer"@, Elem::Half),
        ("pitch_factor"@, Elem::Single),
        ("formant_ratio"@, Elem::Single),
        ("feature_index"@, Elem::Long),
        ("pitch_cache_index"@, Elem::Long),
        ("generator_pitch_index"@, Elem::Long),
        ("features"@, Elem::Half),
        ("pitch"@, Elem::Long),
        ("pitchf"@, Elem::Half),
        ("next_pitch_buffer"@, Elem::Long),
        ("next_pitchf_buffer"@, Elem::Half),
    ]
}

pub open spec fn post_ports() -> Seq<(Seq<char>, Elem)> {
    seq![
        ("generated"@, Elem::Single),
        ("volume"@, Elem::Half),
        ("sola_buffer"@, Elem::Single),
        ("formant_kernel"@, Elem::Single),
        ("formant_indices"@, Elem::Long),
        ("formant_output_index"@, Elem::Long),
        ("output_kernel"@, Elem::Single),
        ("output_indices"@, Elem::Long),
        ("output_output_index"@, Elem::Long),
        ("sola_search_index"@, Elem::Long),
        ("sola_ones"@, Elem::Single),
        ("alignment_index"@, Elem::Long),
        ("sola_blend_index"@, Elem::Long),
        ("fade_in"@, Elem::Single),
        ("fade_out"@, Elem::Single),
        ("output_index"@, Elem::Long),
        ("state_index"@, Elem::Long),
        ("audio_model"@, Elem::Single),
        ("pre_sola"@, Elem::Single),
        ("sola_offset"@, Elem::Long),
        ("output"@, Elem::Single),
        ("next_sola_buffer"@, Elem::Single),
    ]
}

pub open spec fn noise_ports() -> Seq<(Seq<char>, Elem)> {
    seq![
        ("rnd_f32"@, Elem::Single),
        ("sine_noise_f32"@, Elem::Single),
        ("rnd"@, Elem::Half),
        ("sine_noise"@, Elem::Half),
    ]
}

/// The labels of the ports that a graph has to have.
pub open spec fn graph_labels(g: Graph) -> Seq<Seq<char>> {
    labels(graph_ports(g))
}

pub open spec fn labels(ports: Seq<(Seq<char>, Elem)>) -> Seq<Seq<char>> {
    Seq::new(ports.len(), |i: int| label(ports[i]))
}

/// A port that a graph has to have.
pub struct Signature {
    pub name: String,
    pub elem: Elem,
}

impl View for Signature {
    type V = (Seq<char>, Elem);

    open spec fn view(&self) -> (Seq<char>, Elem) {
        (self.name@, self.elem)
    }
}

pub open spec fn signatures(xs: Seq<Signature>) -> Seq<(Seq<char>, Elem)> {
    Seq::new(xs.len(), |i: int| xs[i]@)
}

fn put(out: &mut Vec<Signature>, name: &str, elem: Elem)
    ensures
        signatures(final(out)@) == signatures(old(out)@).push((name@, elem)),
{
    out.push(Signature { name: name.to_owned(), elem });
    assert(signatures(out@) =~= signatures(old(out)@).push((name@, elem)));
}

/// The ports that a graph has to have.
pub fn expected_ports(g: Graph) -> (r: Vec<Signature>)
    ensures
        signatures(r@) == graph_ports(g),
{
    match g {
        Graph::Pre => pre_signatures(),
        Graph::Prepare => prepare_signatures(),
        Graph::Post => post_signatures(),
        Graph::Noise => noise_signatures(),
    }
}

fn pre_signatures() -> (r: Vec<Signature>)
    ensures
        signatures(r@) == pre_ports(),
{
    let mut out: Vec<Signature> = Vec::new();
    assert(signatures(out@) =~= seq![]);
    put(&mut out, "block", Elem::Single);
    put(&mut out, "source_history", Elem::Single);
    put(&mut out, "audio_buffer", Elem::Half);
    put(&mut out, "context_buffer", Elem::Half);
    put(&mut out, "resample_kernel", Elem::Single);
    put(&mut out, "resample_sample_index", Elem::Long);
    put(&mut out, "resample_tap_index", Elem::Long);
    put(&mut out, "resample_kernel_index", Elem::Long);
    put(&mut out, "phase", Elem::Long);
    put(&mut out, "origin", Elem::Long);
    put(&mut out, "valid", Elem::Long);
    put(&mut out, "source_limit", Elem::Long);
    put(&mut out, "source_history_commit_index", Elem::Long);
    put(&mut out, "audio_append_index", Elem::Long);
    put(&mut out, "context_append_index", Elem::Long);
    put(&mut out, "pitch_input_index", Elem::Long);
    put(&mut out, "sensitivity", Elem::Single);
    put(&mut out, "audio16", Elem::Half);
    put(&mut out, "next_source_history", Elem::Single);
    put(&mut out, "next_audio_buffer", Elem::Half);
    put(&mut out, "next_context_buffer", Elem::Half);
    put(&mut out, "cv_audio", Elem::Half);
    put(&mut out, "pitch_audio", Elem::Half);
    put(&mut out, "volume", Elem::Half);
    put(&mut out, "active", Elem::Flag);
    out
}

fn prepare_signatures() -> (r: Vec<Signature>)
    ensures
        signatures(r@) == prepare_ports(),
{
    let mut out: Vec<Signature> = Vec::new();
    assert(signatures(out@) =~= seq![]);
    put(&mut out, "cv_features", Elem::Half);
    put(&mut out, "raw_f0", Elem::Single);
    put(&mut out, "pitch_buffer", Elem::Long);
    put(&mut out, "pitchf_buffer", Elem::Half);
    put(&mut out, "pitch_factor", Elem::Single);
    put(&mut out, "formant_ratio", Elem::Single);
    put(&mut out, "feature_index", Elem::Long);
    put(&mut out, "pitch_cache_index", Elem::Long);
    put(&mut out, "generator_pitch_index", Elem::Long);
    put(&mut out, "features", Elem::Half);
    put(&mut out, "pitch", Elem::Long);
    put(&mut out, "pitchf", Elem::Half);
    put(&mut out, "next_pitch_buffer", Elem::Long);
    put(&mut out, "next_pitchf_buffer", Elem::Half);
    out
}

fn post_signatures() -> (r: Vec<Signature>)
    ensures
        signatures(r@) == post_ports(),
{
    let mut out: Vec<Signature> = Vec::new();
    assert(signatures(out@) =~= seq![]);
    put(&mut out, "generated", Elem::Single);
    put(&mut out, "volume", Elem::Half);
    put(&mut out, "sola_buffer", Elem::Single);
    put(&mut out, "formant_kernel", Elem::Single);
    put(&mut out, "formant_indices", Elem::Long);
    put(&mut out, "formant_output_index", Elem::Long);
    put(&mut out, "output_kernel", Elem::Single);
    put(&mut out, "output_indices", Elem::Long);
    put(&mut out, "output_output_index", Elem::Long);
    put(&mut out, "sola_search_index", Elem::Long);
    put(&mut out, "sola_ones", Elem::Single);
    put(&mut out, "alignment_index", Elem::Long);
    put(&mut out, "sola_blend_index", Elem::Long);
    put(&mut out, "fade_in", Elem::Single);
    put(&mut out, "fade_out", Elem::Single);
    put(&mut out, "output_index", Elem::Long);
    put(&mut out, "state_index", Elem::Long);
    put(&mut out, "audio_model", Elem::Single);
    put(&mut out, "pre_sola", Elem::Single);
    put(&mut out, "sola_offset", Elem::Long);
    put(&mut out, "output", Elem::Single);
    put(&mut out, "next_sola_buffer", Elem::Single);
    out
}

fn noise_signatures() -> (r: Vec<Signature>)
    ensures
        signatures(r@) == noise_ports(),
{
    let mut out: Vec<Signature> = Vec::new();
    assert(signatures(out@) =~= seq![]);
    put(&mut out, "rnd_f32", Elem::Single);
    put(&mut out, "sine_noise_f32", Elem::Single);
    put(&mut out, "rnd", Elem::Half);
    put(&mut out, "sine_noise", Elem::Half);
    out
}

fn label_of(s: &Signature) -> (r: String)
    ensures
        r@ == label(s@),
{
    let kind: &str = match s.elem {
        Elem::Half => "float16",
        Elem::Single => "float32",
        Elem::Long => "int64",
        Elem::Flag => "bool",
    };
    join3(s.name.as_str(), ":", kind)
}

/// Whether a contract is one of this path.
pub open spec fn contract_supported(c: JsonValue) -> bool {
    &&& json::member(c, "schema"@) == JsonValue::Natural(1)
    &&& json::member(c, "algorithm"@) == JsonValue::Text("tg-full-gpu-pipeline-v1"@)
    &&& json::member(c, "opset"@) == JsonValue::Natural(18)
    &&& json::member(c, "fixed_shape"@) == JsonValue::Bool(true)
    &&& json::member(c, "runtime_torch_dependency"@) == JsonValue::Bool(false)
}

/// Reads and checks the contract of the pipeline.
pub fn check_contract(bytes: &[u8]) -> (r: Result<Json, String>)
    ensures
        match json::json_document(bytes@) {
            Err(e) => r matches Err(m) && m@ == e,
            Ok(v) => if contract_supported(v) {
                r matches Ok(c) && c@ == v
            } else {
                r matches Err(m) && m@ == "unsupported full GPU pipeline contract"@
            },
        },
{
    match parse_document(bytes) {
        Ok(c) => {
            let apart: bool = match c.get("runtime_torch_dependency") {
                Some(Json::Bool(b)) => !*b,
                _ => false,
            };
            if c.has_number("schema", 1) && c.has_text("algorithm", "tg-full-gpu-pipeline-v1")
                && c.has_number("opset", 18) && c.has_true("fixed_shape") && apart {
                Ok(c)
            } else {
                Err("unsupported full GPU pipeline contract".to_owned())
            }
        },
        Err(e) => Err(e),
    }
}

/// What a contract says of a graph.
pub open spec fn graph_entry(c: JsonValue, g: Graph) -> JsonValue {
    json::member(json::member(c, "graphs"@), graph_name(g))
}

/// Why the file of a graph cannot be told.
pub open spec fn file_fault(c: JsonValue, g: Graph) -> Option<Seq<char>> {
    match json::member(graph_entry(c, g), "file"@) {
        JsonValue::Text(file) => match json::member(graph_entry(c, g), "sha256"@) {
            JsonValue::Text(_) => if file != graph_name(g) + ".onnx"@ {
                Some("unexpected graph file: "@ + file)
            } else {
                None
            },
            _ => Some("missing graph hash"@),
        },
        _ => Some("missing graph file"@),
    }
}

/// The entries of an array, and none of anything else.
pub open spec fn entries(v: JsonValue) -> Seq<JsonValue> {
    match v {
        JsonValue::Array(xs) => xs,
        _ => Seq::empty(),
    }
}

/// The label of a port that a contract names.
pub open spec fn named_port(v: JsonValue) -> Result<Seq<char>, Seq<char>> {
    match json::member(v, "name"@) {
        JsonValue::Text(name) => match json::member(v, "dtype"@) {
            JsonValue::Text(kind) => Ok(name + ":"@ + kind),
            _ => Err("missing graph port dtype"@),
        },
        _ => Err("missing graph port name"@),
    }
}

/// The first port that cannot be told.
pub open spec fn unnamed(ports: Seq<JsonValue>) -> Option<Seq<char>>
    decreases ports.len(),
{
    if ports.len() == 0 {
        None
    } else {
        match named_port(ports[0]) {
            Ok(_) => unnamed(ports.skip(1)),
            Err(e) => Some(e),
        }
    }
}

/// Whether the ports are those with the labels.
pub open spec fn ports_match(ports: Seq<JsonValue>, expected: Seq<Seq<char>>) -> bool {
    &&& ports.len() == expected.len()
    &&& forall|i: int|
        0 <= i < ports.len() ==> named_port(#[trigger] ports[i]) == Ok::<Seq<char>, Seq<char>>(
            expected[i],
        )
}

/// The ports that a contract names for a graph.
pub open spec fn contract_ports(c: JsonValue, g: Graph) -> Seq<JsonValue> {
    entries(json::member(graph_entry(c, g), "inputs"@)) + entries(
        json::member(graph_entry(c, g), "outputs"@),
    )
}

/// Why a graph cannot be used.
pub open spec fn graph_fault(c: JsonValue, g: Graph, contents: Seq<u8>) -> Option<Seq<char>> {
    match file_fault(c, g) {
        Some(text) => Some(text),
        None => if json::member(graph_entry(c, g), "sha256"@) != JsonValue::Text(
            text::hex_of(voice_model::sha256(contents)),
        ) {
            Some("full GPU graph hash mismatch: "@ + graph_name(g) + ".onnx"@)
        } else {
            match unnamed(contract_ports(c, g)) {
                Some(text) => Some(text),
                None => if ports_match(contract_ports(c, g), graph_labels(g)) {
                    None
                } else {
                    Some("full GPU graph port mismatch: "@ + graph_name(g) + ".onnx"@)
                },
            }
        },
    }
}

fn name_of(g: Graph) -> (r: &'static str)
    ensures
        r@ == graph_name(g),
{
    match g {
        Graph::Pre => "pre",
        Graph::Prepare => "prepare",
        Graph::Post => "post",
        Graph::Noise => "noise",
    }
}

fn entry(contract: &Json, g: Graph) -> (r: Option<&Json>)
    ensures
        match r {
            Some(v) => v@ == graph_entry(contract@, g),
            None => graph_entry(contract@, g) == JsonValue::Null,
        },
{
    match contract.get("graphs") {
        Some(graphs) => graphs.get(name_of(g)),
        None => None,
    }
}

/// The file of a graph.
pub fn graph_file(contract: &Json, g: Graph) -> (r: Result<String, String>)
    ensures
        match file_fault(contract@, g) {
            Some(text) => r matches Err(e) && e@ == text,
            None => r matches Ok(file) && file@ == graph_name(g) + ".onnx"@,
        },
{
    let graph: &Json = match entry(contract, g) {
        Some(v) => v,
        None => {
            return Err("missing graph file".to_owned());
        },
    };
    let file: &String = match graph.get("file") {
        Some(Json::Text(s)) => s,
        _ => {
            return Err("missing graph file".to_owned());
        },
    };
    match graph.get("sha256") {
        Some(Json::Text(_)) => {},
        _ => {
            return Err("missing graph hash".to_owned());
        },
    }
    let expected = join(name_of(g), ".onnx");
    if !same(file.as_str(), expected.as_str()) {
        return Err(join("unexpected graph file: ", file.as_str()));
    }
    Ok(expected)
}

/// The label of a port that a contract names.
fn port_label(port: &Json) -> (r: Result<String, String>)
    ensures
        match named_port(port@) {
            Ok(text) => r matches Ok(s) && s@ == text,
            Err(text) => r matches Err(e) && e@ == text,
        },
{
    match port.get("name") {
        Some(Json::Text(name)) => match port.get("dtype") {
            Some(Json::Text(kind)) => Ok(join3(name.as_str(), ":", kind.as_str())),
            _ => Err("missing graph port dtype".to_owned()),
        },
        _ => Err("missing graph port name".to_owned()),
    }
}

/// Adds the labels of a list of ports, up to the first that cannot be told.
fn add_labels(out: &mut Vec<String>, list: Option<&Json>, value: Ghost<JsonValue>) -> (r: Result<(), String>)
    requires
        match list {
            Some(v) => v@ == value@,
            None => value@ == JsonValue::Null,
        },
    ensures
        match unnamed(entries(value@)) {
            Some(text) => r matches Err(e) && e@ == text,
            None => {
                &&& r is Ok
                &&& final(out)@.len() == old(out)@.len() + entries(value@).len()
                &&& forall|i: int| 0 <= i < old(out)@.len() ==> #[trigger] final(out)@[i] == old(out)@[i]
                &&& forall|i: int|
                    old(out)@.len() <= i < final(out)@.len() ==> named_port(
                        entries(value@)[i - old(out)@.len()],
                    ) == Ok::<Seq<char>, Seq<char>>((#[trigger] final(out)@[i])@)
            },
        },
{
    let xs: &Vec<Json> = match list {
        Some(Json::Array(xs)) => xs,
        _ => {
            return Ok(());
        },
    };
    proof {
        json::lemma_json_array(*xs);
    }
    let ghost all = json::json_views(xs@);
    let ghost before = out@;
    assert(all.skip(0) =~= all);
    let mut i: usize = 0;
    while i < xs.len()
        invariant
            i <= xs@.len(),
            all == json::json_views(xs@),
            all == entries(value@),
            before == old(out)@,
            unnamed(all) == unnamed(all.skip(i as int)),
            out@.len() == before.len() + i,
            forall|k: int| 0 <= k < before.len() ==> #[trigger] out@[k] == before[k],
            forall|k: int|
                before.len() <= k < out@.len() ==> named_port(all[k - before.len()]) == Ok::<
                    Seq<char>,
                    Seq<char>,
                >((#[trigger] out@[k])@),
        decreases xs@.len() - i,
    {
        proof {
            assert(all.skip(i as int)[0] == all[i as int]);
            assert(all.skip(i as int).skip(1) =~= all.skip(i + 1));
        }
        match port_label(&xs[i]) {
            Ok(s) => {
                out.push(s);
            },
            Err(e) => {
                return Err(e);
            },
        }
        i += 1;
    }
    Ok(())
}

proof fn lemma_unnamed(a: Seq<JsonValue>, b: Seq<JsonValue>)
    ensures
        unnamed(a + b) == (match unnamed(a) {
            Some(text) => Some(text),
            None => unnamed(b),
        }),
    decreases a.len(),
{
    if a.len() == 0 {
        assert(a + b =~= b);
    } else {
        assert((a + b)[0] == a[0]);
        assert((a + b).skip(1) =~= a.skip(1) + b);
        lemma_unnamed(a.skip(1), b);
    }
}

/// Checks a graph against the contract.
pub fn check_graph(contract: &Json, g: Graph, contents: &[u8]) -> (r: Result<(), String>)
    ensures
        match graph_fault(contract@, g, contents@) {
            Some(text) => r matches Err(e) && e@ == text,
            None => r is Ok,
        },
{
    let file: String = match graph_file(contract, g) {
        Ok(file) => file,
        Err(e) => {
            return Err(e);
        },
    };
    let graph: &Json = match entry(contract, g) {
        Some(v) => v,
        None => {
            return Err("missing graph file".to_owned());
        },
    };
    let empty: Vec<u8> = Vec::new();
    let nothing: &[u8] = empty.as_slice();
    assert(nothing@ + contents@ + nothing@ + nothing@ =~= contents@);
    let sum = hex(&digest(nothing, contents, nothing, nothing));
    if !graph.has_text("sha256", sum.as_str()) {
        assert("full GPU graph hash mismatch: "@ + (graph_name(g) + ".onnx"@)
            =~= "full GPU graph hash mismatch: "@ + graph_name(g) + ".onnx"@);
        return Err(join("full GPU graph hash mismatch: ", file.as_str()));
    }
    let ghost ins = entries(json::member(graph@, "inputs"@));
    let ghost outs = entries(json::member(graph@, "outputs"@));
    proof {
        lemma_unnamed(ins, outs);
    }
    let mut names: Vec<String> = Vec::new();
    match add_labels(&mut names, graph.get("inputs"), Ghost(json::member(graph@, "inputs"@))) {
        Ok(_) => {},
        Err(e) => {
            return Err(e);
        },
    }
    match add_labels(&mut names, graph.get("outputs"), Ghost(json::member(graph@, "outputs"@))) {
        Ok(_) => {},
        Err(e) => {
            return Err(e);
        },
    }
    let ghost all = contract_ports(contract@, g);
    assert(all == ins + outs);
    assert forall|i: int| 0 <= i < all.len() implies named_port(#[trigger] all[i]) == Ok::<
        Seq<char>,
        Seq<char>,
    >(names@[i]@) by {
        if i < ins.len() {
            assert(all[i] == ins[i]);
        } else {
            assert(all[i] == outs[i - ins.len()]);
        }
    }
    if !are_labels(&names, &expected_ports(g)) {
        proof {
            let want = graph_labels(g);
            if ports_match(all, want) {
                assert forall|i: int| 0 <= i < want.len() implies (#[trigger] names@[i])@ == want[i] by {
                    assert(named_port(all[i]) == Ok::<Seq<char>, Seq<char>>(want[i]));
                }
            }
            assert("full GPU graph port mismatch: "@ + (graph_name(g) + ".onnx"@)
                =~= "full GPU graph port mismatch: "@ + graph_name(g) + ".onnx"@);
        }
        return Err(join("full GPU graph port mismatch: ", file.as_str()));
    }
    Ok(())
}

fn are_labels(names: &Vec<String>, expected: &Vec<Signature>) -> (r: bool)
    ensures
        r == (names@.len() == expected@.len() && forall|i: int|
            0 <= i < names@.len() ==> (#[trigger] names@[i])@ == labels(signatures(expected@))[i]),
{
    let ghost want = labels(signatures(expected@));
    if names.len() != expected.len() {
        return false;
    }
    let mut i: usize = 0;
    while i < names.len()
        invariant
            i <= names@.len() == expected@.len(),
            want == labels(signatures(expected@)),
            forall|j: int| 0 <= j < i ==> (#[trigger] names@[j])@ == want[j],
        decreases names@.len() - i,
    {
        let expected_label = label_of(&expected[i]);
        if !same(names[i].as_str(), expected_label.as_str()) {
            assert(names@[i as int]@ != want[i as int]);
            return false;
        }
        i += 1;
    }
    true
}

/// Where a port gets its values without a copy.
#[derive(Clone, Copy, PartialEq, Eq, Structural)]
pub enum Producer {
    Features,
    Pitch,
    Pre,
    Prepare,
    Noise,
    Generator,
}

/// An input port that shares the buffer of another stage's output.
pub struct Link {
    pub port: String,
    pub producer: Producer,
    pub output: String,
}

impl View for Link {
    type V = (Seq<char>, Producer, Seq<char>);

    open spec fn view(&self) -> (Seq<char>, Producer, Seq<char>) {
        (self.port@, self.producer, self.output@)
    }
}

pub open spec fn links(xs: Seq<Link>) -> Seq<(Seq<char>, Producer, Seq<char>)> {
    Seq::new(xs.len(), |i: int| xs[i]@)
}

fn put_link(out: &mut Vec<Link>, port: &str, producer: Producer, output: &str)
    ensures
        links(final(out)@) == links(old(out)@).push((port@, producer, output@)),
{
    out.push(Link { port: port.to_owned(), producer, output: output.to_owned() });
    assert(links(out@) =~= links(old(out)@).push((port@, producer, output@)));
}

/// What the graph of a stage is bound to.
pub struct StagePlan {
    pub dimensions: Vec<Dimension>,
    pub links: Vec<Link>,
    pub inputs: Vec<Port>,
    pub outputs: Vec<Port>,
    pub tables: Vec<Table>,
}

/// What a [`StagePlan`] says.
pub struct StageValue {
    pub dimensions: Seq<(Seq<char>, int)>,
    pub links: Seq<(Seq<char>, Producer, Seq<char>)>,
    pub inputs: Seq<PortValue>,
    pub outputs: Seq<PortValue>,
    pub tables: Seq<(Seq<char>, Seq<i64>)>,
}

impl View for StagePlan {
    type V = StageValue;

    open spec fn view(&self) -> StageValue {
        StageValue {
            dimensions: plan::dimensions(self.dimensions@),
            links: links(self.links@),
            inputs: plan::ports(self.inputs@),
            outputs: plan::ports(self.outputs@),
            tables: plan::tables(self.tables@),
        }
    }
}

/// The frames of the pitch.
pub open spec fn raw_frames(d: Dims) -> int {
    (d.convert - d.silence_front) / 160 + 1
}

/// The feature frame that every frame of the path takes: each stands for two.
pub open spec fn feature_table(features: int, cv_frames: int) -> Seq<i64> {
    Seq::new(
        features as nat,
        |i: int|
            if i / 2 < cv_frames - 1 {
                (i / 2) as i64
            } else {
                (cv_frames - 1) as i64
            },
    )
}

/// The stage that puts features and pitch together.
pub open spec fn prepare_stage(d: Dims) -> StageValue {
    let cv = gpu_pitch::feature_frames(d.convert as int);
    let raw = raw_frames(d);
    let cache = (d.features + 1) as usize;
    let none = Seq::<usize>::empty();
    StageValue {
        dimensions: seq![
            ("cv_frames"@, cv),
            ("raw_f0_frames"@, raw),
            ("cache_frames"@, d.features + 1),
            ("feature_frames"@, d.features as int),
        ],
        links: seq![
            ("cv_features"@, Producer::Features, "unit12"@),
            ("raw_f0"@, Producer::Pitch, "f0"@),
        ],
        inputs: seq![
            gpu_pre::port("pitch_buffer"@, Elem::Long, seq![cache]),
            gpu_pre::port("pitchf_buffer"@, Elem::Half, seq![cache]),
            gpu_pre::port("pitch_factor"@, Elem::Single, none),
            gpu_pre::port("formant_ratio"@, Elem::Single, none),
            gpu_pre::port("feature_index"@, Elem::Long, seq![d.features]),
            gpu_pre::port("pitch_cache_index"@, Elem::Long, seq![cache]),
            gpu_pre::port("generator_pitch_index"@, Elem::Long, seq![d.features]),
        ],
        outputs: seq![
            gpu_pre::port("features"@, Elem::Half, seq![1, d.features, 768]),
            gpu_pre::port("pitch"@, Elem::Long, seq![1, d.features]),
            gpu_pre::port("pitchf"@, Elem::Half, seq![1, d.features]),
            gpu_pre::port("next_pitch_buffer"@, Elem::Long, seq![cache]),
            gpu_pre::port("next_pitchf_buffer"@, Elem::Half, seq![cache]),
        ],
        tables: seq![
            ("feature_index"@, feature_table(d.features as int, cv)),
            ("pitch_cache_index"@, plan::range_of(raw, raw + d.features + 1)),
            ("generator_pitch_index"@, plan::range_of(1, d.features + 1)),
        ],
    }
}

/// The lengths of the generator.
pub open spec fn lengths(d: Dims) -> generator::Lengths {
    generator::Lengths {
        frames: d.features,
        skip: d.skip,
        ret: d.ret,
        formant: d.formant_length,
    }
}

/// The stage that narrows the random values.
pub open spec fn noise_stage(d: Dims, rate: usize) -> StageValue {
    let flow = (d.features - generator::flow_head(lengths(d))) as usize;
    let sine = generator::sine_count(lengths(d), rate) as usize;
    StageValue {
        dimensions: seq![("flow_frames"@, flow as int), ("sine_samples"@, sine as int)],
        links: seq![],
        inputs: seq![
            gpu_pre::port("rnd_f32"@, Elem::Single, seq![1, 192, flow]),
            gpu_pre::port("sine_noise_f32"@, Elem::Single, seq![1, sine, 1]),
        ],
        outputs: seq![
            gpu_pre::port("rnd"@, Elem::Half, seq![1, 192, flow]),
            gpu_pre::port("sine_noise"@, Elem::Half, seq![1, sine, 1]),
        ],
        tables: seq![],
    }
}

/// The stage of the generator.
pub open spec fn generator_stage(d: Dims, rate: usize) -> StageValue {
    let l = lengths(d);
    StageValue {
        dimensions: generator::runner_dimensions(l, rate),
        links: seq![
            ("features"@, Producer::Prepare, "features"@),
            ("pitch"@, Producer::Prepare, "pitch"@),
            ("pitchf"@, Producer::Prepare, "pitchf"@),
            ("rnd"@, Producer::Noise, "rnd"@),
            ("sine_noise"@, Producer::Noise, "sine_noise"@),
        ],
        inputs: seq![
            gpu_pre::port("n_res"@, Elem::Single, seq![1, d.formant_length]),
            gpu_pre::port(
                "n_head"@,
                Elem::Single,
                seq![1, (d.skip - generator::flow_head(l)) as usize],
            ),
        ],
        outputs: seq![gpu_pre::port("generated"@, Elem::Single, seq![d.generated])],
        tables: seq![],
    }
}

/// Why a resampling cannot be had.
pub open spec fn resample_fault(source: usize, target: usize, samples: usize, width: usize) -> Option<Seq<char>> {
    if !startup::resampleable(source, target, samples) {
        Some("invalid resample dimensions"@)
    } else if source != target && !startup::resample_bounded(
        startup::resample_size(source, target, samples, width),
    ) {
        Some("resampling allocation exceeds bound"@)
    } else {
        None
    }
}

/// The phases, taps and frames of a resampling.
pub open spec fn resample_shape(source: usize, target: usize, samples: usize, width: usize) -> (int, int, int) {
    if source == target {
        (1, 1, samples as int)
    } else {
        startup::resample_size(source, target, samples, width)
    }
}

/// The index table of a resampling.
pub open spec fn resample_table(source: usize, target: usize, samples: usize, width: usize) -> Seq<i64> {
    let size = startup::resample_size(source, target, samples, width);
    if source == target {
        Seq::new(samples as nat, |i: int| (i + 1) as i64)
    } else {
        startup::tap_indices(size.1 - 2 * width, width as int, samples as int, size.2)
    }
}

/// What becomes of the generated samples: the formant shift is undone, and they are brought to the
/// rate of the device. The widths are the reaches of the two filters.
#[derive(Clone, Copy, PartialEq, Eq, Structural)]
pub struct Output {
    pub sample_rate: usize,
    pub formant_width: usize,
    /// The samples at the rate of the model.
    pub model_samples: usize,
    pub output_width: usize,
    /// The samples at the rate of the device.
    pub pre_sola_samples: usize,
}

/// The part of a block that fades, and behind it the first sample again.
pub open spec fn blend_table(crossfade: int, alignment: int) -> Seq<i64> {
    Seq::new(
        alignment as nat,
        |i: int|
            if i < crossfade {
                i as i64
            } else {
                0
            },
    )
}

/// The stage that makes a block of the generated samples.
pub open spec fn post_stage(d: Dims, rate: usize, o: Output) -> StageValue {
    let frame = (rate as int / 100) as usize;
    let formant = resample_shape(d.scaled_window, frame, d.trimmed, o.formant_width);
    let output = resample_shape(rate, o.sample_rate, o.model_samples, o.output_width);
    let alignment = d.block + d.crossfade;
    let search = d.crossfade + d.search;
    StageValue {
        dimensions: seq![
            ("generated_samples"@, d.generated as int),
            ("crossfade_samples"@, d.crossfade as int),
            ("formant_phases"@, formant.0),
            ("formant_taps"@, formant.1),
            ("formant_frames"@, formant.2),
            ("model_samples"@, o.model_samples as int),
            ("output_phases"@, output.0),
            ("output_taps"@, output.1),
            ("output_frames"@, output.2),
            ("pre_sola_samples"@, o.pre_sola_samples as int),
            ("sola_search_samples"@, search),
            ("alignment_samples"@, alignment),
            ("block_samples"@, d.block as int),
        ],
        links: seq![
            ("generated"@, Producer::Generator, "generated"@),
            ("volume"@, Producer::Pre, "volume"@),
        ],
        inputs: post_inputs(d, formant, output, o),
        outputs: seq![
            gpu_pre::port("audio_model"@, Elem::Single, seq![o.model_samples]),
            gpu_pre::port("pre_sola"@, Elem::Single, seq![o.pre_sola_samples]),
            gpu_pre::port("sola_offset"@, Elem::Long, Seq::<usize>::empty()),
            gpu_pre::port("output"@, Elem::Single, seq![d.block]),
            gpu_pre::port("next_sola_buffer"@, Elem::Single, seq![d.crossfade]),
        ],
        tables: seq![
            (
                "formant_indices"@,
                resample_table(d.scaled_window, frame, d.trimmed, o.formant_width),
            ),
            ("formant_output_index"@, plan::range_of(0, o.model_samples as int)),
            (
                "output_indices"@,
                resample_table(rate, o.sample_rate, o.model_samples, o.output_width),
            ),
            ("output_output_index"@, plan::range_of(0, o.pre_sola_samples as int)),
            ("sola_search_index"@, plan::range_of(0, search)),
            ("alignment_index"@, plan::range_of(0, alignment)),
            ("sola_blend_index"@, blend_table(d.crossfade as int, alignment)),
            ("output_index"@, plan::range_of(0, d.block as int)),
            ("state_index"@, plan::range_of(d.block as int, alignment)),
        ],
    }
}

pub open spec fn post_inputs(d: Dims, formant: (int, int, int), output: (int, int, int), o: Output) -> Seq<PortValue> {
    let alignment = (d.block + d.crossfade) as usize;
    let search = (d.crossfade + d.search) as usize;
    seq![
        gpu_pre::port("sola_buffer"@, Elem::Single, seq![d.crossfade]),
        gpu_pre::port("formant_kernel"@, Elem::Single, seq![formant.0 as usize, formant.1 as usize]),
        gpu_pre::port("formant_indices"@, Elem::Long, seq![formant.2 as usize, formant.1 as usize]),
        gpu_pre::port("formant_output_index"@, Elem::Long, seq![o.model_samples]),
        gpu_pre::port("output_kernel"@, Elem::Single, seq![output.0 as usize, output.1 as usize]),
        gpu_pre::port("output_indices"@, Elem::Long, seq![output.2 as usize, output.1 as usize]),
        gpu_pre::port("output_output_index"@, Elem::Long, seq![o.pre_sola_samples]),
        gpu_pre::port("sola_search_index"@, Elem::Long, seq![search]),
        gpu_pre::port("sola_ones"@, Elem::Single, seq![d.crossfade]),
        gpu_pre::port("alignment_index"@, Elem::Long, seq![alignment]),
        gpu_pre::port("sola_blend_index"@, Elem::Long, seq![alignment]),
        gpu_pre::port("fade_in"@, Elem::Single, seq![alignment]),
        gpu_pre::port("fade_out"@, Elem::Single, seq![alignment]),
        gpu_pre::port("output_index"@, Elem::Long, seq![d.block]),
        gpu_pre::port("state_index"@, Elem::Long, seq![d.crossfade]),
    ]
}

/// Whether the lengths can be counted throughout.
pub open spec fn countable(d: Dims, o: Output) -> bool {
    &&& d.block <= 0x1000_0000
    &&& d.crossfade <= 0x1000_0000
    &&& d.search <= 0x1000_0000
    &&& d.silence_front <= d.convert <= 0x1000_0000
    &&& d.features <= 0x10_0000
    &&& d.ret <= 0x10_0000
    &&& o.formant_width <= 10_000_000
    &&& o.output_width <= 10_000_000
    &&& o.pre_sola_samples <= i64::MAX
}

/// Whether the lengths can be counted throughout.
pub fn is_countable(d: &Dims, o: &Output) -> (r: bool)
    ensures
        r == countable(*d, *o),
{
    d.block <= 0x1000_0000 && d.crossfade <= 0x1000_0000 && d.search <= 0x1000_0000
        && d.silence_front <= d.convert && d.convert <= 0x1000_0000 && d.features <= 0x10_0000
        && d.ret <= 0x10_0000 && o.formant_width <= 10_000_000 && o.output_width <= 10_000_000
        && o.pre_sola_samples as u64 <= 0x7fff_ffff_ffff_ffff
}

/// Why there is no pipeline of the lengths: the first of the stages that cannot be had.
pub open spec fn plan_fault(d: Dims, rate: usize, o: Output) -> Option<Seq<char>> {
    let frame = (rate as int / 100) as usize;
    if !gpu_pitch::pitch_length((d.convert - d.silence_front) as usize) {
        Some("invalid RMVPE window length"@)
    } else if d.convert < 400 {
        Some("ContentVec input too short"@)
    } else if 2 * (gpu_pitch::feature_frames(d.convert as int) + 1) < d.features {
        Some("ContentVec frame mismatch"@)
    } else if d.features < generator::flow_head(lengths(d)) {
        Some("invalid generator flow length"@)
    } else if resample_fault(d.scaled_window, frame, d.trimmed, o.formant_width) is Some {
        resample_fault(d.scaled_window, frame, d.trimmed, o.formant_width)
    } else if resample_fault(rate, o.sample_rate, o.model_samples, o.output_width) is Some {
        resample_fault(rate, o.sample_rate, o.model_samples, o.output_width)
    } else if !(d.crossfade + d.search <= o.pre_sola_samples && d.search + d.block + d.crossfade
        <= o.pre_sola_samples) {
        Some("post output is too short for SOLA"@)
    } else if !(1 < d.crossfade <= 192000) {
        Some("invalid crossfade length"@)
    } else {
        None
    }
}

/// What the graphs of the pipeline are bound to.
pub struct PipelinePlan {
    pub prepare: StagePlan,
    pub noise: StagePlan,
    pub generator: StagePlan,
    pub post: StagePlan,
}

fn feature_indices(features: usize, cv_frames: usize) -> (r: Vec<i64>)
    requires
        1 <= cv_frames <= 0x1000_0000,
        features <= 0x10_0000,
    ensures
        r@ == feature_table(features as int, cv_frames as int),
{
    let ghost want = feature_table(features as int, cv_frames as int);
    let mut out: Vec<i64> = Vec::new();
    let mut i: usize = 0;
    while i < features
        invariant
            i <= features <= 0x10_0000,
            1 <= cv_frames <= 0x1000_0000,
            want == feature_table(features as int, cv_frames as int),
            out@ == want.take(i as int),
        decreases features - i,
    {
        let at: usize = if i / 2 < cv_frames - 1 {
            i / 2
        } else {
            cv_frames - 1
        };
        out.push(at as i64);
        i += 1;
        assert(out@ =~= want.take(i as int));
    }
    assert(want.take(features as int) =~= want);
    out
}

fn blend_indices(crossfade: usize, alignment: usize) -> (r: Vec<i64>)
    requires
        crossfade <= alignment <= 0x7fff_ffff,
    ensures
        r@ == blend_table(crossfade as int, alignment as int),
{
    let ghost want = blend_table(crossfade as int, alignment as int);
    let mut out: Vec<i64> = Vec::new();
    let mut i: usize = 0;
    while i < alignment
        invariant
            i <= alignment <= 0x7fff_ffff,
            want == blend_table(crossfade as int, alignment as int),
            out@ == want.take(i as int),
        decreases alignment - i,
    {
        let at: i64 = if i < crossfade {
            i as i64
        } else {
            0
        };
        out.push(at);
        i += 1;
        assert(out@ =~= want.take(i as int));
    }
    assert(want.take(alignment as int) =~= want);
    out
}

fn plan_prepare(d: &Dims) -> (r: StagePlan)
    requires
        400 <= d.convert <= 0x1000_0000,
        d.silence_front <= d.convert,
        d.features <= 0x10_0000,
    ensures
        r@ == prepare_stage(*d),
{
    let cv: usize = (d.convert - 400) / 320 + 1;
    let raw: usize = (d.convert - d.silence_front) / 160 + 1;
    let cache: usize = d.features + 1;
    let mut dimensions: Vec<Dimension> = Vec::new();
    assert(plan::dimensions(dimensions@) =~= seq![]);
    put_dimension(&mut dimensions, "cv_frames", cv);
    put_dimension(&mut dimensions, "raw_f0_frames", raw);
    put_dimension(&mut dimensions, "cache_frames", cache);
    put_dimension(&mut dimensions, "feature_frames", d.features);
    let mut shared: Vec<Link> = Vec::new();
    assert(links(shared@) =~= seq![]);
    put_link(&mut shared, "cv_features", Producer::Features, "unit12");
    put_link(&mut shared, "raw_f0", Producer::Pitch, "f0");
    let mut inputs: Vec<Port> = Vec::new();
    assert(plan::ports(inputs@) =~= seq![]);
    put_port(&mut inputs, "pitch_buffer", Elem::Long, shape1(cache));
    put_port(&mut inputs, "pitchf_buffer", Elem::Half, shape1(cache));
    put_port(&mut inputs, "pitch_factor", Elem::Single, shape0());
    put_port(&mut inputs, "formant_ratio", Elem::Single, shape0());
    put_port(&mut inputs, "feature_index", Elem::Long, shape1(d.features));
    put_port(&mut inputs, "pitch_cache_index", Elem::Long, shape1(cache));
    put_port(&mut inputs, "generator_pitch_index", Elem::Long, shape1(d.features));
    let mut outputs: Vec<Port> = Vec::new();
    assert(plan::ports(outputs@) =~= seq![]);
    put_port(&mut outputs, "features", Elem::Half, shape3(1, d.features, 768));
    put_port(&mut outputs, "pitch", Elem::Long, shape2(1, d.features));
    put_port(&mut outputs, "pitchf", Elem::Half, shape2(1, d.features));
    put_port(&mut outputs, "next_pitch_buffer", Elem::Long, shape1(cache));
    put_port(&mut outputs, "next_pitchf_buffer", Elem::Half, shape1(cache));
    let mut tables: Vec<Table> = Vec::new();
    assert(plan::tables(tables@) =~= seq![]);
    put_table(&mut tables, "feature_index", feature_indices(d.features, cv));
    put_table(&mut tables, "pitch_cache_index", range(raw, raw + cache));
    put_table(&mut tables, "generator_pitch_index", range(1, cache));
    let r = StagePlan { dimensions, links: shared, inputs, outputs, tables };
    proof {
        let want = prepare_stage(*d);
        assert(r@.dimensions =~= want.dimensions);
        assert(r@.links =~= want.links);
        assert(r@.inputs =~= want.inputs);
        assert(r@.outputs =~= want.outputs);
        assert(r@.tables =~= want.tables);
    }
    r
}

fn plan_noise(d: &Dims, rate: usize, flow: usize, sine: usize) -> (r: StagePlan)
    requires
        flow == d.features - generator::flow_head(lengths(*d)),
        sine == generator::sine_count(lengths(*d), rate),
    ensures
        r@ == noise_stage(*d, rate),
{
    let mut dimensions: Vec<Dimension> = Vec::new();
    assert(plan::dimensions(dimensions@) =~= seq![]);
    put_dimension(&mut dimensions, "flow_frames", flow);
    put_dimension(&mut dimensions, "sine_samples", sine);
    let mut inputs: Vec<Port> = Vec::new();
    assert(plan::ports(inputs@) =~= seq![]);
    put_port(&mut inputs, "rnd_f32", Elem::Single, shape3(1, 192, flow));
    put_port(&mut inputs, "sine_noise_f32", Elem::Single, shape3(1, sine, 1));
    let mut outputs: Vec<Port> = Vec::new();
    assert(plan::ports(outputs@) =~= seq![]);
    put_port(&mut outputs, "rnd", Elem::Half, shape3(1, 192, flow));
    put_port(&mut outputs, "sine_noise", Elem::Half, shape3(1, sine, 1));
    let shared: Vec<Link> = Vec::new();
    assert(links(shared@) =~= seq![]);
    let tables: Vec<Table> = Vec::new();
    assert(plan::tables(tables@) =~= seq![]);
    let r = StagePlan { dimensions, links: shared, inputs, outputs, tables };
    proof {
        let want = noise_stage(*d, rate);
        assert(r@.dimensions =~= want.dimensions);
        assert(r@.links =~= want.links);
        assert(r@.inputs =~= want.inputs);
        assert(r@.outputs =~= want.outputs);
        assert(r@.tables =~= want.tables);
    }
    r
}

fn plan_generator(d: &Dims, rate: usize, flow: usize, sine: usize, head: usize) -> (r: StagePlan)
    requires
        flow == d.features - generator::flow_head(lengths(*d)),
        sine == generator::sine_count(lengths(*d), rate),
        head == d.skip - generator::flow_head(lengths(*d)),
    ensures
        r@ == generator_stage(*d, rate),
{
    let mut dimensions: Vec<Dimension> = Vec::new();
    assert(plan::dimensions(dimensions@) =~= seq![]);
    put_dimension(&mut dimensions, "p_len", d.features);
    put_dimension(&mut dimensions, "flow_len", flow);
    put_dimension(&mut dimensions, "sine_len", sine);
    put_dimension(&mut dimensions, "ret2_len", d.formant_length);
    put_dimension(&mut dimensions, "dec_head", head);
    let mut shared: Vec<Link> = Vec::new();
    assert(links(shared@) =~= seq![]);
    put_link(&mut shared, "features", Producer::Prepare, "features");
    put_link(&mut shared, "pitch", Producer::Prepare, "pitch");
    put_link(&mut shared, "pitchf", Producer::Prepare, "pitchf");
    put_link(&mut shared, "rnd", Producer::Noise, "rnd");
    put_link(&mut shared, "sine_noise", Producer::Noise, "sine_noise");
    let mut inputs: Vec<Port> = Vec::new();
    assert(plan::ports(inputs@) =~= seq![]);
    put_port(&mut inputs, "n_res", Elem::Single, shape2(1, d.formant_length));
    put_port(&mut inputs, "n_head", Elem::Single, shape2(1, head));
    let mut outputs: Vec<Port> = Vec::new();
    assert(plan::ports(outputs@) =~= seq![]);
    put_port(&mut outputs, "generated", Elem::Single, shape1(d.generated));
    let tables: Vec<Table> = Vec::new();
    assert(plan::tables(tables@) =~= seq![]);
    let r = StagePlan { dimensions, links: shared, inputs, outputs, tables };
    proof {
        let want = generator_stage(*d, rate);
        assert(r@.dimensions =~= want.dimensions);
        assert(r@.links =~= want.links);
        assert(r@.inputs =~= want.inputs);
        assert(r@.outputs =~= want.outputs);
        assert(r@.tables =~= want.tables);
    }
    r
}

/// A resampling is the one that is asked for.
pub open spec fn resamples(t: ResampleInputs, source: usize, target: usize, samples: usize, width: usize) -> bool {
    let shape = resample_shape(source, target, samples, width);
    &&& t.phases == shape.0
    &&& t.taps == shape.1
    &&& t.frames == shape.2
    &&& t.indices@ == resample_table(source, target, samples, width)
}

fn plan_post_inputs(d: &Dims, o: &Output, formant: &ResampleInputs, output: &ResampleInputs) -> (r: Vec<Port>)
    requires
        d.block + d.crossfade <= usize::MAX,
        d.crossfade + d.search <= usize::MAX,
    ensures
        plan::ports(r@) == post_inputs(
            *d,
            (formant.phases as int, formant.taps as int, formant.frames as int),
            (output.phases as int, output.taps as int, output.frames as int),
            *o,
        ),
{
    let alignment: usize = d.block + d.crossfade;
    let mut out: Vec<Port> = Vec::new();
    assert(plan::ports(out@) =~= seq![]);
    put_port(&mut out, "sola_buffer", Elem::Single, shape1(d.crossfade));
    put_port(&mut out, "formant_kernel", Elem::Single, shape2(formant.phases, formant.taps));
    put_port(&mut out, "formant_indices", Elem::Long, shape2(formant.frames, formant.taps));
    put_port(&mut out, "formant_output_index", Elem::Long, shape1(o.model_samples));
    put_port(&mut out, "output_kernel", Elem::Single, shape2(output.phases, output.taps));
    put_port(&mut out, "output_indices", Elem::Long, shape2(output.frames, output.taps));
    put_port(&mut out, "output_output_index", Elem::Long, shape1(o.pre_sola_samples));
    put_port(&mut out, "sola_search_index", Elem::Long, shape1(d.crossfade + d.search));
    put_port(&mut out, "sola_ones", Elem::Single, shape1(d.crossfade));
    put_port(&mut out, "alignment_index", Elem::Long, shape1(alignment));
    put_port(&mut out, "sola_blend_index", Elem::Long, shape1(alignment));
    put_port(&mut out, "fade_in", Elem::Single, shape1(alignment));
    put_port(&mut out, "fade_out", Elem::Single, shape1(alignment));
    put_port(&mut out, "output_index", Elem::Long, shape1(d.block));
    put_port(&mut out, "state_index", Elem::Long, shape1(d.crossfade));
    out
}

fn plan_post_dimensions(d: &Dims, o: &Output, formant: &ResampleInputs, output: &ResampleInputs) -> (r: Vec<Dimension>)
    requires
        d.block + d.crossfade <= usize::MAX,
        d.crossfade + d.search <= usize::MAX,
    ensures
        plan::dimensions(r@) == seq![
            ("generated_samples"@, d.generated as int),
            ("crossfade_samples"@, d.crossfade as int),
            ("formant_phases"@, formant.phases as int),
            ("formant_taps"@, formant.taps as int),
            ("formant_frames"@, formant.frames as int),
            ("model_samples"@, o.model_samples as int),
            ("output_phases"@, output.phases as int),
            ("output_taps"@, output.taps as int),
            ("output_frames"@, output.frames as int),
            ("pre_sola_samples"@, o.pre_sola_samples as int),
            ("sola_search_samples"@, d.crossfade + d.search),
            ("alignment_samples"@, d.block + d.crossfade),
            ("block_samples"@, d.block as int),
        ],
{
    let mut out: Vec<Dimension> = Vec::new();
    assert(plan::dimensions(out@) =~= seq![]);
    put_dimension(&mut out, "generated_samples", d.generated);
    put_dimension(&mut out, "crossfade_samples", d.crossfade);
    put_dimension(&mut out, "formant_phases", formant.phases);
    put_dimension(&mut out, "formant_taps", formant.taps);
    put_dimension(&mut out, "formant_frames", formant.frames);
    put_dimension(&mut out, "model_samples", o.model_samples);
    put_dimension(&mut out, "output_phases", output.phases);
    put_dimension(&mut out, "output_taps", output.taps);
    put_dimension(&mut out, "output_frames", output.frames);
    put_dimension(&mut out, "pre_sola_samples", o.pre_sola_samples);
    put_dimension(&mut out, "sola_search_samples", d.crossfade + d.search);
    put_dimension(&mut out, "alignment_samples", d.block + d.crossfade);
    put_dimension(&mut out, "block_samples", d.block);
    out
}

fn plan_post(d: &Dims, rate: usize, o: &Output, formant: ResampleInputs, output: ResampleInputs) -> (r: StagePlan)
    requires
        countable(*d, *o),
        o.model_samples <= 1_000_000,
        resamples(formant, d.scaled_window, (rate as int / 100) as usize, d.trimmed, o.formant_width),
        resamples(output, rate, o.sample_rate, o.model_samples, o.output_width),
    ensures
        r@ == post_stage(*d, rate, *o),
{
    let alignment: usize = d.block + d.crossfade;
    let dimensions = plan_post_dimensions(d, o, &formant, &output);
    let inputs = plan_post_inputs(d, o, &formant, &output);
    let mut shared: Vec<Link> = Vec::new();
    assert(links(shared@) =~= seq![]);
    put_link(&mut shared, "generated", Producer::Generator, "generated");
    put_link(&mut shared, "volume", Producer::Pre, "volume");
    let mut outputs: Vec<Port> = Vec::new();
    assert(plan::ports(outputs@) =~= seq![]);
    put_port(&mut outputs, "audio_model", Elem::Single, shape1(o.model_samples));
    put_port(&mut outputs, "pre_sola", Elem::Single, shape1(o.pre_sola_samples));
    put_port(&mut outputs, "sola_offset", Elem::Long, shape0());
    put_port(&mut outputs, "output", Elem::Single, shape1(d.block));
    put_port(&mut outputs, "next_sola_buffer", Elem::Single, shape1(d.crossfade));
    let mut tables: Vec<Table> = Vec::new();
    assert(plan::tables(tables@) =~= seq![]);
    put_table(&mut tables, "formant_indices", formant.indices);
    put_table(&mut tables, "formant_output_index", range(0, o.model_samples));
    put_table(&mut tables, "output_indices", output.indices);
    put_table(&mut tables, "output_output_index", range(0, o.pre_sola_samples));
    put_table(&mut tables, "sola_search_index", range(0, d.crossfade + d.search));
    put_table(&mut tables, "alignment_index", range(0, alignment));
    put_table(&mut tables, "sola_blend_index", blend_indices(d.crossfade, alignment));
    put_table(&mut tables, "output_index", range(0, d.block));
    put_table(&mut tables, "state_index", range(d.block, alignment));
    let r = StagePlan { dimensions, links: shared, inputs, outputs, tables };
    proof {
        let want = post_stage(*d, rate, *o);
        assert(r@.dimensions =~= want.dimensions);
        assert(r@.links =~= want.links);
        assert(r@.inputs =~= want.inputs);
        assert(r@.outputs =~= want.outputs);
        assert(r@.tables =~= want.tables);
    }
    r
}

impl PipelinePlan {
    /// What the graphs of a pipeline of the lengths are bound to, or why there is none.
    pub fn new(d: &Dims, rate: usize, o: &Output) -> (r: Result<PipelinePlan, String>)
        requires
            countable(*d, *o),
            startup::model_rate(rate),
        ensures
            match plan_fault(*d, rate, *o) {
                Some(text) => r matches Err(e) && e@ == text,
                None => {
                    &&& r matches Ok(p)
                    &&& p.prepare@ == prepare_stage(*d)
                    &&& p.noise@ == noise_stage(*d, rate)
                    &&& p.generator@ == generator_stage(*d, rate)
                    &&& p.post@ == post_stage(*d, rate, *o)
                },
            },
    {
        match GpuPitch::new(d.convert - d.silence_front) {
            Ok(_) => {},
            Err(e) => {
                return Err(e);
            },
        }
        match GpuFeatures::new(d.convert) {
            Ok(_) => {},
            Err(e) => {
                return Err(e);
            },
        }
        let cv: usize = (d.convert - 400) / 320 + 1;
        if 2 * (cv + 1) < d.features {
            return Err("ContentVec frame mismatch".to_owned());
        }
        let prepare = plan_prepare(d);
        let flow_head: usize = if d.skip < DECODER_HEAD {
            0
        } else {
            d.skip - DECODER_HEAD
        };
        if d.features < flow_head {
            return Err("invalid generator flow length".to_owned());
        }
        proof {
            assert(0 <= d.ret * (rate as int / 100) <= 0x10_0000 * 480) by (nonlinear_arith)
                requires
                    0 <= d.ret <= 0x10_0000,
                    0 <= rate <= 48000,
            ;
        }
        let flow: usize = d.features - flow_head;
        let sine: usize = d.ret * (rate / 100);
        let noise = plan_noise(d, rate, flow, sine);
        let generator = plan_generator(d, rate, flow, sine, d.skip - flow_head);
        let formant = match ResampleInputs::new(d.scaled_window, rate / 100, d.trimmed, o.formant_width) {
            Ok(t) => t,
            Err(e) => {
                return Err(e);
            },
        };
        let output = match ResampleInputs::new(rate, o.sample_rate, o.model_samples, o.output_width) {
            Ok(t) => t,
            Err(e) => {
                return Err(e);
            },
        };
        if !(d.crossfade + d.search <= o.pre_sola_samples && d.search + (d.block + d.crossfade)
            <= o.pre_sola_samples) {
            return Err("post output is too short for SOLA".to_owned());
        }
        if d.crossfade <= 1 || d.crossfade > 192000 {
            return Err("invalid crossfade length".to_owned());
        }
        let post = plan_post(d, rate, o, formant, output);
        Ok(PipelinePlan { prepare, noise, generator, post })
    }
}

/// The labels of the ports of a stage.
pub open spec fn bound(s: StageValue, shared: Seq<Elem>) -> Seq<(Seq<char>, Elem)> {
    Seq::new(s.links.len(), |i: int| (s.links[i].0, shared[i])) + bound_ports(s.inputs) + bound_ports(
        s.outputs,
    )
}

pub open spec fn bound_ports(ports: Seq<PortValue>) -> Seq<(Seq<char>, Elem)> {
    Seq::new(ports.len(), |i: int| (ports[i].name, ports[i].elem))
}

/// What the stages are bound to are the ports of the contract, one for one: none is missing and none
/// is left over.
pub proof fn law_every_port_is_bound(d: Dims, rate: usize, o: Output, g: gpu_pre::Grid)
    ensures
        bound_ports(gpu_pre::pre_inputs(d, g)) + bound_ports(gpu_pre::pre_outputs(d, g))
            == pre_ports(),
        bound(prepare_stage(d), seq![Elem::Half, Elem::Single]) == prepare_ports(),
        bound(noise_stage(d, rate), seq![]) == noise_ports(),
        bound(post_stage(d, rate, o), seq![Elem::Single, Elem::Half]) == post_ports(),
{
    assert(bound_ports(gpu_pre::pre_inputs(d, g)) + bound_ports(gpu_pre::pre_outputs(d, g))
        =~= pre_ports());
    assert(bound(prepare_stage(d), seq![Elem::Half, Elem::Single]) =~= prepare_ports());
    assert(bound(noise_stage(d, rate), seq![]) =~= noise_ports());
    assert(bound(post_stage(d, rate, o), seq![Elem::Single, Elem::Half]) =~= post_ports());
}

proof fn lemma_double(n: int)
    ensures
        (2 * n) % 2 == 0,
{
}

/// Both kinds of random values come in even numbers, as the device makes them in pairs.
pub proof fn law_noise_is_even(d: Dims, rate: usize)
    requires
        startup::model_rate(rate),
        d.features >= generator::flow_head(lengths(d)),
    ensures
        generator::latent_count(lengths(d)) % 2 == 0,
        generator::sine_count(lengths(d), rate) % 2 == 0,
{
    let n = d.features - generator::flow_head(lengths(d));
    assert(generator::latent_count(lengths(d)) == 2 * (96 * n));
    lemma_double(96 * n);
    let half = d.ret * (rate as int / 200);
    assert(generator::sine_count(lengths(d), rate) == 2 * half) by {
        assert(rate as int / 100 == 2 * (rate as int / 200));
        assert(d.ret * (2 * (rate as int / 200)) == 2 * half) by (nonlinear_arith)
            requires
                half == d.ret * (rate as int / 200),
        ;
    }
    lemma_double(half);
}

/// Every entry of the tables lies in what is gathered from: the feature frames, the pitch behind the
/// cache, the cache, and the samples that are aligned.
pub proof fn law_tables_stay_inside(d: Dims, i: int)
    requires
        400 <= d.convert <= 0x1000_0000,
        d.silence_front <= d.convert,
        d.features <= 0x10_0000,
        0 <= i <= d.features,
        d.block + d.crossfade <= 0x4000_0000,
    ensures
        ({
            let s = prepare_stage(d);
            let cv = gpu_pitch::feature_frames(d.convert as int);
            &&& i < d.features ==> 0 <= s.tables[0].1[i] < cv
            &&& 0 <= s.tables[1].1[i] < raw_frames(d) + d.features + 1
            &&& i < d.features ==> 1 <= s.tables[2].1[i] < d.features + 1
        }),
{
}

/// The state of a pipeline between blocks.
pub struct GpuPipeline {
    block: usize,
    latent: usize,
    sine: usize,
    output: Vec<u32>,
    processed: bool,
    post_active: bool,
    failed: bool,
}

/// What a [`GpuPipeline`] holds.
pub struct PipelineValue {
    /// The last block, as bits of singles.
    pub output: Seq<u32>,
    /// Whether a block went through.
    pub processed: bool,
    /// Whether the last block was heard.
    pub post_active: bool,
    pub failed: bool,
}

impl View for GpuPipeline {
    type V = PipelineValue;

    closed spec fn view(&self) -> PipelineValue {
        PipelineValue {
            output: self.output@,
            processed: self.processed,
            post_active: self.post_active,
            failed: self.failed,
        }
    }
}

/// Why a block does not go through.
pub open spec fn block_fault(failed: bool, samples: Seq<u32>, block: int, pitch: u64, threshold_db: u64) -> Option<
    Seq<char>,
> {
    if failed {
        Some("failed GPU pipeline must be recreated"@)
    } else if !tg::good_output(samples, block) {
        Some("invalid audio block"@)
    } else if !tg::live_parameters(pitch, threshold_db) {
        Some("invalid live parameters"@)
    } else {
        None
    }
}

impl GpuPipeline {
    pub closed spec fn block_len(&self) -> int {
        self.block as int
    }

    /// The random values of a block: for the flow, and for the source.
    pub closed spec fn noise(&self) -> (int, int) {
        (self.latent as int, self.sine as int)
    }

    pub open spec fn same_sizes(&self, other: &GpuPipeline) -> bool {
        self.block_len() == other.block_len() && self.noise() == other.noise()
    }

    /// A pipeline before anything came in.
    pub fn new(d: &Dims, rate: usize) -> (r: GpuPipeline)
        requires
            startup::model_rate(rate),
            d.features <= 0x10_0000,
            d.ret <= 0x10_0000,
            d.features >= generator::flow_head(lengths(*d)),
        ensures
            r.block_len() == d.block,
            r.noise() == (
                generator::latent_count(lengths(*d)),
                generator::sine_count(lengths(*d), rate),
            ),
            r@ == (PipelineValue {
                output: Seq::new(d.block as nat, |i: int| 0u32),
                processed: false,
                post_active: false,
                failed: false,
            }),
    {
        let flow_head: usize = if d.skip < DECODER_HEAD {
            0
        } else {
            d.skip - DECODER_HEAD
        };
        proof {
            assert(0 <= d.ret * (rate as int / 100) <= 0x10_0000 * 480) by (nonlinear_arith)
                requires
                    0 <= d.ret <= 0x10_0000,
                    0 <= rate <= 48000,
            ;
        }
        GpuPipeline {
            block: d.block,
            latent: 192 * (d.features - flow_head),
            sine: d.ret * (rate / 100),
            output: zero_singles(d.block),
            processed: false,
            post_active: false,
            failed: false,
        }
    }

    /// The samples of a block.
    pub fn block_frames(&self) -> (r: usize)
        ensures
            r == self.block_len(),
    {
        self.block
    }

    /// Whether the pipeline can still be used: what seeding, resetting and preparing ask first.
    pub fn check(&self) -> (r: Result<(), String>)
        ensures
            if self@.failed {
                r matches Err(e) && e@ == "failed GPU pipeline must be recreated"@
            } else {
                r is Ok
            },
    {
        if self.failed {
            return Err("failed GPU pipeline must be recreated".to_owned());
        }
        Ok(())
    }

    /// The device was changed outside a block. Where that failed, no further block is taken.
    pub fn changed(&mut self, result: Result<(), String>) -> (r: Result<(), String>)
        ensures
            final(self).same_sizes(old(self)),
            r == result,
            final(self)@ == (PipelineValue { failed: old(self)@.failed || result is Err, ..old(self)@ }),
    {
        if result.is_err() {
            self.failed = true;
        }
        result
    }

    /// The device was emptied, or failed: the stream starts over.
    pub fn reset_stream_state(&mut self, result: Result<(), String>) -> (r: Result<(), String>)
        ensures
            final(self).same_sizes(old(self)),
            resets(old(self)@, old(self).block_len(), result, final(self)@, r),
    {
        if result.is_err() {
            self.failed = true;
        } else {
            self.output = zero_singles(self.block);
            self.processed = false;
            self.post_active = false;
        }
        result
    }

    /// Whether random values that were made elsewhere can be used.
    pub fn check_noise(&self, rnd: &[u32], sine_noise: &[u32]) -> (r: Result<(), String>)
        ensures
            if rnd@.len() == self.noise().0 && sine_noise@.len() == self.noise().1
                && generator::all_finite_singles(rnd@) && generator::all_finite_singles(sine_noise@) {
                r is Ok
            } else {
                r matches Err(e) && e@ == "invalid shared generator noise"@
            },
    {
        if rnd.len() == self.latent && sine_noise.len() == self.sine && are_finite_singles(rnd)
            && are_finite_singles(sine_noise) {
            Ok(())
        } else {
            Err("invalid shared generator noise".to_owned())
        }
    }

    /// Whether a block can be processed.
    pub fn process(&self, samples: &[u32], pitch: u64, threshold_db: u64) -> (r: Result<(), String>)
        ensures
            match block_fault(self@.failed, samples@, self.block_len(), pitch, threshold_db) {
                Some(text) => r matches Err(e) && e@ == text,
                None => r is Ok,
            },
    {
        if self.failed {
            return Err("failed GPU pipeline must be recreated".to_owned());
        }
        if !is_good_output(samples, self.block) {
            return Err("invalid audio block".to_owned());
        }
        check_live(pitch, threshold_db)
    }

    /// The loudness of the block is known: tells whether it is heard. Everything before this is done
    /// for a block that is not heard too.
    pub fn decide(&mut self, volume: u16, sensitivity: u32) -> (r: bool)
        ensures
            final(self).same_sizes(old(self)),
            r == tg::loud(volume, sensitivity),
            final(self)@ == (PipelineValue { post_active: r, ..old(self)@ }),
    {
        let active: bool = is_loud(volume, sensitivity);
        self.post_active = active;
        active
    }

    /// The block was read back, or the device failed. A failure, and a result that is not a finite
    /// block, end the pipeline.
    pub fn finish(&mut self, output: Result<Vec<u32>, String>) -> (r: Result<Vec<u32>, String>)
        ensures
            final(self).same_sizes(old(self)),
            finishes(old(self)@, old(self).block_len(), output, final(self)@, r),
    {
        match output {
            Ok(values) => {
                if !is_good_output(values.as_slice(), self.block) {
                    self.failed = true;
                    return Err("invalid converted output".to_owned());
                }
                self.output = copied(values.as_slice());
                self.processed = true;
                Ok(values)
            },
            Err(e) => {
                self.failed = true;
                Err(e)
            },
        }
    }

    /// What can be looked at after a block.
    pub fn observe(&self) -> (r: Result<Vec<Observed>, String>)
        ensures
            if self@.processed && !self@.failed {
                r matches Ok(xs) && observations(xs@) == observed(self@.post_active)
            } else {
                r matches Err(e) && e@ == "GPU observation requires a completed block"@
            },
    {
        if !self.processed || self.failed {
            return Err("GPU observation requires a completed block".to_owned());
        }
        let mut out: Vec<Observed> = Vec::new();
        assert(observations(out@) =~= seq![]);
        put_observed(&mut out, "audio16", Shape::Flat);
        put_observed(&mut out, "next_convert_buffer", Shape::Flat);
        put_observed(&mut out, "volume", Shape::Scalar);
        put_observed(&mut out, "cv_features", Shape::Rows(768));
        put_observed(&mut out, "rawf0", Shape::Flat);
        put_observed(&mut out, "mel", Shape::Channels(128));
        put_observed(&mut out, "salience", Shape::Rows(360));
        put_observed(&mut out, "features", Shape::Rows(768));
        put_observed(&mut out, "pitch", Shape::Frames);
        put_observed(&mut out, "pitchf", Shape::Frames);
        put_observed(&mut out, "pitch_buffer", Shape::Flat);
        put_observed(&mut out, "pitchf_buffer", Shape::Flat);
        put_observed(&mut out, "generated", Shape::Flat);
        put_observed(&mut out, "rnd", Shape::Flat);
        put_observed(&mut out, "sine_noise", Shape::Flat);
        if self.post_active {
            put_observed(&mut out, "audio_model", Shape::Flat);
            put_observed(&mut out, "pre_sola", Shape::Flat);
        }
        put_observed(&mut out, "output", Shape::Flat);
        if self.post_active {
            put_observed(&mut out, "sola_offset", Shape::Scalar);
        }
        put_observed(&mut out, "next_sola_buffer", Shape::Flat);
        assert(observations(out@) =~= observed(self.post_active));
        Ok(out)
    }
}

/// How a value that is looked at is laid out.
#[derive(Clone, Copy, PartialEq, Eq, Structural)]
pub enum Shape {
    Scalar,
    /// All values in a row.
    Flat,
    /// One row of as many rows of `n` values as there are.
    Rows(usize),
    /// One row of `n` rows.
    Channels(usize),
    /// One row.
    Frames,
}

impl Shape {
    /// The shape of `len` values.
    pub open spec fn of(self, len: usize) -> Seq<usize> {
        match self {
            Shape::Scalar => Seq::empty(),
            Shape::Flat => seq![len],
            Shape::Rows(n) => seq![1, (len as int / n as int) as usize, n],
            Shape::Channels(n) => seq![1, n, (len as int / n as int) as usize],
            Shape::Frames => seq![1, len],
        }
    }

    /// The shape of `len` values.
    pub fn dimensions(&self, len: usize) -> (r: Vec<usize>)
        requires
            self matches Shape::Rows(n) ==> n > 0,
            self matches Shape::Channels(n) ==> n > 0,
        ensures
            r@ == self.of(len),
    {
        match self {
            Shape::Scalar => shape0(),
            Shape::Flat => shape1(len),
            Shape::Rows(n) => shape3(1, len / *n, *n),
            Shape::Channels(n) => shape3(1, *n, len / *n),
            Shape::Frames => shape2(1, len),
        }
    }
}

/// A value that is looked at.
pub struct Observed {
    pub name: String,
    pub shape: Shape,
}

impl View for Observed {
    type V = (Seq<char>, Shape);

    open spec fn view(&self) -> (Seq<char>, Shape) {
        (self.name@, self.shape)
    }
}

pub open spec fn observations(xs: Seq<Observed>) -> Seq<(Seq<char>, Shape)> {
    Seq::new(xs.len(), |i: int| xs[i]@)
}

fn put_observed(out: &mut Vec<Observed>, name: &str, shape: Shape)
    ensures
        observations(final(out)@) == observations(old(out)@).push((name@, shape)),
{
    out.push(Observed { name: name.to_owned(), shape });
    assert(observations(out@) =~= observations(old(out)@).push((name@, shape)));
}

/// What can be looked at after a block. What only a block that is heard makes is left out of one that
/// is not: the buffers still hold an older one.
pub open spec fn observed(post_active: bool) -> Seq<(Seq<char>, Shape)> {
    let heard = |xs: Seq<(Seq<char>, Shape)>|
        if post_active {
            xs
        } else {
            Seq::empty()
        };
    seq![
        ("audio16"@, Shape::Flat),
        ("next_convert_buffer"@, Shape::Flat),
        ("volume"@, Shape::Scalar),
        ("cv_features"@, Shape::Rows(768)),
        ("rawf0"@, Shape::Flat),
        ("mel"@, Shape::Channels(128)),
        ("salience"@, Shape::Rows(360)),
        ("features"@, Shape::Rows(768)),
        ("pitch"@, Shape::Frames),
        ("pitchf"@, Shape::Frames),
        ("pitch_buffer"@, Shape::Flat),
        ("pitchf_buffer"@, Shape::Flat),
        ("generated"@, Shape::Flat),
        ("rnd"@, Shape::Flat),
        ("sine_noise"@, Shape::Flat),
    ] + heard(seq![("audio_model"@, Shape::Flat), ("pre_sola"@, Shape::Flat)]) + seq![
        ("output"@, Shape::Flat),
    ] + heard(seq![("sola_offset"@, Shape::Scalar)]) + seq![("next_sola_buffer"@, Shape::Flat)]
}

/// A port is written as its name and the type of its elements.
pub proof fn law_ports_are_labelled(name: Seq<char>)
    ensures
        label((name, Elem::Half)) == name + ":"@ + "float16"@,
        label((name, Elem::Single)) == name + ":"@ + "float32"@,
        label((name, Elem::Long)) == name + ":"@ + "int64"@,
        label((name, Elem::Flag)) == name + ":"@ + "bool"@,
        graph_name(Graph::Pre) == "pre"@ && graph_name(Graph::Prepare) == "prepare"@ && graph_name(
            Graph::Post,
        ) == "post"@ && graph_name(Graph::Noise) == "noise"@,
        graph_labels(Graph::Pre).len() == 25 && graph_labels(Graph::Prepare).len() == 14 && graph_labels(
            Graph::Post,
        ).len() == 22 && graph_labels(Graph::Noise).len() == 4,
{
}

proof fn lemma_all_named(ports: Seq<JsonValue>)
    ensures
        unnamed(ports) is None <==> forall|i: int|
            0 <= i < ports.len() ==> named_port(#[trigger] ports[i]) is Ok,
    decreases ports.len(),
{
    if ports.len() > 0 {
        lemma_all_named(ports.skip(1));
        assert forall|i: int| 1 <= i < ports.len() implies ports.skip(1)[i - 1] == #[trigger] ports[i] by {}
        if unnamed(ports) is None {
            assert forall|i: int| 0 <= i < ports.len() implies named_port(#[trigger] ports[i]) is Ok by {
                if i > 0 {
                    assert(named_port(ports.skip(1)[i - 1]) is Ok);
                }
            }
        }
        if forall|i: int| 0 <= i < ports.len() ==> named_port(#[trigger] ports[i]) is Ok {
            assert(named_port(ports[0]) is Ok);
            assert forall|i: int| 0 <= i < ports.skip(1).len() implies named_port(
                #[trigger] ports.skip(1)[i],
            ) is Ok by {
                assert(named_port(ports[i + 1]) is Ok);
            }
        }
    }
}

/// A graph is taken exactly where the contract names its file and its hash, and names its ports one for one,
/// inputs before outputs, each with the type that it has here.
pub proof fn law_graphs_under_contract_are_taken(c: JsonValue, g: Graph, contents: Seq<u8>)
    ensures
        ({
            let entry = json::member(json::member(c, "graphs"@), graph_name(g));
            let ports = entries(json::member(entry, "inputs"@)) + entries(json::member(entry, "outputs"@));
            graph_fault(c, g, contents) is None <==> {
                &&& json::member(entry, "file"@) == JsonValue::Text(graph_name(g) + ".onnx"@)
                &&& json::member(entry, "sha256"@) == JsonValue::Text(
                    text::hex_of(voice_model::sha256(contents)),
                )
                &&& ports.len() == graph_ports(g).len()
                &&& forall|i: int|
                    0 <= i < ports.len() ==> {
                        &&& json::member(#[trigger] ports[i], "name"@) is Text
                        &&& json::member(ports[i], "dtype"@) is Text
                        &&& json::member(ports[i], "name"@)->Text_0 + ":"@ + json::member(
                            ports[i],
                            "dtype"@,
                        )->Text_0 == graph_ports(g)[i].0 + ":"@ + elem_name(graph_ports(g)[i].1)
                    }
            }
        }),
{
    let ports = contract_ports(c, g);
    lemma_all_named(ports);
    if graph_fault(c, g, contents) is None {
        assert forall|i: int| 0 <= i < ports.len() implies {
            &&& json::member(#[trigger] ports[i], "name"@) is Text
            &&& json::member(ports[i], "dtype"@) is Text
            &&& json::member(ports[i], "name"@)->Text_0 + ":"@ + json::member(
                ports[i],
                "dtype"@,
            )->Text_0 == graph_ports(g)[i].0 + ":"@ + elem_name(graph_ports(g)[i].1)
        } by {
            assert(named_port(ports[i]) == Ok::<Seq<char>, Seq<char>>(graph_labels(g)[i]));
        }
    }
}

/// A contract is supported by its schema, algorithm, opset and fixed shapes, without the library of the
/// training at run time.
pub proof fn law_supported_contracts(c: JsonValue)
    ensures
        contract_supported(c) <==> {
            &&& json::member(c, "schema"@) == JsonValue::Natural(1)
            &&& json::member(c, "algorithm"@) == JsonValue::Text("tg-full-gpu-pipeline-v1"@)
            &&& json::member(c, "opset"@) == JsonValue::Natural(18)
            &&& json::member(c, "fixed_shape"@) == JsonValue::Bool(true)
            &&& json::member(c, "runtime_torch_dependency"@) == JsonValue::Bool(false)
        },
{
}

/// The pitch is estimated every 160 samples of its window; a feature serves two frames, and the last one all that
/// are left. The caches take their newest values, and the generator all but the oldest.
pub proof fn law_prepared_in_order(d: Dims, i: int)
    requires
        400 <= d.convert <= 0x1000_0000,
        d.silence_front <= d.convert,
        d.features <= 0x10_0000,
        0 <= i < d.features,
    ensures
        ({
            let s = prepare_stage(d);
            let cv = s.dimensions[0].1;
            let raw = s.dimensions[1].1;
            &&& (raw - 1) * 160 <= d.convert - d.silence_front < raw * 160
            &&& (cv - 1) * 320 + 400 <= d.convert < cv * 320 + 400
            &&& s.dimensions[2].1 == d.features + 1 && s.dimensions[3].1 == d.features
            &&& s.dimensions[0].0 == "cv_frames"@ && s.dimensions[1].0 == "raw_f0_frames"@
                && s.dimensions[2].0 == "cache_frames"@ && s.dimensions[3].0 == "feature_frames"@
            &&& s.tables[0].0 == "feature_index"@ && s.tables[0].1.len() == d.features
            &&& i < 2 * cv ==> s.tables[0].1[i] == i / 2
            &&& i >= 2 * cv ==> s.tables[0].1[i] == cv - 1
            &&& s.tables[1].0 == "pitch_cache_index"@ && s.tables[1].1.len() == d.features + 1
                && s.tables[1].1[i] == raw + i
            &&& s.tables[2].0 == "generator_pitch_index"@ && s.tables[2].1.len() == d.features
                && s.tables[2].1[i] == i + 1
            &&& s.inputs[0].shape.len() == 1 && s.inputs[0].shape[0] == d.features + 1 && s.inputs[1].shape
                == s.inputs[0].shape && s.inputs[5].shape == s.inputs[0].shape
            &&& s.inputs[2].shape.len() == 0 && s.inputs[3].shape.len() == 0
            &&& s.inputs[4].shape == seq![d.features] && s.inputs[6].shape == seq![d.features]
            &&& s.outputs[0].shape == seq![1, d.features, 768]
            &&& s.outputs[1].shape == seq![1, d.features] && s.outputs[2].shape == seq![1, d.features]
            &&& s.outputs[3].shape == s.inputs[0].shape && s.outputs[4].shape == s.inputs[1].shape
            &&& s.links == seq![
                ("cv_features"@, Producer::Features, "unit12"@),
                ("raw_f0"@, Producer::Pitch, "f0"@),
            ]
        }),
{
}

/// The noise has the shape that the generator takes: 192 values for every frame that the decoder sees, and one
/// for every sample that it makes. The generator takes what the stages before it made under the same names.
pub proof fn law_generator_takes_what_is_made(d: Dims, rate: usize, i: int)
    requires
        generator::lengths_valid(lengths(d)),
        startup::model_rate(rate),
    ensures
        ({
            let s = noise_stage(d, rate);
            let g = generator_stage(d, rate);
            let head = if d.skip >= 24 {
                24int
            } else {
                d.skip as int
            };
            &&& s.outputs[0].shape.len() == 3 && s.outputs[0].shape[1] == 192 && s.outputs[0].shape[2]
                == d.ret + head
            &&& s.outputs[1].shape.len() == 3 && s.outputs[1].shape[1] * 100 == d.ret * rate
            &&& s.inputs[0].shape == s.outputs[0].shape && s.inputs[1].shape == s.outputs[1].shape
            &&& s.dimensions[0].1 == d.ret + head && s.dimensions[1].1 == s.outputs[1].shape[1]
            &&& s.outputs[0].shape == generator::runner_inputs(lengths(d), rate)[3].shape
            &&& s.outputs[1].shape == generator::runner_inputs(lengths(d), rate)[4].shape
            &&& g.links.len() == 5 && (0 <= i < 5 ==> g.links[i].0 == g.links[i].2 && (g.links[i].1
                is Noise <==> i >= 3) && (g.links[i].1 is Prepare <==> i < 3))
            &&& g.links[0].0 == "features"@ && g.links[1].0 == "pitch"@ && g.links[2].0 == "pitchf"@
                && g.links[3].0 == "rnd"@ && g.links[4].0 == "sine_noise"@
            &&& g.inputs[0].name == "n_res"@ && g.inputs[0].shape == seq![1, d.formant_length]
            &&& g.inputs[1].name == "n_head"@ && g.inputs[1].shape.len() == 2 && g.inputs[1].shape[1]
                == head
            &&& g.outputs.len() == 1 && g.outputs[0].name == "generated"@ && g.outputs[0].shape == seq![
                d.generated,
            ]
        }),
{
    generator::law_decoder_sees_a_head(lengths(d), rate);
    generator::law_ports_fit_the_dimensions(lengths(d), rate);
    let q = rate as int / 100;
    let n = d.ret as int;
    assert(n * q <= 100000 * 480) by (nonlinear_arith)
        requires
            0 <= n <= 100000,
            0 <= q <= 480,
    ;
}

/// Between equal rates every sample is taken once, as it is; between others each frame takes its taps in order.
pub proof fn law_resampled_in_order(source: usize, target: usize, samples: usize, width: usize, frame: int, tap: int)
    requires
        resample_fault(source, target, samples, width) is None,
        width <= 10_000_000,
    ensures
        ({
            let (phases, taps, frames) = resample_shape(source, target, samples, width);
            let t = resample_table(source, target, samples, width);
            let stride = taps - 2 * width;
            &&& 0 < source <= 192000 && 0 < target <= 192000 && 0 < samples <= 1_000_000
            &&& t.len() == frames * taps
            &&& source == target ==> phases == 1 && taps == 1 && frames == samples && (0 <= frame < samples
                ==> t[frame] == frame + 1)
            &&& source != target ==> phases * source == stride * target && phases * taps <= 16_000_000
                && frames * taps <= 16_000_000 && stride * (frames - 1) <= samples < stride * frames
            &&& source != target && 0 <= frame < frames && 0 <= tap < taps ==> {
                let place = frame * stride + tap - width;
                &&& 0 <= place < samples ==> t[frame * taps + tap] == place + 1
                &&& place < 0 || place >= samples ==> t[frame * taps + tap] == 0
            }
        }),
{
    if source != target {
        startup::law_resampling_sizes(source, target, samples, width);
        let (phases, taps, frames) = startup::resample_size(source, target, samples, width);
        let stride = taps - 2 * width;
        let n = samples as int;
        assert(1 <= frames <= 1_000_001) by (nonlinear_arith)
            requires
                stride * (frames - 1) <= n < stride * frames,
                0 < stride,
                0 < n <= 1_000_000,
        ;
        if 0 <= frame < frames && 0 <= tap < taps {
            startup::law_taps_are_samples_in_order(stride, width as int, n, frames, frame, tap);
        }
    }
}

/// The last stage is made for the sizes of the path, hands out one block and keeps a crossfade for the next, which
/// stands right behind it. It looks for the best joint over the search behind the crossfade.
pub proof fn law_block_and_what_follows(d: Dims, rate: usize, o: Output, i: int)
    requires
        d.block <= 0x1000_0000,
        d.crossfade <= 0x1000_0000,
        d.search <= 0x1000_0000,
        o.model_samples <= i64::MAX,
        o.pre_sola_samples <= i64::MAX,
    ensures
        ({
            let s = post_stage(d, rate, o);
            let e = s.dimensions;
            let t = s.tables;
            let p = s.inputs;
            &&& e[0].0 == "generated_samples"@ && e[0].1 == d.generated
            &&& e[1].0 == "crossfade_samples"@ && e[1].1 == d.crossfade
            &&& e[5].0 == "model_samples"@ && e[5].1 == o.model_samples
            &&& e[9].0 == "pre_sola_samples"@ && e[9].1 == o.pre_sola_samples
            &&& e[10].0 == "sola_search_samples"@ && e[10].1 == d.crossfade + d.search
            &&& e[11].0 == "alignment_samples"@ && e[11].1 == d.block + d.crossfade
            &&& e[12].0 == "block_samples"@ && e[12].1 == d.block
            &&& e[2].0 == "formant_phases"@ && e[3].0 == "formant_taps"@ && e[4].0 == "formant_frames"@
            &&& e[6].0 == "output_phases"@ && e[7].0 == "output_taps"@ && e[8].0 == "output_frames"@
            &&& p[1].shape == seq![e[2].1 as usize, e[3].1 as usize] && p[2].shape == seq![
                e[4].1 as usize,
                e[3].1 as usize,
            ]
            &&& p[4].shape == seq![e[6].1 as usize, e[7].1 as usize] && p[5].shape == seq![
                e[8].1 as usize,
                e[7].1 as usize,
            ]
            &&& t[0].0 == p[2].name && t[1].0 == p[3].name && t[2].0 == p[5].name && t[3].0 == p[6].name
            &&& t[4].0 == p[7].name && t[5].0 == p[9].name && t[6].0 == p[10].name && t[7].0 == p[13].name
                && t[8].0 == p[14].name
            &&& p[3].shape == seq![t[1].1.len() as usize] && p[6].shape == seq![t[3].1.len() as usize]
            &&& p[7].shape == seq![t[4].1.len() as usize] && p[9].shape == seq![t[5].1.len() as usize]
            &&& p[10].shape == seq![t[6].1.len() as usize] && p[13].shape == seq![t[7].1.len() as usize]
                && p[14].shape == seq![t[8].1.len() as usize]
            &&& p[11].shape == p[9].shape && p[12].shape == p[9].shape
            &&& p[0].shape == seq![d.crossfade] && p[8].shape == p[0].shape
            &&& 0 <= i < o.model_samples ==> t[1].1[i] == i
            &&& 0 <= i < o.pre_sola_samples ==> t[3].1[i] == i
            &&& t[4].1.len() == d.crossfade + d.search && (0 <= i < t[4].1.len() ==> t[4].1[i] == i)
            &&& t[5].1.len() == d.block + d.crossfade && (0 <= i < t[5].1.len() ==> t[5].1[i] == i)
            &&& t[6].1.len() == d.block + d.crossfade
            &&& 0 <= i < d.crossfade ==> t[6].1[i] == i
            &&& d.crossfade <= i < d.block + d.crossfade ==> t[6].1[i] == 0
            &&& t[7].1.len() == d.block && (0 <= i < d.block ==> t[7].1[i] == i)
            &&& t[8].1.len() == d.crossfade && (0 <= i < d.crossfade ==> t[8].1[i] == d.block + i)
            &&& s.outputs[0].shape == seq![o.model_samples] && s.outputs[1].shape == seq![
                o.pre_sola_samples,
            ] && s.outputs[2].shape.len() == 0
            &&& s.outputs[3].shape == seq![d.block] && s.outputs[4].shape == p[0].shape
            &&& s.links == seq![
                ("generated"@, Producer::Generator, "generated"@),
                ("volume"@, Producer::Pre, "volume"@),
            ]
        }),
{
}

/// The resamplings of the last stage go from the scaled window to a hundredth of a second of the model, and from
/// the rate of the model to that of the device.
pub proof fn law_output_is_resampled_twice(d: Dims, rate: usize, o: Output)
    requires
        startup::model_rate(rate),
        resample_fault(d.scaled_window, (rate as int / 100) as usize, d.trimmed, o.formant_width) is None,
        resample_fault(rate, o.sample_rate, o.model_samples, o.output_width) is None,
        d.scaled_window * 100 != rate,
        rate != o.sample_rate,
    ensures
        ({
            let e = post_stage(d, rate, o).dimensions;
            let formant = e[3].1 - 2 * o.formant_width;
            let output = e[7].1 - 2 * o.output_width;
            &&& e[2].1 * d.scaled_window * 100 == formant * rate
            &&& formant * (e[4].1 - 1) <= d.trimmed < formant * e[4].1
            &&& e[6].1 * rate == output * o.sample_rate
            &&& output * (e[8].1 - 1) <= o.model_samples < output * e[8].1
        }),
{
    let frame = (rate as int / 100) as usize;
    startup::law_resampling_sizes(d.scaled_window, frame, d.trimmed, o.formant_width);
    startup::law_resampling_sizes(rate, o.sample_rate, o.model_samples, o.output_width);
    let e = post_stage(d, rate, o).dimensions;
    let formant = e[3].1 - 2 * o.formant_width;
    let f = frame as int;
    assert(e[2].1 * d.scaled_window == formant * f);
    assert(formant * f * 100 == formant * (f * 100)) by (nonlinear_arith);
}

/// A plan is made exactly where the pitch window takes from 190 ms to 10 s, there are enough features for the
/// frames, both resamplings are within bounds, the output reaches beyond the search, and the crossfade takes from
/// 2 to 192000 samples.
pub proof fn law_good_plans_are_made(d: Dims, rate: usize, o: Output)
    requires
        d.silence_front <= d.convert,
    ensures
        plan_fault(d, rate, o) is None <==> {
            &&& 3040 <= d.convert - d.silence_front <= 160000
            &&& d.features <= 2 * ((d.convert - 400) / 320 + 2)
            &&& d.skip <= d.features + 24
            &&& resample_fault(d.scaled_window, (rate as int / 100) as usize, d.trimmed, o.formant_width) is None
            &&& resample_fault(rate, o.sample_rate, o.model_samples, o.output_width) is None
            &&& d.search + d.block + d.crossfade <= o.pre_sola_samples
            &&& 2 <= d.crossfade <= 192000
        },
{
}

/// A block is converted exactly where the pipeline has not failed, the block is whole and finite, and the pitch is
/// within 48 semitones and the threshold within 120 dB.
pub proof fn law_good_blocks_are_converted(failed: bool, samples: Seq<u32>, block: int, pitch: int, threshold_db: int)
    requires
        -1000 <= pitch <= 1000,
        -1000 <= threshold_db <= 1000,
    ensures
        block_fault(
            failed,
            samples,
            block,
            crate::bits::exact_double(pitch) as u64,
            crate::bits::exact_double(threshold_db) as u64,
        ) is None <==> {
            &&& !failed
            &&& samples.len() == block
            &&& forall|i: int| 0 <= i < samples.len() ==> #[trigger] samples[i] % 0x8000_0000 < 0x7f80_0000
            &&& -48 <= pitch <= 48
            &&& -120 <= threshold_db <= 0
        },
{
    crate::bits::law_integers_lie_between(pitch, -48, 48);
    crate::bits::law_integers_lie_between(threshold_db, -120, 0);
}

/// A shape holds the values that it is made for, each once.
pub proof fn law_shapes_hold_their_values(len: usize, n: usize, rows: usize)
    requires
        n > 0,
        len == rows * n,
    ensures
        Shape::Scalar.of(len).len() == 0,
        Shape::Flat.of(len) == seq![len],
        Shape::Frames.of(len) == seq![1, len],
        Shape::Rows(n).of(len) == seq![1, rows, n],
        Shape::Channels(n).of(len) == seq![1, n, rows],
{
    vstd::arithmetic::div_mod::lemma_fundamental_div_mod_converse(len as int, n as int, rows as int, 0);
}

/// What is observed of a block: the same in the same order whether it was heard or not, but that what joins it
/// is there only where it was.
pub proof fn law_unheard_blocks_are_not_joined(i: int)
    ensures
        observed(true).len() == 20 && observed(false).len() == 17,
        0 <= i < 15 ==> observed(true)[i] == observed(false)[i],
        observed(true)[15] == ("audio_model"@, Shape::Flat) && observed(true)[16] == (
            "pre_sola"@,
            Shape::Flat,
        ) && observed(true)[18] == ("sola_offset"@, Shape::Scalar),
        observed(true)[17] == observed(false)[15] && observed(true)[17] == ("output"@, Shape::Flat),
        observed(true)[19] == observed(false)[16] && observed(true)[19] == (
            "next_sola_buffer"@,
            Shape::Flat,
        ),
        observed(true)[3] == ("cv_features"@, Shape::Rows(768)) && observed(true)[5] == (
            "mel"@,
            Shape::Channels(128),
        ) && observed(true)[6] == ("salience"@, Shape::Rows(360)) && observed(true)[7] == (
            "features"@,
            Shape::Rows(768),
        ),
        observed(true)[8].1 is Frames && observed(true)[9].1 is Frames && observed(true)[2].1 is Scalar,
{
}

/// Whether the stream starts over so, the device having been emptied or failed.
pub open spec fn resets(
    before: PipelineValue,
    block: int,
    result: Result<(), String>,
    after: PipelineValue,
    r: Result<(), String>,
) -> bool {
    &&& r == result
    &&& match result {
        Ok(_) => after == (PipelineValue {
            output: Seq::new(block as nat, |i: int| 0u32),
            processed: false,
            post_active: false,
            failed: before.failed,
        }),
        Err(_) => after == (PipelineValue { failed: true, ..before }),
    }
}

/// Whether a block is finished so: handed out and kept where the device gave a finite block.
pub open spec fn finishes(
    before: PipelineValue,
    block: int,
    output: Result<Vec<u32>, String>,
    after: PipelineValue,
    r: Result<Vec<u32>, String>,
) -> bool {
    match output {
        Ok(values) => if tg::good_output(values@, block) {
            &&& r == Ok::<Vec<u32>, String>(values)
            &&& after == (PipelineValue { output: values@, processed: true, ..before })
        } else {
            &&& r matches Err(e)
            &&& e@ == "invalid converted output"@
            &&& after == (PipelineValue { failed: true, ..before })
        },
        Err(e) => {
            &&& r == Err::<Vec<u32>, String>(e)
            &&& after == (PipelineValue { failed: true, ..before })
        },
    }
}

/// What comes out whole and finite is handed on as it is and kept; anything else ends the pipeline, which keeps
/// what it last gave.
pub proof fn law_output_is_handed_on(
    before: PipelineValue,
    block: int,
    output: Result<Vec<u32>, String>,
    after: PipelineValue,
    r: Result<Vec<u32>, String>,
)
    requires
        finishes(before, block, output, after, r),
    ensures
        r is Ok <==> output is Ok && output->Ok_0@.len() == block && forall|i: int|
            0 <= i < output->Ok_0@.len() ==> #[trigger] output->Ok_0@[i] % 0x8000_0000 < 0x7f80_0000,
        r is Ok ==> r == output && after.output == output->Ok_0@ && after.processed && after.failed
            == before.failed,
        r is Err ==> after.failed && after.output == before.output && after.processed == before.processed,
        after.post_active == before.post_active,
        output is Err ==> r == output,
{
}

/// A stream that starts over has played silence and no block; a failure is not undone by it.
pub proof fn law_starts_over_in_silence(
    before: PipelineValue,
    block: int,
    result: Result<(), String>,
    after: PipelineValue,
    r: Result<(), String>,
)
    requires
        0 <= block,
        resets(before, block, result, after, r),
    ensures
        r is Ok == result is Ok,
        r is Ok ==> !after.processed && !after.post_active && after.output.len() == block && forall|i: int|
            0 <= i < block ==> #[trigger] after.output[i] == 0,
        after.failed <==> before.failed || result is Err,
{
}

} // verus!
