//! The generator: which lengths it takes, what its graph is bound to, and when a call of it goes
//! through.
use crate::bits::{is_finite_half, is_finite_single};
use crate::json::{parse_document, Json, JsonValue};
use crate::plan::{put_dimension, put_port, shape2, shape3, Dimension, Elem, Port, PortValue};
use crate::{bits, json, plan, startup};
use vstd::prelude::*;
use vstd::string::*;

verus! {

broadcast use vstd::string::group_string_axioms;

/// The lengths of a call: the frames that come in, those that are skipped, those that are returned,
/// and as how many the formant shift returns them.
#[derive(Clone, Copy, PartialEq, Eq, Structural)]
pub struct Lengths {
    pub frames: usize,
    pub skip: usize,
    pub ret: usize,
    pub formant: usize,
}

/// Whether a generator takes the lengths: some frames are skipped, and all others returned.
pub open spec fn lengths_valid(l: Lengths) -> bool {
    &&& l.frames <= 100000
    &&& l.skip > 0
    &&& l.frames > l.skip
    &&& l.ret == l.frames - l.skip
    &&& 1 <= l.formant <= 100000
}

/// Whether a generator takes the lengths.
pub fn valid_lengths(frames: usize, skip: usize, ret: usize, formant: usize) -> (r: bool)
    ensures
        r == lengths_valid(Lengths { frames, skip, ret, formant }),
{
    frames <= 100000 && skip > 0 && frames > skip && ret == frames - skip && formant >= 1 && formant
        <= 100000
}

/// The frames before the returned ones that the decoder sees.
pub const DECODER_HEAD: usize = 24;

/// The frames that do not reach the flow.
pub open spec fn flow_head(l: Lengths) -> int {
    startup::less(l.skip as int, DECODER_HEAD as int)
}

/// The random values of the flow.
pub open spec fn latent_count(l: Lengths) -> int {
    192 * (l.frames - flow_head(l))
}

/// The random values of the source.
pub open spec fn sine_count(l: Lengths, rate: usize) -> int {
    l.ret * (rate as int / 100)
}

/// What the graph of a generator is bound to.
pub struct RunnerPlan {
    pub dimensions: Vec<Dimension>,
    pub inputs: Vec<Port>,
    pub output_len: usize,
}

/// Whether a graph can be made for the lengths.
pub open spec fn runnable(l: Lengths) -> bool {
    l.frames > l.skip && l.ret == l.frames - l.skip && l.skip - flow_head(l) > 0 && l.formant > 0
}

/// The sizes of the graph's dimensions.
pub open spec fn runner_dimensions(l: Lengths, rate: usize) -> Seq<(Seq<char>, int)> {
    seq![
        ("p_len"@, l.frames as int),
        ("flow_len"@, l.frames - flow_head(l)),
        ("sine_len"@, sine_count(l, rate)),
        ("ret2_len"@, l.formant as int),
        ("dec_head"@, l.skip - flow_head(l)),
    ]
}

/// The inputs of the graph in their order.
pub open spec fn runner_inputs(l: Lengths, rate: usize) -> Seq<PortValue> {
    seq![
        PortValue { name: "features"@, elem: Elem::Half, shape: seq![1, l.frames, 768] },
        PortValue { name: "pitch"@, elem: Elem::Long, shape: seq![1, l.frames] },
        PortValue { name: "pitchf"@, elem: Elem::Half, shape: seq![1, l.frames] },
        PortValue {
            name: "rnd"@,
            elem: Elem::Half,
            shape: seq![1, 192, (l.frames - flow_head(l)) as usize],
        },
        PortValue {
            name: "sine_noise"@,
            elem: Elem::Half,
            shape: seq![1, sine_count(l, rate) as usize, 1],
        },
        PortValue { name: "n_res"@, elem: Elem::Single, shape: seq![1, l.formant] },
        PortValue {
            name: "n_head"@,
            elem: Elem::Single,
            shape: seq![1, (l.skip - flow_head(l)) as usize],
        },
    ]
}

/// What the graph is bound to, or why there is none for the lengths.
pub fn runner_plan(l: &Lengths, rate: usize) -> (r: Result<RunnerPlan, String>)
    requires
        startup::model_rate(rate),
        l.frames <= 100000,
        l.formant <= 100000,
    ensures
        if runnable(*l) {
            &&& r matches Ok(p)
            &&& plan::dimensions(p.dimensions@) == runner_dimensions(*l, rate)
            &&& plan::ports(p.inputs@) == runner_inputs(*l, rate)
            &&& p.output_len == l.formant * (rate as int / 100)
        } else {
            r matches Err(e) && e@ == "invalid generator dimensions"@
        },
{
    let head: usize = if l.skip < DECODER_HEAD {
        0
    } else {
        l.skip - DECODER_HEAD
    };
    let seen: usize = l.skip - head;
    if !(l.frames > l.skip && l.ret == l.frames - l.skip && seen > 0 && l.formant > 0) {
        return Err("invalid generator dimensions".to_owned());
    }
    let upp: usize = rate / 100;
    proof {
        lemma_products(l.ret as int, upp as int);
        lemma_products(l.formant as int, upp as int);
    }
    let sine: usize = l.ret * upp;
    let mut dimensions: Vec<Dimension> = Vec::new();
    assert(plan::dimensions(dimensions@) =~= seq![]);
    put_dimension(&mut dimensions, "p_len", l.frames);
    put_dimension(&mut dimensions, "flow_len", l.frames - head);
    put_dimension(&mut dimensions, "sine_len", sine);
    put_dimension(&mut dimensions, "ret2_len", l.formant);
    put_dimension(&mut dimensions, "dec_head", seen);
    let mut inputs: Vec<Port> = Vec::new();
    assert(plan::ports(inputs@) =~= seq![]);
    put_port(&mut inputs, "features", Elem::Half, shape3(1, l.frames, 768));
    put_port(&mut inputs, "pitch", Elem::Long, shape2(1, l.frames));
    put_port(&mut inputs, "pitchf", Elem::Half, shape2(1, l.frames));
    put_port(&mut inputs, "rnd", Elem::Half, shape3(1, 192, l.frames - head));
    put_port(&mut inputs, "sine_noise", Elem::Half, shape3(1, sine, 1));
    put_port(&mut inputs, "n_res", Elem::Single, shape2(1, l.formant));
    put_port(&mut inputs, "n_head", Elem::Single, shape2(1, seen));
    Ok(RunnerPlan { dimensions, inputs, output_len: l.formant * upp })
}

proof fn lemma_products(n: int, upp: int)
    requires
        0 <= n <= 100000,
        0 <= upp <= 480,
    ensures
        0 <= n * upp <= 48_000_000,
{
    assert(0 <= n * upp <= 48_000_000) by (nonlinear_arith)
        requires
            0 <= n <= 100000,
            0 <= upp <= 480,
    ;
}

/// Why a model directory cannot be used: its description, the rate that is asked for, and whether
/// the graph is there.
pub open spec fn model_fault(metadata: JsonValue, rate: usize, present: bool) -> Option<Seq<char>> {
    if json::member(metadata, "generator_kind"@) != JsonValue::Text("deiteris-onnx-v1"@) {
        Some("requires converted deiteris-onnx-v1 model"@)
    } else if !(startup::model_rate(rate) && json::member(metadata, "model_sr"@)
        == JsonValue::Natural(rate as u64) && json::member(metadata, "inter_channels"@)
        == JsonValue::Natural(192) && json::member(metadata, "half"@) == JsonValue::Bool(true)) {
        Some("incompatible generator model"@)
    } else if !present {
        Some("missing generator graph"@)
    } else {
        None
    }
}

/// Checks the description of a model directory.
pub fn validate_model(metadata: &Json, rate: usize, present: bool) -> (r: Result<(), String>)
    ensures
        match model_fault(metadata@, rate, present) {
            Some(text) => r matches Err(e) && e@ == text,
            None => r is Ok,
        },
{
    if !metadata.has_text("generator_kind", "deiteris-onnx-v1") {
        return Err("requires converted deiteris-onnx-v1 model".to_owned());
    }
    if !((rate == 32000 || rate == 40000 || rate == 48000) && metadata.has_number(
        "model_sr",
        rate as u64,
    ) && metadata.has_number("inter_channels", 192) && metadata.has_true("half")) {
        return Err("incompatible generator model".to_owned());
    }
    if !present {
        return Err("missing generator graph".to_owned());
    }
    Ok(())
}

/// A generator between calls.
pub struct Generator {
    rate: usize,
    graph: bool,
    opened: Option<Lengths>,
    failed: bool,
}

/// What a [`Generator`] holds.
pub struct GeneratorValue {
    pub rate: usize,
    /// Whether the graph is captured once and replayed.
    pub graph: bool,
    /// The lengths that the graph was made for.
    pub opened: Option<Lengths>,
    pub failed: bool,
}

impl View for Generator {
    type V = GeneratorValue;

    closed spec fn view(&self) -> GeneratorValue {
        GeneratorValue {
            rate: self.rate,
            graph: self.graph,
            opened: self.opened,
            failed: self.failed,
        }
    }
}

/// The inputs of a call. Halves are bits.
pub struct Inputs<'a> {
    pub features: &'a [u16],
    pub pitch: &'a [i64],
    pub pitchf: &'a [u16],
    pub rnd: &'a [u16],
    pub sine_noise: &'a [u16],
}

pub open spec fn all_finite(xs: Seq<u16>) -> bool {
    forall|i: int| 0 <= i < xs.len() ==> bits::half_is_finite(#[trigger] xs[i])
}

pub open spec fn all_notes(xs: Seq<i64>) -> bool {
    forall|i: int| 0 <= i < xs.len() ==> 0 <= #[trigger] xs[i] <= 255
}

/// Whether the inputs have the sizes that go with the lengths.
pub open spec fn sizes_match(x: Inputs, l: Lengths, rate: usize) -> bool {
    &&& x.features@.len() == l.frames * 768
    &&& x.pitchf@.len() == l.frames
    &&& x.rnd@.len() == latent_count(l)
    &&& x.sine_noise@.len() == sine_count(l, rate)
}

/// Whether all values can be taken.
pub open spec fn values_good(x: Inputs) -> bool {
    &&& all_finite(x.features@)
    &&& all_finite(x.pitchf@)
    &&& all_finite(x.rnd@)
    &&& all_finite(x.sine_noise@)
    &&& all_notes(x.pitch@)
}

/// Why a call does not go through.
pub open spec fn call_fault(g: GeneratorValue, x: Inputs, l: Lengths) -> Option<Seq<char>> {
    if g.failed {
        Some("generator previously failed; recreate it"@)
    } else if !lengths_valid(l) {
        Some("invalid lengths"@)
    } else if !sizes_match(x, l, g.rate) {
        Some("invalid generator inputs"@)
    } else if !values_good(x) {
        Some("invalid generator values"@)
    } else if g.opened matches Some(o) && o != l {
        Some("startup dimensions changed; recreate generator"@)
    } else {
        None
    }
}

pub open spec fn all_finite_singles(xs: Seq<u32>) -> bool {
    forall|i: int| 0 <= i < xs.len() ==> bits::single_is_finite(#[trigger] xs[i])
}

impl Generator {
    /// Whether the rate is one that generators have.
    pub open spec fn sound(&self) -> bool {
        startup::model_rate(self@.rate)
    }

    /// A generator of the model directory whose description is given. Its graph is captured once
    /// and replayed.
    pub fn new(description: &[u8], rate: usize, present: bool) -> (r: Result<Generator, String>)
        ensures
            match json::json_document(description@) {
                Err(e) => r matches Err(m) && m@ == e,
                Ok(v) => match model_fault(v, rate, present) {
                    Some(text) => r matches Err(e) && e@ == text,
                    None => {
                        &&& r matches Ok(g)
                        &&& g.sound()
                        &&& g@ == (GeneratorValue { rate, graph: true, opened: None, failed: false })
                    },
                },
            },
    {
        Generator::new_with_graph(description, rate, present, true)
    }

    /// A generator of the model directory whose description is given.
    pub fn new_with_graph(description: &[u8], rate: usize, present: bool, graph: bool) -> (r: Result<
        Generator,
        String,
    >)
        ensures
            match json::json_document(description@) {
                Err(e) => r matches Err(m) && m@ == e,
                Ok(v) => match model_fault(v, rate, present) {
                    Some(text) => r matches Err(e) && e@ == text,
                    None => {
                        &&& r matches Ok(g)
                        &&& g.sound()
                        &&& g@ == (GeneratorValue { rate, graph, opened: None, failed: false })
                    },
                },
            },
    {
        match parse_document(description) {
            Ok(metadata) => match validate_model(&metadata, rate, present) {
                Ok(_) => Ok(Generator { rate, graph, opened: None, failed: false }),
                Err(e) => Err(e),
            },
            Err(e) => Err(e),
        }
    }

    pub fn graph(&self) -> (r: bool)
        ensures
            r == self@.graph,
    {
        self.graph
    }

    /// How many random values a call takes: for the flow, and for the source.
    pub fn noise_counts(&self, l: &Lengths) -> (r: Result<(usize, usize), String>)
        requires
            self.sound(),
        ensures
            if lengths_valid(*l) {
                r matches Ok(n) && n.0 == latent_count(*l) && n.1 == sine_count(*l, self@.rate)
            } else {
                r matches Err(e) && e@ == "invalid generator lengths"@
            },
    {
        if !valid_lengths(l.frames, l.skip, l.ret, l.formant) {
            return Err("invalid generator lengths".to_owned());
        }
        let head: usize = if l.skip < DECODER_HEAD {
            0
        } else {
            l.skip - DECODER_HEAD
        };
        proof {
            lemma_products(l.ret as int, self.rate as int / 100);
        }
        Ok((192 * (l.frames - head), l.ret * (self.rate / 100)))
    }

    /// A call with its random values is to be made. Tells whether the graph has to be made first.
    pub fn infer_with_noise(&self, x: &Inputs, skip: usize, ret: usize, formant: usize) -> (r: Result<
        bool,
        String,
    >)
        requires
            self.sound(),
        ensures
            ({
                let l = Lengths { frames: x.pitch@.len() as usize, skip, ret, formant };
                match call_fault(self@, *x, l) {
                    Some(text) => r matches Err(e) && e@ == text,
                    None => r == Ok::<bool, String>(self@.opened is None),
                }
            }),
    {
        if self.failed {
            return Err("generator previously failed; recreate it".to_owned());
        }
        let frames: usize = x.pitch.len();
        let l = Lengths { frames, skip, ret, formant };
        match self.noise_counts(&l) {
            Ok((latent, sine)) => {
                if x.features.len() != frames * 768 || x.pitchf.len() != frames || x.rnd.len()
                    != latent || x.sine_noise.len() != sine {
                    return Err("invalid generator inputs".to_owned());
                }
            },
            Err(_) => {
                return Err("invalid lengths".to_owned());
            },
        }
        if !are_finite(x.features) || !are_finite(x.pitchf) || !are_finite(x.rnd) || !are_finite(
            x.sine_noise,
        ) || !are_notes(x.pitch) {
            return Err("invalid generator values".to_owned());
        }
        match self.opened {
            Some(o) => {
                if o.frames != frames || o.skip != skip || o.ret != ret || o.formant != formant {
                    return Err("startup dimensions changed; recreate generator".to_owned());
                }
                Ok(false)
            },
            None => Ok(true),
        }
    }

    /// The graph was made for the lengths.
    pub fn open(&mut self, l: &Lengths)
        ensures
            final(self)@ == (GeneratorValue { opened: Some(*l), ..old(self)@ }),
    {
        self.opened = Some(*l);
    }

    /// The graph has run. One that failed, or gave values that are not finite, is not called again.
    pub fn finish(&mut self, output: Result<Vec<u32>, String>) -> (r: Result<Vec<u32>, String>)
        ensures
            finishes(old(self)@, output, final(self)@, r),
    {
        match output {
            Ok(values) => {
                if are_finite_singles(values.as_slice()) {
                    self.failed = false;
                    Ok(values)
                } else {
                    self.failed = true;
                    Err("nonfinite generator output".to_owned())
                }
            },
            Err(e) => {
                self.failed = true;
                Err(e)
            },
        }
    }
}

/// Whether all halves are finite.
pub fn are_finite(xs: &[u16]) -> (r: bool)
    ensures
        r == all_finite(xs@),
{
    let mut i: usize = 0;
    while i < xs.len()
        invariant
            i <= xs@.len(),
            forall|j: int| 0 <= j < i ==> bits::half_is_finite(#[trigger] xs@[j]),
        decreases xs@.len() - i,
    {
        if !is_finite_half(xs[i]) {
            return false;
        }
        i += 1;
    }
    true
}

/// Whether all singles are finite.
pub fn are_finite_singles(xs: &[u32]) -> (r: bool)
    ensures
        r == all_finite_singles(xs@),
{
    let mut i: usize = 0;
    while i < xs.len()
        invariant
            i <= xs@.len(),
            forall|j: int| 0 <= j < i ==> bits::single_is_finite(#[trigger] xs@[j]),
        decreases xs@.len() - i,
    {
        if !is_finite_single(xs[i]) {
            return false;
        }
        i += 1;
    }
    true
}

/// Whether all coarse pitches are in range.
pub fn are_notes(xs: &[i64]) -> (r: bool)
    ensures
        r == all_notes(xs@),
{
    let mut i: usize = 0;
    while i < xs.len()
        invariant
            i <= xs@.len(),
            forall|j: int| 0 <= j < i ==> 0 <= #[trigger] xs@[j] <= 255,
        decreases xs@.len() - i,
    {
        if xs[i] < 0 || xs[i] > 255 {
            return false;
        }
        i += 1;
    }
    true
}

/// Inputs that go through fill the ports of the graph exactly: nothing is copied past the end of a
/// port, and nothing is left over from the call before.
pub proof fn law_inputs_fill_the_ports(g: GeneratorValue, x: Inputs, l: Lengths)
    requires
        startup::model_rate(g.rate),
        l.frames == x.pitch@.len(),
        call_fault(g, x, l) is None,
    ensures
        runnable(l),
        ({
            let p = runner_inputs(l, g.rate);
            &&& plan::product(1, p[0].shape) == x.features@.len()
            &&& plan::product(1, p[1].shape) == x.pitch@.len()
            &&& plan::product(1, p[2].shape) == x.pitchf@.len()
            &&& plan::product(1, p[3].shape) == x.rnd@.len()
            &&& plan::product(1, p[4].shape) == x.sine_noise@.len()
            &&& plan::product(1, p[5].shape) == l.formant
            &&& plan::product(1, p[6].shape) == l.skip - flow_head(l)
        }),
{
    let p = runner_inputs(l, g.rate);
    let upp = g.rate as int / 100;
    lemma_products(l.ret as int, upp);
    lemma_product3(1, l.frames, 768);
    lemma_product2(1, l.frames);
    lemma_product3(1, 192, (l.frames - flow_head(l)) as usize);
    lemma_product3(1, sine_count(l, g.rate) as usize, 1);
    lemma_product2(1, l.formant);
    lemma_product2(1, (l.skip - flow_head(l)) as usize);
}

proof fn lemma_product2(a: usize, b: usize)
    ensures
        plan::product(1, seq![a, b]) == a * b,
{
    assert(seq![a, b].drop_last() =~= seq![a]);
    assert(seq![a].drop_last() =~= Seq::<usize>::empty());
    let none = plan::product(1, Seq::<usize>::empty());
    assert(none * a == a) by (nonlinear_arith)
        requires
            none == 1,
    ;
    assert(plan::product(1, seq![a]) == a);
}

proof fn lemma_product3(a: usize, b: usize, c: usize)
    ensures
        plan::product(1, seq![a, b, c]) == a * b * c,
{
    lemma_product2(a, b);
    assert(seq![a, b, c].drop_last() =~= seq![a, b]);
}

/// A path whose window skips frames and returns some hands its generator lengths that it takes, as
/// long as they are not too many.
pub proof fn law_windows_can_be_generated(s: startup::Startup, c: startup::Counts, tg: bool, formant: usize)
    requires
        c.countable(),
        startup::window_of(s, c, tg).features <= 100000,
        startup::window_of(s, c, tg).skip > 0,
        startup::window_of(s, c, tg).ret > 0,
        1 <= formant <= 100000,
    ensures
        ({
            let w = startup::window_of(s, c, tg);
            lengths_valid(Lengths { frames: w.features, skip: w.skip, ret: w.ret, formant })
        }),
{
    startup::law_window_ranges(s, c);
}

/// The decoder sees 24 frames before those that are kept, or all there are where there are fewer; noise is
/// drawn from there on, 192 values for a frame and a sine for every sample of 10 ms.
pub proof fn law_decoder_sees_a_head(l: Lengths, rate: usize)
    requires
        lengths_valid(l),
        startup::model_rate(rate),
    ensures
        1 <= l.skip - flow_head(l) <= 24,
        l.skip >= 24 ==> l.skip - flow_head(l) == 24,
        l.skip < 24 ==> flow_head(l) == 0,
        latent_count(l) == 192 * (l.ret + (l.skip - flow_head(l))),
        sine_count(l, rate) * 100 == l.ret * rate,
        l.ret + l.skip == l.frames,
{
    let r = rate as int;
    let n = l.ret as int;
    assert(r == 100 * (r / 100));
    let q = r / 100;
    assert(n * q * 100 == n * (100 * q)) by (nonlinear_arith);
}

/// What the graph is given fits the dimensions that it is made for.
pub proof fn law_ports_fit_the_dimensions(l: Lengths, rate: usize)
    requires
        lengths_valid(l),
        startup::model_rate(rate),
    ensures
        ({
            let p = runner_inputs(l, rate);
            let d = runner_dimensions(l, rate);
            &&& p[0].name == "features"@ && p[0].elem is Half && p[0].shape.len() == 3 && p[0].shape[0]
                == 1 && p[0].shape[1] == d[0].1 && p[0].shape[2] == 768
            &&& p[1].name == "pitch"@ && p[1].elem is Long && p[1].shape == seq![1, l.frames]
            &&& p[2].name == "pitchf"@ && p[2].elem is Half && p[2].shape == seq![1, l.frames]
            &&& p[3].name == "rnd"@ && p[3].elem is Half && p[3].shape[1] == 192 && p[3].shape[2]
                == d[1].1
            &&& p[4].name == "sine_noise"@ && p[4].elem is Half && p[4].shape[1] == d[2].1
            &&& p[5].name == "n_res"@ && p[5].elem is Single && p[5].shape[1] == d[3].1
            &&& p[6].name == "n_head"@ && p[6].elem is Single && p[6].shape[1] == d[4].1
            &&& d[0].0 == "p_len"@ && d[1].0 == "flow_len"@ && d[2].0 == "sine_len"@ && d[3].0
                == "ret2_len"@ && d[4].0 == "dec_head"@
            &&& d[0].1 == l.frames && d[3].1 == l.formant
            &&& d[1].1 == l.ret + d[4].1
            &&& d[2].1 * 100 == l.ret * rate
        }),
{
    law_decoder_sees_a_head(l, rate);
    let q = rate as int / 100;
    let n = l.ret as int;
    assert(n * q <= 100000 * 480) by (nonlinear_arith)
        requires
            0 <= n <= 100000,
            0 <= q <= 480,
    ;
}

/// A generator runs exactly on lengths that fit, inputs that fill them with finite values and notes of one
/// byte, and the lengths that it first ran on, unless it failed before.
pub proof fn law_good_calls_are_taken(g: GeneratorValue, x: Inputs, l: Lengths)
    ensures
        call_fault(g, x, l) is None <==> {
            &&& !g.failed
            &&& 0 < l.skip < l.frames <= 100000 && l.ret + l.skip == l.frames
            &&& 1 <= l.formant <= 100000
            &&& x.features@.len() == 768 * l.frames
            &&& x.pitchf@.len() == l.frames
            &&& x.rnd@.len() == 192 * (l.frames - if l.skip > 24 {
                l.skip - 24
            } else {
                0
            })
            &&& x.sine_noise@.len() == l.ret * (g.rate as int / 100)
            &&& forall|i: int| 0 <= i < x.features@.len() ==> #[trigger] x.features@[i] % 0x8000 < 0x7c00
            &&& forall|i: int| 0 <= i < x.pitchf@.len() ==> #[trigger] x.pitchf@[i] % 0x8000 < 0x7c00
            &&& forall|i: int| 0 <= i < x.rnd@.len() ==> #[trigger] x.rnd@[i] % 0x8000 < 0x7c00
            &&& forall|i: int|
                0 <= i < x.sine_noise@.len() ==> #[trigger] x.sine_noise@[i] % 0x8000 < 0x7c00
            &&& forall|i: int| 0 <= i < x.pitch@.len() ==> 0 <= #[trigger] x.pitch@[i] < 256
            &&& g.opened is None || g.opened == Some(l)
        },
{
}

/// A model is taken where it is of the kind, of a rate that is known and its own, with 192 channels in halves,
/// and its graph is there.
pub proof fn law_good_models_are_taken(metadata: JsonValue, rate: usize, present: bool)
    ensures
        model_fault(metadata, rate, present) is None <==> {
            &&& json::member(metadata, "generator_kind"@) == JsonValue::Text("deiteris-onnx-v1"@)
            &&& rate == 32000 || rate == 40000 || rate == 48000
            &&& json::member(metadata, "model_sr"@) == JsonValue::Natural(rate as u64)
            &&& json::member(metadata, "inter_channels"@) == JsonValue::Natural(192)
            &&& json::member(metadata, "half"@) == JsonValue::Bool(true)
            &&& present
        },
{
}

/// Whether a run of the graph ends so: with its values where they are all finite.
pub open spec fn finishes(
    before: GeneratorValue,
    output: Result<Vec<u32>, String>,
    after: GeneratorValue,
    r: Result<Vec<u32>, String>,
) -> bool {
    match output {
        Ok(values) => if all_finite_singles(values@) {
            &&& r == Ok::<Vec<u32>, String>(values)
            &&& after == (GeneratorValue { failed: false, ..before })
        } else {
            &&& r matches Err(e)
            &&& e@ == "nonfinite generator output"@
            &&& after == (GeneratorValue { failed: true, ..before })
        },
        Err(e) => {
            &&& r == Err::<Vec<u32>, String>(e)
            &&& after == (GeneratorValue { failed: true, ..before })
        },
    }
}

/// Finite values are handed on as they are; a generator that gave others, or none, takes no further call.
pub proof fn law_finite_values_are_handed_on(
    before: GeneratorValue,
    output: Result<Vec<u32>, String>,
    after: GeneratorValue,
    r: Result<Vec<u32>, String>,
    x: Inputs,
    l: Lengths,
)
    requires
        finishes(before, output, after, r),
    ensures
        r is Ok <==> output is Ok && forall|i: int|
            0 <= i < output->Ok_0@.len() ==> #[trigger] output->Ok_0@[i] % 0x8000_0000 < 0x7f80_0000,
        r is Ok ==> r == output && !after.failed,
        r is Err ==> after.failed && call_fault(after, x, l) is Some,
        output is Err ==> r == output,
        after.rate == before.rate && after.graph == before.graph && after.opened == before.opened,
{
}

} // verus!
