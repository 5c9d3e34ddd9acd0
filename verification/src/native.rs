//! The native generator: which checkpoints it takes, how its weights are handed over, and which
//! calls go through.
use crate::generator::{are_finite, are_notes};
use crate::json::{Json, JsonValue};
use crate::model::{Dtype, Source, SourceValue, Tensor, TensorValue};
use crate::text::same;
use crate::voice_model::double_of;
use crate::{bits, generator, json, model, startup, voice_model};
use vstd::prelude::*;
use vstd::string::*;

verus! {

broadcast use vstd::string::group_string_axioms;

/// The random state of the native library is one for the whole process, so one generator may be
/// alive at a time.
pub struct Exclusive {
    live: bool,
}

impl Exclusive {
    pub closed spec fn is_live(&self) -> bool {
        self.live
    }

    /// No generator is alive.
    pub fn new() -> (r: Exclusive)
        ensures
            !r.is_live(),
    {
        Exclusive { live: false }
    }

    /// A generator is to be made.
    pub fn acquire(&mut self) -> (r: Result<(), String>)
        ensures
            final(self).is_live(),
            if old(self).is_live() {
                r matches Err(e) && e@
                    == "only one native generator may be alive; stop/drop it before restarting"@
            } else {
                r is Ok
            },
    {
        if self.live {
            return Err(
                "only one native generator may be alive; stop/drop it before restarting".to_owned(),
            );
        }
        self.live = true;
        Ok(())
    }

    /// The generator is gone.
    pub fn release(&mut self)
        ensures
            !final(self).is_live(),
    {
        self.live = false;
    }
}

/// An array of integers.
pub open spec fn naturals(xs: Seq<u64>) -> JsonValue {
    JsonValue::Array(Seq::new(xs.len(), |i: int| JsonValue::Natural(xs[i])))
}

/// The config of the one architecture that there is for a rate.
pub open spec fn expected_config(rate: usize) -> Seq<JsonValue> {
    let dilations = naturals(seq![1, 3, 5]);
    seq![
        JsonValue::Natural(
            if rate == 32000 {
                513
            } else {
                1025
            },
        ),
        JsonValue::Natural(32),
        JsonValue::Natural(192),
        JsonValue::Natural(192),
        JsonValue::Natural(768),
        JsonValue::Natural(2),
        JsonValue::Natural(6),
        JsonValue::Natural(3),
        JsonValue::Natural(0),
        JsonValue::Text("1"@),
        naturals(seq![3, 7, 11]),
        JsonValue::Array(seq![dilations, dilations, dilations]),
        if rate == 32000 {
            naturals(seq![10, 8, 2, 2])
        } else if rate == 40000 {
            naturals(seq![10, 10, 2, 2])
        } else {
            naturals(seq![12, 10, 2, 2])
        },
        JsonValue::Natural(512),
        if rate == 32000 {
            naturals(seq![20, 16, 4, 4])
        } else if rate == 40000 {
            naturals(seq![16, 16, 4, 4])
        } else {
            naturals(seq![24, 20, 4, 4])
        },
        JsonValue::Natural(1),
        JsonValue::Natural(256),
        JsonValue::Natural(rate as u64),
    ]
}

/// Whether an entry of a config is the one that is expected: the same, or a number of the same
/// value.
pub open spec fn entry_expected(a: JsonValue, b: JsonValue) -> bool {
    json::json_equal(a, b) || (voice_model::as_double(a) matches Some(x) && voice_model::as_double(b) matches Some(y)
        && bits::double_equal(x, y))
}

/// Whether a config is the one that is expected, except for the speaker count.
pub open spec fn config_expected(config: Seq<JsonValue>, rate: usize) -> bool {
    let expected = expected_config(rate);
    &&& config.len() == expected.len()
    &&& forall|i: int|
        0 <= i < config.len() && i != voice_model::SPK_EMBED_DIM ==> entry_expected(
            #[trigger] config[i],
            expected[i],
        )
}

fn natural_array(xs: Vec<u64>) -> (r: Json)
    ensures
        r@ == naturals(xs@),
{
    let mut out: Vec<Json> = Vec::new();
    let mut i: usize = 0;
    while i < xs.len()
        invariant
            i <= xs@.len(),
            out@.len() == i,
            forall|j: int| 0 <= j < i ==> json::json_view(#[trigger] out@[j]) == JsonValue::Natural(xs@[j]),
        decreases xs@.len() - i,
    {
        out.push(Json::Natural(xs[i]));
        i += 1;
    }
    proof {
        json::lemma_json_array(out);
        assert(json::json_views(out@) =~= naturals(xs@)->Array_0);
    }
    Json::Array(out)
}

fn triple(a: u64, b: u64, c: u64) -> (r: Json)
    ensures
        r@ == naturals(seq![a, b, c]),
{
    let xs: Vec<u64> = vec![a, b, c];
    assert(xs@ =~= seq![a, b, c]);
    natural_array(xs)
}

fn quadruple(a: u64, b: u64, c: u64, d: u64) -> (r: Json)
    ensures
        r@ == naturals(seq![a, b, c, d]),
{
    let xs: Vec<u64> = vec![a, b, c, d];
    assert(xs@ =~= seq![a, b, c, d]);
    natural_array(xs)
}

fn dilation_array() -> (r: Json)
    ensures
        r@ == JsonValue::Array(
            seq![naturals(seq![1, 3, 5]), naturals(seq![1, 3, 5]), naturals(seq![1, 3, 5])],
        ),
{
    let out: Vec<Json> = vec![triple(1, 3, 5), triple(1, 3, 5), triple(1, 3, 5)];
    proof {
        json::lemma_json_array(out);
        assert(json::json_views(out@) =~= seq![
            naturals(seq![1, 3, 5]),
            naturals(seq![1, 3, 5]),
            naturals(seq![1, 3, 5]),
        ]);
    }
    Json::Array(out)
}

fn put(out: &mut Vec<Json>, v: Json)
    ensures
        json::json_views(final(out)@) == json::json_views(old(out)@).push(v@),
{
    out.push(v);
    assert(json::json_views(out@) =~= json::json_views(old(out)@).push(v@));
}

fn config_for(rate: usize) -> (r: Vec<Json>)
    requires
        startup::model_rate(rate),
    ensures
        json::json_views(r@) == expected_config(rate),
{
    let mut out: Vec<Json> = Vec::new();
    assert(json::json_views(out@) =~= seq![]);
    let first: u64 = if rate == 32000 {
        513
    } else {
        1025
    };
    put(&mut out, Json::Natural(first));
    put(&mut out, Json::Natural(32));
    put(&mut out, Json::Natural(192));
    put(&mut out, Json::Natural(192));
    put(&mut out, Json::Natural(768));
    put(&mut out, Json::Natural(2));
    put(&mut out, Json::Natural(6));
    put(&mut out, Json::Natural(3));
    put(&mut out, Json::Natural(0));
    put(&mut out, Json::Text("1".to_owned()));
    put(&mut out, triple(3, 7, 11));
    put(&mut out, dilation_array());
    let rates: Json = if rate == 32000 {
        quadruple(10, 8, 2, 2)
    } else if rate == 40000 {
        quadruple(10, 10, 2, 2)
    } else {
        quadruple(12, 10, 2, 2)
    };
    put(&mut out, rates);
    put(&mut out, Json::Natural(512));
    let kernels: Json = if rate == 32000 {
        quadruple(20, 16, 4, 4)
    } else if rate == 40000 {
        quadruple(16, 16, 4, 4)
    } else {
        quadruple(24, 20, 4, 4)
    };
    put(&mut out, kernels);
    put(&mut out, Json::Natural(1));
    put(&mut out, Json::Natural(256));
    put(&mut out, Json::Natural(rate as u64));
    out
}

/// The rate that a config ends with.
pub open spec fn config_rate(config: Seq<JsonValue>) -> Option<u64> {
    if config.len() == 0 {
        None
    } else {
        match config.last() {
            JsonValue::Natural(n) => Some(n),
            _ => None,
        }
    }
}

/// Why a checkpoint cannot be used.
pub open spec fn source_fault(s: SourceValue, template_rate: usize) -> Option<Seq<char>> {
    if !(s.version == Some("v2"@) && s.f0) {
        Some("requires RVC v2 F0"@)
    } else if (s.embedder matches Some(e) && e != "contentvec"@) || (s.vocoder matches Some(v) && v
        != "HiFi-GAN"@) {
        Some("unsupported embedder/vocoder"@)
    } else {
        match config_rate(s.config) {
            None => Some("missing model rate"@),
            Some(rate) => if rate > usize::MAX {
                Some("out of range integral type conversion attempted"@)
            } else if rate != template_rate {
                Some("model/template rate mismatch"@)
            } else if !startup::model_rate(template_rate) {
                Some("unsupported model rate"@)
            } else if !config_expected(s.config, template_rate) {
                Some("unsupported generator architecture"@)
            } else {
                None
            },
        }
    }
}

/// Checks a checkpoint against the architecture for the rate of the template.
pub fn check_source(source: &Source, template_rate: usize) -> (r: Result<(), String>)
    ensures
        match source_fault(source@, template_rate) {
            Some(text) => r matches Err(e) && e@ == text,
            None => r is Ok,
        },
{
    let second: bool = match &source.version {
        Some(v) => same(v.as_str(), "v2"),
        None => false,
    };
    if !second || !source.f0 {
        return Err("requires RVC v2 F0".to_owned());
    }
    let embedder: bool = match &source.embedder {
        Some(v) => same(v.as_str(), "contentvec"),
        None => true,
    };
    let vocoder: bool = match &source.vocoder {
        Some(v) => same(v.as_str(), "HiFi-GAN"),
        None => true,
    };
    if !embedder || !vocoder {
        return Err("unsupported embedder/vocoder".to_owned());
    }
    let ghost config = json::json_views(source.config@);
    let count: usize = source.config.len();
    if count == 0 {
        return Err("missing model rate".to_owned());
    }
    assert(config.last() == source.config@[count - 1]@);
    let rate: u64 = match &source.config[count - 1] {
        Json::Natural(n) => *n,
        _ => {
            return Err("missing model rate".to_owned());
        },
    };
    if rate > usize::MAX as u64 {
        return Err("out of range integral type conversion attempted".to_owned());
    }
    if rate != template_rate as u64 {
        return Err("model/template rate mismatch".to_owned());
    }
    if template_rate != 32000 && template_rate != 40000 && template_rate != 48000 {
        return Err("unsupported model rate".to_owned());
    }
    if !is_expected(&source.config, template_rate) {
        return Err("unsupported generator architecture".to_owned());
    }
    Ok(())
}

fn is_expected(config: &Vec<Json>, rate: usize) -> (r: bool)
    requires
        startup::model_rate(rate),
    ensures
        r == config_expected(json::json_views(config@), rate),
{
    let expected = config_for(rate);
    let ghost a = json::json_views(config@);
    let ghost b = json::json_views(expected@);
    if config.len() != expected.len() {
        return false;
    }
    let mut i: usize = 0;
    while i < config.len()
        invariant
            i <= config@.len() == expected@.len(),
            a == json::json_views(config@),
            b == json::json_views(expected@),
            b == expected_config(rate),
            forall|j: int|
                0 <= j < i && j != voice_model::SPK_EMBED_DIM ==> entry_expected(#[trigger] a[j], b[j]),
        decreases config@.len() - i,
    {
        if i != crate::voice_model::SPK_EMBED_DIM {
            let close: bool = match (double_of(&config[i]), double_of(&expected[i])) {
                (Some(x), Some(y)) => crate::bits::equal_doubles(x, y),
                _ => false,
            };
            if !close && !config[i].equals(&expected[i]) {
                assert(!entry_expected(a[i as int], b[i as int]));
                return false;
            }
        }
        i += 1;
    }
    true
}

/// How a weight is handed over.
pub struct Weight {
    /// Zero for halves, one for singles.
    pub kind: i32,
    pub dims: Vec<i64>,
}

/// The bytes of the first `n` dimensions.
pub open spec fn leading_bytes(t: TensorValue, n: int) -> int
    decreases n,
{
    if n <= 0 {
        model::width(t.dtype) as int
    } else {
        leading_bytes(t, n - 1) * t.shape[n - 1]
    }
}

/// Why a weight cannot be handed over: looked for in the dimensions from the first one on, and then
/// in the whole.
pub open spec fn weight_fault(t: TensorValue, n: int) -> Option<Seq<char>>
    decreases t.shape.len() - n,
{
    if 0 <= n < t.shape.len() {
        if t.shape[n] == 0 {
            Some("zero dimension"@)
        } else if leading_bytes(t, n + 1) > usize::MAX {
            Some("weight size overflow"@)
        } else {
            weight_fault(t, n + 1)
        }
    } else if leading_bytes(t, t.shape.len() as int) != t.data.len() {
        Some("invalid weight byte count"@)
    } else if exists|i: int| 0 <= i < t.shape.len() && #[trigger] t.shape[i] > i64::MAX {
        Some("out of range integral type conversion attempted"@)
    } else {
        None
    }
}

/// How a weight is handed over, or why it cannot be.
pub fn weight(t: &Tensor) -> (r: Result<Weight, String>)
    ensures
        match weight_fault(t@, 0) {
            Some(text) => r matches Err(e) && e@ == text,
            None => {
                &&& r matches Ok(w)
                &&& w.kind == (if t.dtype == Dtype::F16 {
                    0int
                } else {
                    1
                })
                &&& w.dims@ == Seq::new(t.shape@.len(), |i: int| t.shape@[i] as i64)
            },
        },
{
    let (kind, width): (i32, usize) = match t.dtype {
        Dtype::F16 => (0, 2),
        Dtype::F32 => (1, 4),
    };
    let mut bytes: usize = width;
    let mut i: usize = 0;
    while i < t.shape.len()
        invariant
            i <= t.shape@.len(),
            bytes == leading_bytes(t@, i as int),
            weight_fault(t@, 0) == weight_fault(t@, i as int),
        decreases t.shape@.len() - i,
    {
        let d: usize = t.shape[i];
        if d == 0 {
            return Err("zero dimension".to_owned());
        }
        match bytes.checked_mul(d) {
            Some(n) => {
                bytes = n;
            },
            None => {
                return Err("weight size overflow".to_owned());
            },
        }
        i += 1;
    }
    if bytes != t.data.len() {
        return Err("invalid weight byte count".to_owned());
    }
    let mut dims: Vec<i64> = Vec::new();
    let mut k: usize = 0;
    while k < t.shape.len()
        invariant
            k <= t.shape@.len(),
            weight_fault(t@, 0) == weight_fault(t@, t.shape@.len() as int),
            leading_bytes(t@, t.shape@.len() as int) == t.data@.len(),
            dims@ == Seq::new(k as nat, |j: int| t.shape@[j] as i64),
            forall|j: int| 0 <= j < k ==> #[trigger] t.shape@[j] <= i64::MAX,
        decreases t.shape@.len() - k,
    {
        let d: usize = t.shape[k];
        if d as u64 > i64::MAX as u64 {
            assert(t@.shape[k as int] > i64::MAX);
            return Err("out of range integral type conversion attempted".to_owned());
        }
        dims.push(d as i64);
        k += 1;
        assert(dims@ =~= Seq::new(k as nat, |j: int| t.shape@[j] as i64));
    }
    Ok(Weight { kind, dims })
}

/// The bytes of the leading dimensions and the elements of the others make the whole tensor.
proof fn lemma_leading(t: TensorValue, n: int)
    requires
        0 <= n <= t.shape.len(),
    ensures
        leading_bytes(t, n) * model::product(t.shape.skip(n)) == model::width(t.dtype) * model::product(
            t.shape,
        ),
    decreases n,
{
    if n == 0 {
        assert(t.shape.skip(0) =~= t.shape);
    } else {
        lemma_leading(t, n - 1);
        let rest = t.shape.skip(n - 1);
        assert(rest.skip(1) =~= t.shape.skip(n));
        assert(rest[0] == t.shape[n - 1]);
        let a = leading_bytes(t, n - 1);
        let d = t.shape[n - 1] as int;
        let p = model::product(t.shape.skip(n)) as int;
        assert(a * (d * p) == a * d * p) by (nonlinear_arith);
    }
}

proof fn lemma_positive(shape: Seq<usize>)
    requires
        forall|i: int| 0 <= i < shape.len() ==> #[trigger] shape[i] > 0,
    ensures
        model::product(shape) >= 1,
    decreases shape.len(),
{
    if shape.len() > 0 {
        assert forall|i: int| 0 <= i < shape.skip(1).len() implies #[trigger] shape.skip(1)[i] > 0 by {
            assert(shape.skip(1)[i] == shape[i + 1]);
        }
        lemma_positive(shape.skip(1));
        assert(shape[0] as int * model::product(shape.skip(1)) >= 1) by (nonlinear_arith)
            requires
                shape[0] as int >= 1,
                model::product(shape.skip(1)) >= 1,
        ;
    }
}

proof fn lemma_no_fault(t: TensorValue, n: int)
    requires
        0 <= n <= t.shape.len(),
        t.full(),
        t.data.len() <= usize::MAX,
        forall|i: int| 0 <= i < t.shape.len() ==> 0 < #[trigger] t.shape[i] <= i64::MAX,
    ensures
        weight_fault(t, n) is None,
    decreases t.shape.len() - n,
{
    let w = model::width(t.dtype) as int;
    let p = model::product(t.shape) as int;
    assert(w * p == p * w) by (nonlinear_arith);
    if n < t.shape.len() {
        lemma_leading(t, n + 1);
        let rest = t.shape.skip(n + 1);
        assert forall|i: int| 0 <= i < rest.len() implies #[trigger] rest[i] > 0 by {
            assert(rest[i] == t.shape[i + n + 1]);
        }
        lemma_positive(rest);
        let lead = leading_bytes(t, n + 1);
        let q = model::product(rest) as int;
        lemma_leading_positive(t, n + 1);
        assert(lead <= lead * q) by (nonlinear_arith)
            requires
                lead >= 0,
                q >= 1,
        ;
        lemma_no_fault(t, n + 1);
    } else {
        lemma_leading(t, n);
        assert(t.shape.skip(n) =~= Seq::<usize>::empty());
        let lead = leading_bytes(t, n);
        assert(model::product(t.shape.skip(n)) == 1);
        assert(lead * 1 == lead);
    }
}

proof fn lemma_leading_positive(t: TensorValue, n: int)
    requires
        0 <= n <= t.shape.len(),
    ensures
        leading_bytes(t, n) >= 0,
    decreases n,
{
    if n > 0 {
        lemma_leading_positive(t, n - 1);
        assert(leading_bytes(t, n - 1) * t.shape[n - 1] >= 0) by (nonlinear_arith)
            requires
                leading_bytes(t, n - 1) >= 0,
                t.shape[n - 1] >= 0,
        ;
    }
}

/// Every weight that a checkpoint reader hands out whole can be handed over, unless a dimension is
/// zero or does not fit the library's integers.
pub proof fn law_whole_weights_are_taken(t: TensorValue)
    requires
        t.full(),
        t.data.len() <= usize::MAX,
        forall|i: int| 0 <= i < t.shape.len() ==> 0 < #[trigger] t.shape[i] <= i64::MAX,
    ensures
        weight_fault(t, 0) is None,
{
    lemma_no_fault(t, 0);
}

/// Whether the sizes of a call match.
pub open spec fn call_sizes(features: int, pitch: int, pitchf: int, skip: usize, ret: usize, formant: usize) -> bool {
    &&& 0 < pitch <= 100000
    &&& features == pitch * 768
    &&& pitchf == pitch
    &&& skip < pitch
    &&& ret > 0
    &&& 0 < formant <= 100000
}

/// A native generator.
pub struct Generator {
    rate: usize,
}

impl Generator {
    pub closed spec fn rate(&self) -> usize {
        self.rate
    }

    /// A generator for a checkpoint.
    pub fn new(source: &Source, template_rate: usize) -> (r: Result<Generator, String>)
        ensures
            match source_fault(source@, template_rate) {
                Some(text) => r matches Err(e) && e@ == text,
                None => r matches Ok(g) && g.rate() == template_rate && startup::model_rate(g.rate()),
            },
    {
        match check_source(source, template_rate) {
            Ok(_) => Ok(Generator { rate: template_rate }),
            Err(e) => Err(e),
        }
    }

    /// A call is to be made: tells how many samples come out.
    pub fn infer(
        &self,
        features: &[u16],
        pitch: &[i64],
        pitchf: &[u16],
        skip: usize,
        ret: usize,
        formant: usize,
    ) -> (r: Result<usize, String>)
        requires
            startup::model_rate(self.rate()),
        ensures
            infers(self.rate(), features@, pitch@, pitchf@, skip, ret, formant, r),
    {
        let frames: usize = pitch.len();
        if !(frames > 0 && frames <= 100000 && features.len() == frames * 768 && pitchf.len()
            == frames && skip < frames && ret > 0 && formant > 0 && formant <= 100000) {
            return Err("invalid generator inputs".to_owned());
        }
        if !are_finite(features) || !are_finite(pitchf) || !are_notes(pitch) {
            return Err("invalid generator values".to_owned());
        }
        proof {
            let upp = self.rate as int / 100;
            assert(0 <= formant * upp <= 48_000_000) by (nonlinear_arith)
                requires
                    0 <= formant <= 100000,
                    0 <= upp <= 480,
            ;
        }
        Ok(formant * (self.rate / 100))
    }

    /// Whether a random state can be restored.
    pub fn restore_rng(cpu: &[u8], cuda: &[u8]) -> (r: Result<(), String>)
        ensures
            if cpu@.len() > 0 && cuda@.len() > 0 {
                r is Ok
            } else {
                r matches Err(e) && e@ == "empty RNG state"@
            },
    {
        if cpu.len() == 0 || cuda.len() == 0 {
            return Err("empty RNG state".to_owned());
        }
        Ok(())
    }
}

/// The generator makes a hundredth of a second of every frame: its upsampling multiplies to that many samples.
/// The rate stands last.
pub proof fn law_upsampling_makes_ten_milliseconds(rate: usize)
    requires
        startup::model_rate(rate),
    ensures
        ({
            let c = expected_config(rate);
            let ups = c[12]->Array_0;
            let kernels = c[14]->Array_0;
            &&& c.len() == 18
            &&& config_rate(c) == Some(rate as u64)
            &&& ups.len() == 4 && kernels.len() == 4
            &&& 100 * (ups[0]->Natural_0 * ups[1]->Natural_0 * ups[2]->Natural_0 * ups[3]->Natural_0)
                == rate
            &&& forall|i: int|
                0 <= i < 4 ==> (#[trigger] ups[i])->Natural_0 < kernels[i]->Natural_0 <= 2
                    * ups[i]->Natural_0
            &&& forall|i: int|
                0 <= i < 4 ==> ((#[trigger] kernels[i])->Natural_0 - ups[i]->Natural_0) % 2 == 0
            &&& rate != 40000 ==> kernels[0]->Natural_0 == 2 * ups[0]->Natural_0
        }),
{
    let c = expected_config(rate);
    let ups = c[12]->Array_0;
    let kernels = c[14]->Array_0;
    assert(ups[2] == JsonValue::Natural(2) && ups[3] == JsonValue::Natural(2));
    assert(kernels[2] == JsonValue::Natural(4) && kernels[3] == JsonValue::Natural(4));
    if rate == 32000 {
        assert(ups[0] == JsonValue::Natural(10) && ups[1] == JsonValue::Natural(8));
        assert(kernels[0] == JsonValue::Natural(20) && kernels[1] == JsonValue::Natural(16));
        assert(10 * 8 * 2 * 2 == 320);
    } else if rate == 40000 {
        assert(ups[0] == JsonValue::Natural(10) && ups[1] == JsonValue::Natural(10));
        assert(kernels[0] == JsonValue::Natural(16) && kernels[1] == JsonValue::Natural(16));
        assert(10 * 10 * 2 * 2 == 400);
    } else {
        assert(ups[0] == JsonValue::Natural(12) && ups[1] == JsonValue::Natural(10));
        assert(kernels[0] == JsonValue::Natural(24) && kernels[1] == JsonValue::Natural(20));
        assert(12 * 10 * 2 * 2 == 480);
    }
}

/// A checkpoint is taken where its version, pitch, embedder and vocoder are those of the generator, its rate is
/// that of the template and a known one, and its settings are the expected ones but for the speakers.
pub proof fn law_expected_sources_are_taken(s: SourceValue, rate: usize)
    ensures
        source_fault(s, rate) is None <==> {
            &&& s.version == Some("v2"@)
            &&& s.f0
            &&& s.embedder is None || s.embedder == Some("contentvec"@)
            &&& s.vocoder is None || s.vocoder == Some("HiFi-GAN"@)
            &&& rate == 32000 || rate == 40000 || rate == 48000
            &&& s.config.len() == 18
            &&& s.config[17] == JsonValue::Natural(rate as u64)
            &&& forall|i: int|
                0 <= i < 18 && i != 15 ==> entry_expected(#[trigger] s.config[i], expected_config(rate)[i])
        },
{
}

/// A weight that is taken has no empty dimension and as many bytes as its elements take: two for each half,
/// four for each single.
pub proof fn law_taken_weights_are_whole(t: TensorValue)
    requires
        weight_fault(t, 0) is None,
    ensures
        t.data.len() == model::product(t.shape) * (if t.dtype is F16 {
            2int
        } else {
            4
        }),
        forall|i: int| 0 <= i < t.shape.len() ==> 0 < #[trigger] t.shape[i] <= i64::MAX,
{
    lemma_taken(t, 0);
    let n = t.shape.len() as int;
    lemma_leading(t, n);
    assert(t.shape.skip(n) =~= Seq::<usize>::empty());
    let p = model::product(t.shape) as int;
    let w = model::width(t.dtype);
    let lead = leading_bytes(t, n);
    assert(lead * 1 == lead);
    assert(w * p == p * w) by (nonlinear_arith);
}

proof fn lemma_taken(t: TensorValue, n: int)
    requires
        0 <= n <= t.shape.len(),
        weight_fault(t, n) is None,
    ensures
        leading_bytes(t, t.shape.len() as int) == t.data.len(),
        forall|i: int| n <= i < t.shape.len() ==> 0 < #[trigger] t.shape[i],
        forall|i: int| 0 <= i < t.shape.len() ==> #[trigger] t.shape[i] <= i64::MAX,
    decreases t.shape.len() - n,
{
    if n < t.shape.len() {
        lemma_taken(t, n + 1);
    }
}

/// The settings of the network beside its rates: spectra of 513 or 1025 bins, 192 channels, features of 768
/// values, two heads and six layers, and 256 channels for the speaker.
pub proof fn law_settings_of_the_network(rate: usize)
    requires
        startup::model_rate(rate),
    ensures
        ({
            let c = expected_config(rate);
            &&& c[0] == JsonValue::Natural(if rate == 32000 { 513 } else { 1025 })
            &&& c[1] == JsonValue::Natural(32)
            &&& c[2] == JsonValue::Natural(192) && c[3] == JsonValue::Natural(192)
            &&& c[4] == JsonValue::Natural(768)
            &&& c[5] == JsonValue::Natural(2) && c[6] == JsonValue::Natural(6) && c[7]
                == JsonValue::Natural(3)
            &&& c[8] == JsonValue::Natural(0) && c[9] == JsonValue::Text("1"@)
            &&& c[10]->Array_0.len() == 3 && c[11]->Array_0.len() == 3
            &&& forall|i: int|
                0 <= i < 3 ==> #[trigger] c[10]->Array_0[i] == JsonValue::Natural((3 + 4 * i) as u64)
            &&& forall|i: int, j: int|
                0 <= i < 3 && 0 <= j < 3 ==> (#[trigger] c[11]->Array_0[i])->Array_0.len() == 3
                    && #[trigger] c[11]->Array_0[i]->Array_0[j] == JsonValue::Natural((1 + 2 * j) as u64)
            &&& c[13] == JsonValue::Natural(512)
            &&& c[16] == JsonValue::Natural(256)
        }),
{
    let c = expected_config(rate);
    assert(c[10]->Array_0[0] == JsonValue::Natural(3));
    assert(c[10]->Array_0[1] == JsonValue::Natural(7));
    assert(c[10]->Array_0[2] == JsonValue::Natural(11));
    assert forall|i: int, j: int| 0 <= i < 3 && 0 <= j < 3 implies (#[trigger] c[11]->Array_0[i])->Array_0.len()
        == 3 && #[trigger] c[11]->Array_0[i]->Array_0[j] == JsonValue::Natural((1 + 2 * j) as u64) by {
        assert(c[11]->Array_0[i] == naturals(seq![1, 3, 5]));
    }
}

/// Whether a call is answered so.
pub open spec fn infers(
    rate: usize,
    features: Seq<u16>,
    pitch: Seq<i64>,
    pitchf: Seq<u16>,
    skip: usize,
    ret: usize,
    formant: usize,
    r: Result<usize, String>,
) -> bool {
    if !call_sizes(
        features.len() as int,
        pitch.len() as int,
        pitchf.len() as int,
        skip,
        ret,
        formant,
    ) {
        r matches Err(e) && e@ == "invalid generator inputs"@
    } else if !(generator::all_finite(features) && generator::all_finite(pitchf) && generator::all_notes(
        pitch,
    )) {
        r matches Err(e) && e@ == "invalid generator values"@
    } else {
        r matches Ok(n) && n == formant * (rate as int / 100)
    }
}

/// A call is made exactly where there are 768 features and one pitch in both forms for each of at most 100000
/// frames, all of them finite and the notes of one byte, more frames than are skipped, and something to make. Every
/// frame that is asked for makes a hundredth of a second.
pub proof fn law_good_calls_make_their_frames(
    rate: usize,
    features: Seq<u16>,
    pitch: Seq<i64>,
    pitchf: Seq<u16>,
    skip: usize,
    ret: usize,
    formant: usize,
    r: Result<usize, String>,
)
    requires
        startup::model_rate(rate),
        infers(rate, features, pitch, pitchf, skip, ret, formant, r),
    ensures
        r is Ok <==> {
            &&& 1 <= pitch.len() <= 100000
            &&& features.len() == 768 * pitch.len()
            &&& pitchf.len() == pitch.len()
            &&& skip < pitch.len()
            &&& ret >= 1
            &&& 1 <= formant <= 100000
            &&& forall|i: int| 0 <= i < features.len() ==> #[trigger] features[i] % 0x8000 < 0x7c00
            &&& forall|i: int| 0 <= i < pitchf.len() ==> #[trigger] pitchf[i] % 0x8000 < 0x7c00
            &&& forall|i: int| 0 <= i < pitch.len() ==> 0 <= #[trigger] pitch[i] < 256
        },
        r is Ok ==> 100 * r->Ok_0 == formant * rate,
{
    let q = rate as int / 100;
    let f = formant as int;
    assert(rate == 100 * q);
    assert(100 * (f * q) == f * (100 * q)) by (nonlinear_arith);
}

} // verus!
