//! Voice model conversion: which generator template a checkpoint fits, where its weights go, and
//! when a converted model can be used again.
//!
//! Only the generator depends on the voice. A template holds one generator graph with every weight
//! outside it; conversion checks the checkpoint against a template and writes its weights at the
//! template's offsets.
use crate::error::{Error, ErrorValue, Unsupported, UnsupportedValue};
use crate::json::{parse_document, Json, JsonValue};
use crate::model::{product_from, Source, SourceValue, Tensor, TensorValue};
use crate::text::{hex, same};
use crate::{bits, json, model, text};
use sha2::Digest;
use vstd::hash_map::StringHashMap;
use vstd::prelude::*;
use vstd::string::*;

verus! {

broadcast use vstd::string::group_string_axioms;

/// The kind of generator graph that the templates hold.
pub const KIND: &'static str = "deiteris-onnx-v1";

/// Where one weight of a template goes.
pub struct TemplateWeight {
    pub key: String,
    pub offset: usize,
    pub shape: Vec<usize>,
    /// The names of the two parts of a weight-normed weight: magnitudes and directions.
    pub weight_norm: Option<(String, String)>,
    /// Set where the checkpoint may have another number of rows.
    pub rows: Option<usize>,
}

/// A generator template.
pub struct Template {
    pub config: Vec<Json>,
    pub model: Json,
    pub weights_len: usize,
    pub weights: Vec<TemplateWeight>,
}

/// The bits of the double that an integer becomes.
pub open spec fn integer_as_double(n: int) -> u64 {
    if -0x20_0000_0000_0000 < n < 0x20_0000_0000_0000 {
        bits::exact_double(n) as u64
    } else {
        bits::nearest_double(n) as u64
    }
}

/// `serde_json::Number::as_f64` on an integer that a number can hold, which is a cast of `u64` or `i64`: the
/// double of the same value, or the nearest, and of two that are as near the one that is even.
#[verifier::external_body]
fn integer_double(n: i128) -> (r: u64)
    requires
        i64::MIN <= n <= u64::MAX,
    ensures
        r == integer_as_double(n as int),
{
    serde_json::Number::from_i128(n).and_then(|n| n.as_f64()).unwrap().to_bits()
}

/// The number as a double.
pub open spec fn as_double(v: JsonValue) -> Option<u64> {
    match v {
        JsonValue::Natural(n) => Some(integer_as_double(n as int)),
        JsonValue::Negative(n) => Some(integer_as_double(n as int)),
        JsonValue::Double(d) => Some(d),
        _ => None,
    }
}

/// Whether two entries of configs are the same: numbers by value, so that `0` is `0.0`.
pub open spec fn same_entry(a: JsonValue, b: JsonValue) -> bool
    decreases a,
{
    match (as_double(a), as_double(b)) {
        (Some(x), Some(y)) => bits::double_equal(x, y),
        _ => match (a, b) {
            (JsonValue::Array(xs), JsonValue::Array(ys)) => {
                &&& xs.len() == ys.len()
                &&& forall|i: int| 0 <= i < xs.len() ==> same_entry(#[trigger] xs[i], ys[i])
            },
            _ => json::json_equal(a, b),
        },
    }
}

/// The place of the speaker count in a config list. It differs from model to model.
pub const SPK_EMBED_DIM: usize = 15;

/// Whether two configs are the same except for the speaker count.
pub open spec fn same_configs(template: Seq<JsonValue>, model: Seq<JsonValue>) -> bool {
    &&& template.len() == model.len()
    &&& forall|i: int|
        0 <= i < template.len() && i != SPK_EMBED_DIM ==> same_entry(
            #[trigger] template[i],
            model[i],
        )
}

pub(crate) fn double_of(v: &Json) -> (r: Option<u64>)
    ensures
        r == as_double(v@),
{
    match v {
        Json::Natural(n) => Some(integer_double(*n as i128)),
        Json::Negative(n) => Some(integer_double(*n as i128)),
        Json::Double(d) => Some(*d),
        _ => None,
    }
}

fn same_value(a: &Json, b: &Json) -> (r: bool)
    ensures
        r == same_entry(a@, b@),
    decreases a,
{
    match (double_of(a), double_of(b)) {
        (Some(x), Some(y)) => crate::bits::equal_doubles(x, y),
        _ => match (a, b) {
            (Json::Array(xs), Json::Array(ys)) => {
                proof {
                    json::lemma_json_array(*xs);
                    json::lemma_json_array(*ys);
                }
                same_values(xs, ys)
            },
            _ => a.equals(b),
        },
    }
}

fn same_values(xs: &Vec<Json>, ys: &Vec<Json>) -> (r: bool)
    ensures
        r == same_entry(
            JsonValue::Array(json::json_views(xs@)),
            JsonValue::Array(json::json_views(ys@)),
        ),
    decreases xs,
{
    let ghost a = json::json_views(xs@);
    let ghost b = json::json_views(ys@);
    if xs.len() != ys.len() {
        return false;
    }
    let mut i: usize = 0;
    while i < xs.len()
        invariant
            i <= xs@.len() == ys@.len(),
            a == json::json_views(xs@),
            b == json::json_views(ys@),
            forall|j: int| 0 <= j < i ==> same_entry(#[trigger] a[j], b[j]),
        decreases xs@.len() - i,
    {
        if !same_value(&xs[i], &ys[i]) {
            assert(!same_entry(a[i as int], b[i as int]));
            return false;
        }
        i += 1;
    }
    true
}

/// Whether two configs are the same except for the speaker count.
pub fn same_config(template: &Vec<Json>, model: &Vec<Json>) -> (r: bool)
    ensures
        r == same_configs(json::json_views(template@), json::json_views(model@)),
{
    let ghost a = json::json_views(template@);
    let ghost b = json::json_views(model@);
    if template.len() != model.len() {
        return false;
    }
    let mut i: usize = 0;
    while i < template.len()
        invariant
            i <= template@.len() == model@.len(),
            a == json::json_views(template@),
            b == json::json_views(model@),
            forall|j: int| 0 <= j < i && j != SPK_EMBED_DIM ==> same_entry(#[trigger] a[j], b[j]),
        decreases template@.len() - i,
    {
        if i != SPK_EMBED_DIM && !same_value(&template[i], &model[i]) {
            assert(!same_entry(a[i as int], b[i as int]));
            return false;
        }
        i += 1;
    }
    true
}

/// Why a checkpoint cannot be used whatever the templates are. A checkpoint without a version is of
/// version 1.
pub open spec fn refused(s: SourceValue) -> Option<UnsupportedValue> {
    let version = match s.version {
        Some(v) => v,
        None => "v1"@,
    };
    if version != "v2"@ {
        Some(UnsupportedValue::Version(version))
    } else if !s.f0 {
        Some(UnsupportedValue::NoF0)
    } else if (s.embedder matches Some(e) && e != "contentvec"@) || (s.vocoder matches Some(v) && v
        != "HiFi-GAN"@) {
        Some(UnsupportedValue::Config)
    } else {
        None
    }
}

/// Whether a tensor has the shape that is asked for. Where the rows may differ, it has one at
/// least.
pub open spec fn shape_fits(t: Seq<usize>, shape: Seq<usize>, rows: bool) -> bool {
    if rows {
        t.len() == shape.len() && t[0] >= 1 && t.skip(1) == shape.skip(1)
    } else {
        t == shape
    }
}

/// Whether a checkpoint has the tensor `key` in the shape that is asked for.
pub open spec fn tensor_fits(
    tensors: Map<Seq<char>, TensorValue>,
    key: Seq<char>,
    shape: Seq<usize>,
    rows: bool,
) -> bool {
    tensors.dom().contains(key) && shape_fits(tensors[key].shape, shape, rows)
}

/// The shape of the magnitudes of a weight-normed weight: its first dimension, and ones.
pub open spec fn norm_shape(shape: Seq<usize>) -> Seq<usize> {
    Seq::new(shape.len(), |i: int| if i == 0 { shape[0] } else { 1 })
}

/// Whether a checkpoint has what a weight of a template takes.
pub open spec fn weight_fits(w: TemplateWeight, tensors: Map<Seq<char>, TensorValue>) -> bool {
    match w.weight_norm {
        Some((g, v)) => {
            &&& tensor_fits(tensors, v@, w.shape@, w.rows is Some)
            &&& tensor_fits(tensors, g@, norm_shape(w.shape@), w.rows is Some)
        },
        None => tensor_fits(tensors, w.key@, w.shape@, w.rows is Some),
    }
}

/// The first weight from `from` on that a checkpoint lacks.
pub open spec fn missing_weight(
    weights: Seq<TemplateWeight>,
    tensors: Map<Seq<char>, TensorValue>,
    from: int,
) -> Option<Seq<char>>
    decreases weights.len() - from,
{
    if from < 0 || from >= weights.len() {
        None
    } else if weight_fits(weights[from], tensors) {
        missing_weight(weights, tensors, from + 1)
    } else {
        Some(weights[from].key@)
    }
}

/// Whether a weight can be held against a checkpoint: where its first dimension is asked for, there is one.
pub open spec fn askable(w: TemplateWeight, tensors: Map<Seq<char>, TensorValue>) -> bool {
    match w.weight_norm {
        Some(_) => w.shape@.len() > 0,
        None => w.rows is Some && w.shape@.len() == 0 && tensors.dom().contains(w.key@)
            ==> tensors[w.key@].shape.len() > 0,
    }
}

/// Whether the weights from `from` on, up to the first that a checkpoint lacks, can be held against it.
pub open spec fn all_askable(
    weights: Seq<TemplateWeight>,
    tensors: Map<Seq<char>, TensorValue>,
    from: int,
) -> bool
    decreases weights.len() - from,
{
    if from < 0 || from >= weights.len() {
        true
    } else {
        &&& askable(weights[from], tensors)
        &&& weight_fits(weights[from], tensors) ==> all_askable(weights, tensors, from + 1)
    }
}

/// A template directory: its name, and the template in it or why it cannot be read.
pub struct TemplateEntry {
    pub name: String,
    pub template: Result<Template, Error>,
}

/// The place of the template that a checkpoint fits: the first, from `from` on, of the same config.
/// A template that cannot be read ends the search, and so does a weight that is missing.
pub open spec fn fitting(
    s: SourceValue,
    entries: Seq<TemplateEntry>,
    from: int,
) -> Result<int, ErrorValue>
    decreases entries.len() - from,
{
    if from < 0 || from >= entries.len() {
        Err(ErrorValue::Unsupported(UnsupportedValue::Config))
    } else {
        match entries[from].template {
            Err(e) => Err(e@),
            Ok(t) => if !same_configs(json::json_views(t.config@), s.config) {
                fitting(s, entries, from + 1)
            } else {
                match missing_weight(t.weights@, s.tensors, 0) {
                    Some(key) => Err(ErrorValue::Unsupported(UnsupportedValue::Weights(key))),
                    None => Ok(from),
                }
            },
        }
    }
}

/// The place of the template that a checkpoint fits, or why it cannot be used.
pub open spec fn inspected(s: SourceValue, entries: Seq<TemplateEntry>) -> Result<int, ErrorValue> {
    match refused(s) {
        Some(u) => Err(ErrorValue::Unsupported(u)),
        None => fitting(s, entries, 0),
    }
}

/// The place, from `from` on, of the first template of the same config, where all before it can be read.
pub open spec fn matching(s: SourceValue, entries: Seq<TemplateEntry>, from: int) -> Option<int>
    decreases entries.len() - from,
{
    if from < 0 || from >= entries.len() {
        None
    } else {
        match entries[from].template {
            Err(_) => None,
            Ok(t) => if same_configs(json::json_views(t.config@), s.config) {
                Some(from)
            } else {
                matching(s, entries, from + 1)
            },
        }
    }
}

/// Whether a checkpoint can be held against the template of its config, where it comes to that.
pub open spec fn inspectable(s: SourceValue, entries: Seq<TemplateEntry>) -> bool {
    refused(s) is None ==> match matching(s, entries, 0) {
        Some(at) => all_askable(entries[at].template->Ok_0.weights@, s.tensors, 0),
        None => true,
    }
}

/// Why a checkpoint cannot be used whatever the templates are.
pub fn refuse(source: &Source) -> (r: Option<Unsupported>)
    ensures
        match refused(source@) {
            Some(u) => r matches Some(v) && v@ == u,
            None => r is None,
        },
{
    let version: String = match &source.version {
        Some(v) => v.clone(),
        None => "v1".to_owned(),
    };
    if !same(version.as_str(), "v2") {
        return Some(Unsupported::Version(version));
    }
    if !source.f0 {
        return Some(Unsupported::NoF0);
    }
    if let Some(e) = &source.embedder {
        if !same(e.as_str(), "contentvec") {
            return Some(Unsupported::Config);
        }
    }
    if let Some(v) = &source.vocoder {
        if !same(v.as_str(), "HiFi-GAN") {
            return Some(Unsupported::Config);
        }
    }
    None
}

/// Whether the sizes from `from` on are the same.
fn same_sizes(a: &Vec<usize>, b: &Vec<usize>, from: usize) -> (r: bool)
    requires
        from <= a@.len() == b@.len(),
    ensures
        r == (a@.skip(from as int) == b@.skip(from as int)),
{
    let mut i: usize = from;
    while i < a.len()
        invariant
            from <= i <= a@.len() == b@.len(),
            forall|j: int| from <= j < i ==> a@[j] == b@[j],
        decreases a@.len() - i,
    {
        if a[i] != b[i] {
            assert(a@.skip(from as int)[i - from] != b@.skip(from as int)[i - from]);
            return false;
        }
        i += 1;
    }
    assert(a@.skip(from as int) =~= b@.skip(from as int));
    true
}

fn fits_shape(t: &Vec<usize>, shape: &Vec<usize>, rows: bool) -> (r: bool)
    requires
        rows && shape@.len() == 0 ==> t@.len() > 0,
    ensures
        r == shape_fits(t@, shape@, rows),
{
    if t.len() != shape.len() {
        return false;
    }
    if rows {
        t[0] >= 1 && same_sizes(t, shape, 1)
    } else {
        assert(t@.skip(0) =~= t@);
        assert(shape@.skip(0) =~= shape@);
        same_sizes(t, shape, 0)
    }
}

fn fits_tensor(tensors: &StringHashMap<Tensor>, key: &str, shape: &Vec<usize>, rows: bool) -> (r:
    bool)
    requires
        rows && shape@.len() == 0 && tensors@.dom().contains(key@) ==> tensors@[key@].shape@.len()
            > 0,
    ensures
        r == tensor_fits(model::tensor_values(tensors@), key@, shape@, rows),
{
    match tensors.get(key) {
        Some(t) => fits_shape(&t.shape, shape, rows),
        None => false,
    }
}

fn fits(w: &TemplateWeight, tensors: &StringHashMap<Tensor>) -> (r: bool)
    requires
        askable(*w, model::tensor_values(tensors@)),
    ensures
        r == weight_fits(*w, model::tensor_values(tensors@)),
{
    let rows: bool = w.rows.is_some();
    match &w.weight_norm {
        Some((g, v)) => {
            let mut shape: Vec<usize> = Vec::new();
            shape.push(w.shape[0]);
            let mut i: usize = 1;
            while i < w.shape.len()
                invariant
                    1 <= i <= w.shape@.len(),
                    shape@ == norm_shape(w.shape@).take(i as int),
                decreases w.shape@.len() - i,
            {
                shape.push(1);
                i += 1;
                assert(shape@ =~= norm_shape(w.shape@).take(i as int));
            }
            assert(norm_shape(w.shape@).take(w.shape@.len() as int) =~= norm_shape(w.shape@));
            fits_tensor(tensors, v.as_str(), &w.shape, rows) && fits_tensor(
                tensors,
                g.as_str(),
                &shape,
                rows,
            )
        },
        None => fits_tensor(tensors, w.key.as_str(), &w.shape, rows),
    }
}

/// The first weight of a template that a checkpoint lacks.
fn find_missing(template: &Template, tensors: &StringHashMap<Tensor>) -> (r: Option<String>)
    requires
        all_askable(template.weights@, model::tensor_values(tensors@), 0),
    ensures
        model::seen_text(r) == missing_weight(
            template.weights@,
            model::tensor_values(tensors@),
            0,
        ),
{
    let ghost values = model::tensor_values(tensors@);
    let mut i: usize = 0;
    while i < template.weights.len()
        invariant
            i <= template.weights@.len(),
            values == model::tensor_values(tensors@),
            all_askable(template.weights@, values, i as int),
            missing_weight(template.weights@, values, 0) == missing_weight(
                template.weights@,
                values,
                i as int,
            ),
        decreases template.weights@.len() - i,
    {
        let w = &template.weights[i];
        if !fits(w, tensors) {
            return Some(w.key.clone());
        }
        i += 1;
    }
    None
}

/// Whether the weights of a template can be held against a checkpoint.
fn is_askable(template: &Template, tensors: &StringHashMap<Tensor>) -> (r: bool)
    ensures
        r == all_askable(template.weights@, model::tensor_values(tensors@), 0),
{
    let ghost values = model::tensor_values(tensors@);
    let mut i: usize = 0;
    while i < template.weights.len()
        invariant
            i <= template.weights@.len(),
            values == model::tensor_values(tensors@),
            all_askable(template.weights@, values, 0) == all_askable(
                template.weights@,
                values,
                i as int,
            ),
        decreases template.weights@.len() - i,
    {
        let w = &template.weights[i];
        if w.shape.len() == 0 {
            if w.weight_norm.is_some() {
                return false;
            }
            if w.rows.is_some() {
                match tensors.get(w.key.as_str()) {
                    Some(t) => {
                        if t.shape.len() == 0 {
                            return false;
                        }
                    },
                    None => {},
                }
            }
        }
        if !fits(w, tensors) {
            return true;
        }
        i += 1;
    }
    true
}

/// Whether [`inspect`] can hold a checkpoint against the template of its config.
pub fn is_inspectable(source: &Source, entries: &Vec<TemplateEntry>) -> (r: bool)
    ensures
        r == inspectable(source@, entries@),
{
    if refuse(source).is_some() {
        return true;
    }
    let mut i: usize = 0;
    while i < entries.len()
        invariant
            i <= entries@.len(),
            refused(source@) is None,
            matching(source@, entries@, 0) == matching(source@, entries@, i as int),
        decreases entries@.len() - i,
    {
        match &entries[i].template {
            Err(_) => {
                return true;
            },
            Ok(template) => {
                if same_config(&template.config, &source.config) {
                    return is_askable(template, &source.tensors);
                }
            },
        }
        i += 1;
    }
    true
}

/// Finds the template that a checkpoint fits. The entries come in the order of their names.
pub fn inspect(source: &Source, entries: Vec<TemplateEntry>) -> (r: Result<(String, Template), Error>)
    requires
        inspectable(source@, entries@),
    ensures
        match inspected(source@, entries@) {
            Ok(at) => {
                &&& 0 <= at < entries@.len()
                &&& r matches Ok((name, template))
                &&& name == entries@[at].name
                &&& entries@[at].template == Ok::<Template, Error>(template)
            },
            Err(e) => r matches Err(f) && f@ == e,
        },
{
    if let Some(u) = refuse(source) {
        return Err(Error::Unsupported(u));
    }
    let ghost all = entries@;
    let mut rest = entries;
    assert(rest@ =~= all.skip(0));
    let ghost mut at: int = 0;
    while rest.len() > 0
        invariant
            all == entries@,
            inspectable(source@, all),
            refused(source@) is None,
            matching(source@, all, 0) == matching(source@, all, at),
            0 <= at <= all.len(),
            rest@ == all.skip(at),
            fitting(source@, all, 0) == fitting(source@, all, at),
        decreases rest@.len(),
    {
        let entry = rest.remove(0);
        assert(entry == all[at]);
        match entry.template {
            Err(e) => {
                return Err(e);
            },
            Ok(template) => {
                if same_config(&template.config, &source.config) {
                    return match find_missing(&template, &source.tensors) {
                        Some(key) => Err(Error::Unsupported(Unsupported::Weights(key))),
                        None => Ok((entry.name, template)),
                    };
                }
            },
        }
        proof {
            at = at + 1;
            assert(rest@ =~= all.skip(at));
        }
    }
    Err(Error::Unsupported(Unsupported::Config))
}

/// Checks a checkpoint and gives the name of the template that it fits.
pub fn check(source: &Source, entries: Vec<TemplateEntry>) -> (r: Result<String, Error>)
    requires
        inspectable(source@, entries@),
    ensures
        match inspected(source@, entries@) {
            Ok(at) => 0 <= at < entries@.len() && r == Ok::<String, Error>(entries@[at].name),
            Err(e) => r matches Err(f) && f@ == e,
        },
{
    match inspect(source, entries) {
        Ok((name, _)) => Ok(name),
        Err(e) => Err(e),
    }
}

/// Numbers in configs compare by value: integers of at most 53 bits are the same entry exactly
/// where they are equal, and each is the same entry as the double of its value.
pub proof fn law_numbers_compare_by_value(a: i64, b: i64)
    requires
        -0x20_0000_0000_0000 < a < 0x20_0000_0000_0000,
        -0x20_0000_0000_0000 < b < 0x20_0000_0000_0000,
    ensures
        same_entry(crate::pickle::integer_json(a), crate::pickle::integer_json(b)) == (a == b),
        same_entry(
            crate::pickle::integer_json(a),
            JsonValue::Double(bits::exact_double(a as int) as u64),
        ),
        same_entry(JsonValue::Natural(0), JsonValue::Double(0)),
{
    let x = if a < 0 { -(a as int) } else { a as int };
    let y = if b < 0 { -(b as int) } else { b as int };
    if a != 0 {
        bits::lemma_exact_bits(x);
    }
    if b != 0 {
        bits::lemma_exact_bits(y);
    }
    if a != 0 && b != 0 && bits::exact_double(x) == bits::exact_double(y) {
        bits::lemma_exact_injective(x, y);
    }
}

/// The speaker count is free: whatever stands in its place, a config stays the same.
pub proof fn law_speaker_count_is_free(template: Seq<JsonValue>, model: Seq<JsonValue>, count: JsonValue)
    requires
        model.len() > SPK_EMBED_DIM,
    ensures
        same_configs(template, model.update(SPK_EMBED_DIM as int, count)) == same_configs(
            template,
            model,
        ),
{
    let other = model.update(SPK_EMBED_DIM as int, count);
    assert forall|i: int| 0 <= i < template.len() && i != SPK_EMBED_DIM && template.len() == model.len() implies same_entry(
        #[trigger] template[i],
        other[i],
    ) == same_entry(template[i], model[i]) by {
        assert(other[i] == model[i]);
    }
    if same_configs(template, other) {
        assert forall|i: int| 0 <= i < template.len() && i != SPK_EMBED_DIM implies same_entry(
            #[trigger] template[i],
            model[i],
        ) by {
            assert(same_entry(template[i], other[i]));
        }
    }
}

/// A checkpoint that is taken is of version 2 and has a pitch, and names no other embedder or vocoder.
/// The template that it fits has its config and every weight, and every earlier one could be read and
/// has another config.
pub proof fn law_first_fitting_template(s: SourceValue, entries: Seq<TemplateEntry>)
    requires
        inspected(s, entries) is Ok,
    ensures
        s.version == Some("v2"@),
        s.f0,
        s.embedder is Some ==> s.embedder == Some("contentvec"@),
        s.vocoder is Some ==> s.vocoder == Some("HiFi-GAN"@),
        ({
            let at = inspected(s, entries)->Ok_0;
            &&& 0 <= at < entries.len()
            &&& entries[at].template matches Ok(t)
            &&& same_configs(json::json_views(t.config@), s.config)
            &&& forall|i: int|
                0 <= i < t.weights@.len() ==> weight_fits(#[trigger] t.weights@[i], s.tensors)
            &&& forall|i: int|
                0 <= i < at ==> ((#[trigger] entries[i]).template matches Ok(u) && !same_configs(
                    json::json_views(u.config@),
                    s.config,
                ))
        }),
{
    reveal_strlit("v1");
    reveal_strlit("v2");
    assert("v1"@[1] != "v2"@[1]);
    lemma_fitting(s, entries, 0);
}

proof fn lemma_none_missing(weights: Seq<TemplateWeight>, tensors: Map<Seq<char>, TensorValue>, from: int)
    requires
        0 <= from,
        missing_weight(weights, tensors, from) is None,
    ensures
        forall|i: int| from <= i < weights.len() ==> weight_fits(#[trigger] weights[i], tensors),
    decreases weights.len() - from,
{
    if from < weights.len() {
        lemma_none_missing(weights, tensors, from + 1);
    }
}

proof fn lemma_fitting(s: SourceValue, entries: Seq<TemplateEntry>, from: int)
    requires
        0 <= from,
        fitting(s, entries, from) is Ok,
    ensures
        ({
            let at = fitting(s, entries, from)->Ok_0;
            &&& from <= at < entries.len()
            &&& entries[at].template matches Ok(t)
            &&& same_configs(json::json_views(t.config@), s.config)
            &&& forall|i: int|
                0 <= i < t.weights@.len() ==> weight_fits(#[trigger] t.weights@[i], s.tensors)
            &&& forall|i: int|
                from <= i < at ==> ((#[trigger] entries[i]).template matches Ok(u) && !same_configs(
                    json::json_views(u.config@),
                    s.config,
                ))
        }),
    decreases entries.len() - from,
{
    let t = entries[from].template->Ok_0;
    if same_configs(json::json_views(t.config@), s.config) {
        lemma_none_missing(t.weights@, s.tensors, 0);
    } else {
        lemma_fitting(s, entries, from + 1);
    }
}

/// The SHA-256 digest of a message.
pub uninterp spec fn sha256(message: Seq<u8>) -> Seq<u8>;

/// `sha2::Sha256` over a tag and three messages in a row: its digest is that of all of them as one
/// message.
#[verifier::external_body]
pub(crate) fn digest(tag: &[u8], a: &[u8], b: &[u8], c: &[u8]) -> (r: Vec<u8>)
    ensures
        r@ == sha256(tag@ + a@ + b@ + c@),
        r@.len() == 32,
{
    let mut digest = sha2::Sha256::new();
    digest.update(tag);
    digest.update(a);
    digest.update(b);
    digest.update(c);
    digest.finalize().to_vec()
}

/// What the key of a converted model is taken over: the kind of its graph and a zero byte, the
/// checkpoint, the template's description and its graph.
pub open spec fn cache_message(source: Seq<u8>, description: Seq<u8>, graph: Seq<u8>) -> Seq<u8> {
    KIND.spec_bytes().push(0) + source + description + graph
}

/// The name under which a converted model is kept.
pub open spec fn cache_name(source: Seq<u8>, description: Seq<u8>, graph: Seq<u8>) -> Seq<char> {
    text::hex_of(sha256(cache_message(source, description, graph)))
}

/// The name under which a converted model is kept, from the bytes of the checkpoint, of the
/// template's description and of its graph. Only templates of the right kind have one.
pub fn cache_key(template: &Template, source: &[u8], description: &[u8], graph: &[u8]) -> (r: Result<
    String,
    Error,
>)
    ensures
        if json::member(template.model@, "generator_kind"@) == JsonValue::Text(KIND@) {
            r matches Ok(key) && key@ == cache_name(source@, description@, graph@)
        } else {
            r matches Err(e) && e@ == ErrorValue::Runtime("not a Deiteris ONNX template"@)
        },
{
    if !template.model.has_text("generator_kind", KIND) {
        return Err(Error::Runtime("not a Deiteris ONNX template".to_owned()));
    }
    let mut tag: Vec<u8> = KIND.as_bytes_vec();
    tag.push(0);
    Ok(hex(&digest(tag.as_slice(), source, description, graph)))
}

/// Converted models of different contents have different names, but for a collision of the digest: an equal
/// name is an equal digest, and what the digest is taken over differs wherever one of the three contents
/// alone does, and wherever contents of the same lengths do.
pub proof fn law_names_tell_contents_apart(
    source: Seq<u8>,
    description: Seq<u8>,
    graph: Seq<u8>,
    source2: Seq<u8>,
    description2: Seq<u8>,
    graph2: Seq<u8>,
)
    ensures
        ({
            let message = cache_message(source, description, graph);
            let message2 = cache_message(source2, description2, graph2);
            let same_name = cache_name(source, description, graph) == cache_name(
                source2,
                description2,
                graph2,
            );
            &&& same_name == (sha256(message) == sha256(message2))
            &&& message == message2 && source.len() == source2.len() && description.len()
                == description2.len() ==> source == source2 && description == description2
                && graph == graph2
            &&& source != source2 && description == description2 && graph == graph2 ==> message
                != message2
            &&& source == source2 && description != description2 && graph == graph2 ==> message
                != message2
            &&& source == source2 && description == description2 && graph != graph2 ==> message
                != message2
        }),
{
    let tag = KIND.spec_bytes().push(0);
    let message = cache_message(source, description, graph);
    let message2 = cache_message(source2, description2, graph2);
    if cache_name(source, description, graph) == cache_name(source2, description2, graph2) {
        text::law_hex_is_injective(sha256(message), sha256(message2));
    }
    if message == message2 {
        let a = tag.len() as int;
        let b = a + source.len();
        let b2 = a + source2.len();
        let c = b + description.len();
        let c2 = b2 + description2.len();
        assert(message.len() == c + graph.len());
        assert(message2.len() == c2 + graph2.len());
        assert(source =~= message.subrange(a, b));
        assert(source2 =~= message2.subrange(a, b2));
        assert(description =~= message.subrange(b, c));
        assert(description2 =~= message2.subrange(b2, c2));
        assert(graph =~= message.skip(c));
        assert(graph2 =~= message2.skip(c2));
    }
}

/// What is found of a converted model: the bytes of its graph, the size of its weights and the bytes
/// of its description, each where it can be read.
pub struct Cached {
    pub graph: Option<Vec<u8>>,
    pub weights_len: Option<u64>,
    pub description: Option<Vec<u8>>,
}

/// Whether a description is that of a model which a template was made into.
pub open spec fn described(description: Seq<u8>, template: JsonValue) -> bool {
    match json::json_document(description) {
        Ok(v) => {
            &&& json::member(v, "generator_kind"@) == JsonValue::Text(KIND@)
            &&& json::json_equal(
                json::member(v, "model_sr"@),
                json::member(template, "model_sr"@),
            )
        },
        Err(_) => false,
    }
}

/// Whether what is found is a whole converted model of the template.
pub open spec fn usable(cached: Cached, graph: Seq<u8>, template: Template) -> bool {
    &&& cached.graph matches Some(g) && g@ == graph
    &&& cached.weights_len == Some(template.weights_len as u64)
    &&& cached.description matches Some(d) && described(d@, template.model@)
}

/// A directory of a converted model: its files, each where there is one.
pub struct Folder {
    pub graph: Option<Seq<u8>>,
    pub weights: Option<Seq<u8>>,
    pub description: Option<Seq<u8>>,
}

/// Whether a directory holds a whole converted model of the template.
pub open spec fn whole(folder: Option<Folder>, graph: Seq<u8>, template: Template) -> bool {
    &&& folder matches Some(f)
    &&& f.graph == Some(graph)
    &&& f.weights matches Some(w) && w.len() == template.weights_len
    &&& f.description matches Some(d) && described(d, template.model@)
}

/// Whether `cached` is what is found in a directory.
pub open spec fn shows(cached: Cached, folder: Option<Folder>) -> bool {
    match folder {
        Some(f) => {
            &&& match (cached.graph, f.graph) {
                (Some(a), Some(b)) => a@ == b,
                (None, None) => true,
                _ => false,
            }
            &&& match (cached.weights_len, f.weights) {
                (Some(n), Some(w)) => n == w.len(),
                (None, None) => true,
                _ => false,
            }
            &&& match (cached.description, f.description) {
                (Some(a), Some(b)) => a@ == b,
                (None, None) => true,
                _ => false,
            }
        },
        None => cached.graph is None && cached.weights_len is None && cached.description is None,
    }
}

/// Whether the two hold the same bytes.
fn same_bytes(a: &Vec<u8>, b: &[u8]) -> (r: bool)
    ensures
        r == (a@ == b@),
{
    if a.len() != b.len() {
        return false;
    }
    let mut i: usize = 0;
    while i < a.len()
        invariant
            i <= a@.len() == b@.len(),
            forall|j: int| 0 <= j < i ==> a@[j] == b@[j],
        decreases a@.len() - i,
    {
        if a[i] != b[i] {
            return false;
        }
        i += 1;
    }
    assert(a@ =~= b@);
    true
}

fn is_described(description: &Vec<u8>, template: &Json) -> (r: bool)
    ensures
        r == described(description@, template@),
{
    match parse_document(description.as_slice()) {
        Ok(v) => {
            if !v.has_text("generator_kind", KIND) {
                return false;
            }
            let null = Json::Null;
            let a: &Json = match v.get("model_sr") {
                Some(x) => x,
                None => &null,
            };
            let b: &Json = match template.get("model_sr") {
                Some(x) => x,
                None => &null,
            };
            a.equals(b)
        },
        Err(_) => false,
    }
}

/// Where a converted model is kept, and whether it has to be made first.
pub struct Prepared {
    /// The directory below the cache root: one for the kind, and in it one for the key.
    pub directory: (String, String),
    pub convert: bool,
}

/// Decides on a converted model from what is found under its key: it is made where it is not whole,
/// and only then.
pub fn prepare_deiteris(key: String, template: &Template, graph: &[u8], cached: &Cached) -> (r: Prepared)
    ensures
        r.directory.0@ == KIND@,
        r.directory.1 == key,
        r.convert == !usable(*cached, graph@, *template),
{
    let whole: bool = match &cached.graph {
        Some(g) => same_bytes(g, graph),
        None => false,
    } && match cached.weights_len {
        Some(n) => n == template.weights_len as u64,
        None => false,
    } && match &cached.description {
        Some(d) => is_described(d, &template.model),
        None => false,
    };
    Prepared { directory: (KIND.to_owned(), key), convert: !whole }
}

/// What is to be done next for a converted model.
#[derive(Clone, Copy, PartialEq, Eq, Structural, Debug)]
pub enum Task {
    /// Say that a model is being converted.
    Announce,
    /// Read the checkpoint and find its template.
    Inspect,
    /// Look whether there is a temporary directory.
    LookForTemporary,
    RemoveTemporary,
    CreateTemporary,
    /// Copy the graph of the template into the temporary directory.
    CopyGraph,
    WriteWeights,
    WriteDescription,
    /// Look whether the directory of the model is there.
    LookForOutput,
    RemoveOutput,
    /// Give the temporary directory the name of the model's.
    Publish,
    Finished,
}

/// The task behind one that was done; `found` is what was seen where something was looked for. One that
/// fails ends the work.
pub open spec fn following(task: Task, found: bool) -> Task {
    match task {
        Task::Announce => Task::Inspect,
        Task::Inspect => Task::LookForTemporary,
        Task::LookForTemporary => if found {
            Task::RemoveTemporary
        } else {
            Task::CreateTemporary
        },
        Task::RemoveTemporary => Task::CreateTemporary,
        Task::CreateTemporary => Task::CopyGraph,
        Task::CopyGraph => Task::WriteWeights,
        Task::WriteWeights => Task::WriteDescription,
        Task::WriteDescription => Task::LookForOutput,
        Task::LookForOutput => if found {
            Task::RemoveOutput
        } else {
            Task::Publish
        },
        Task::RemoveOutput => Task::Publish,
        Task::Publish => Task::Finished,
        Task::Finished => Task::Finished,
    }
}

impl Task {
    /// The task behind this one.
    pub fn next(self, found: bool) -> (r: Task)
        ensures
            r == following(self, found),
    {
        match self {
            Task::Announce => Task::Inspect,
            Task::Inspect => Task::LookForTemporary,
            Task::LookForTemporary => if found {
                Task::RemoveTemporary
            } else {
                Task::CreateTemporary
            },
            Task::RemoveTemporary => Task::CreateTemporary,
            Task::CreateTemporary => Task::CopyGraph,
            Task::CopyGraph => Task::WriteWeights,
            Task::WriteWeights => Task::WriteDescription,
            Task::WriteDescription => Task::LookForOutput,
            Task::LookForOutput => if found {
                Task::RemoveOutput
            } else {
                Task::Publish
            },
            Task::RemoveOutput => Task::Publish,
            Task::Publish => Task::Finished,
            Task::Finished => Task::Finished,
        }
    }
}

/// The first task for a model that may be there: none where it is whole.
pub open spec fn first_task(whole: bool) -> Task {
    if whole {
        Task::Finished
    } else {
        Task::Announce
    }
}

impl Prepared {
    /// The first task.
    pub fn task(&self) -> (r: Task)
        ensures
            r == first_task(!self.convert),
    {
        if self.convert {
            Task::Announce
        } else {
            Task::Finished
        }
    }
}

/// The directory of a model and the temporary one beside it.
pub struct Disk {
    pub output: Option<Folder>,
    pub temporary: Option<Folder>,
}

/// What a conversion writes.
pub struct Written {
    pub graph: Seq<u8>,
    pub weights: Seq<u8>,
    pub description: Seq<u8>,
}

/// What a task finds where it looks for something.
pub open spec fn finds(task: Task, disk: Disk) -> bool {
    match task {
        Task::LookForTemporary => disk.temporary is Some,
        Task::LookForOutput => disk.output is Some,
        _ => false,
    }
}

/// The directories after a task.
pub open spec fn performed(task: Task, disk: Disk, w: Written) -> Disk {
    let files = match disk.temporary {
        Some(f) => f,
        None => Folder { graph: None, weights: None, description: None },
    };
    match task {
        Task::RemoveTemporary => Disk { temporary: None, ..disk },
        Task::CreateTemporary => Disk { temporary: Some(files), ..disk },
        Task::CopyGraph => Disk { temporary: Some(Folder { graph: Some(w.graph), ..files }), ..disk },
        Task::WriteWeights => Disk {
            temporary: Some(Folder { weights: Some(w.weights), ..files }),
            ..disk
        },
        Task::WriteDescription => Disk {
            temporary: Some(Folder { description: Some(w.description), ..files }),
            ..disk
        },
        Task::RemoveOutput => Disk { output: None, ..disk },
        Task::Publish => Disk { output: disk.temporary, temporary: None },
        _ => disk,
    }
}

/// The task and the directories after `steps` tasks were done, and how often a conversion was announced.
pub open spec fn after(task: Task, disk: Disk, w: Written, steps: nat) -> (Task, Disk, nat)
    decreases steps,
{
    if steps == 0 {
        (task, disk, 0)
    } else {
        let (t, d, n) = after(task, disk, w, (steps - 1) as nat);
        (
            following(t, finds(t, d)),
            performed(t, d, w),
            if t == Task::Announce {
                n + 1
            } else {
                n
            },
        )
    }
}

/// The tasks that a conversion takes at most.
pub const MOST_TASKS: usize = 11;

/// Whether what a conversion writes is a whole model of the template.
pub open spec fn writes_whole(w: Written, graph: Seq<u8>, template: Template) -> bool {
    &&& w.graph == graph
    &&& w.weights.len() == template.weights_len
    &&& described(w.description, template.model@)
}

/// Whether no conversion was left behind beside a whole model.
pub open spec fn orderly(disk: Disk, graph: Seq<u8>, template: Template) -> bool {
    whole(disk.output, graph, template) ==> disk.temporary is None
}

/// What holds of the directories and the announcements before each task of a conversion.
spec fn under_way(
    t: Task,
    d: Disk,
    n: nat,
    w: Written,
    graph: Seq<u8>,
    template: Template,
) -> bool {
    let files = d.temporary->Some_0;
    &&& t == Task::Announce ==> n == 0
    &&& t != Task::Announce ==> n == 1
    &&& t != Task::Finished ==> !whole(d.output, graph, template)
    &&& t == Task::CreateTemporary ==> d.temporary is None
    &&& t == Task::CopyGraph ==> d.temporary is Some
    &&& t == Task::WriteWeights ==> d.temporary is Some && files.graph == Some(w.graph)
    &&& t == Task::WriteDescription ==> d.temporary is Some && files.graph == Some(w.graph)
        && files.weights == Some(w.weights)
    &&& t == Task::LookForOutput || t == Task::RemoveOutput || t == Task::Publish ==> d.temporary
        == Some(
        Folder {
            graph: Some(w.graph),
            weights: Some(w.weights),
            description: Some(w.description),
        },
    )
    &&& t == Task::Finished ==> d.temporary is None && whole(d.output, graph, template)
}

/// How many tasks there are at most from a task on.
spec fn rank(t: Task) -> nat {
    match t {
        Task::Announce => 11,
        Task::Inspect => 10,
        Task::LookForTemporary => 9,
        Task::RemoveTemporary => 8,
        Task::CreateTemporary => 7,
        Task::CopyGraph => 6,
        Task::WriteWeights => 5,
        Task::WriteDescription => 4,
        Task::LookForOutput => 3,
        Task::RemoveOutput => 2,
        Task::Publish => 1,
        Task::Finished => 0,
    }
}

proof fn lemma_under_way(disk: Disk, w: Written, graph: Seq<u8>, template: Template, steps: nat)
    requires
        !whole(disk.output, graph, template),
        writes_whole(w, graph, template),
    ensures
        ({
            let (t, d, n) = after(Task::Announce, disk, w, steps);
            &&& under_way(t, d, n, w, graph, template)
            &&& rank(t) + steps <= 11 || t == Task::Finished
        }),
    decreases steps,
{
    if steps > 0 {
        lemma_under_way(disk, w, graph, template, (steps - 1) as nat);
    }
}

proof fn lemma_nothing_to_do(disk: Disk, w: Written, steps: nat)
    ensures
        after(Task::Finished, disk, w, steps) == (Task::Finished, disk, 0nat),
    decreases steps,
{
    if steps > 0 {
        lemma_nothing_to_do(disk, w, (steps - 1) as nat);
    }
}

/// A conversion is announced exactly once where the model is not whole, before anything is changed, and not
/// at all where it is. When the work is finished the model is whole, and a conversion has left
/// no temporary directory.
pub proof fn law_announced_once(
    disk: Disk,
    cached: Cached,
    w: Written,
    graph: Seq<u8>,
    template: Template,
)
    requires
        shows(cached, disk.output),
        writes_whole(w, graph, template),
    ensures
        ({
            let needed = !usable(cached, graph, template);
            let (t, d, n) = after(first_task(!needed), disk, w, MOST_TASKS as nat);
            &&& needed == !whole(disk.output, graph, template)
            &&& t == Task::Finished
            &&& n == if needed { 1nat } else { 0nat }
            &&& whole(d.output, graph, template)
            &&& needed || disk.temporary is None ==> d.temporary is None
        }),
        after(Task::Announce, disk, w, 1) == (Task::Inspect, disk, 1nat),
{
    reveal_with_fuel(after, 2);
    assert(usable(cached, graph, template) == whole(disk.output, graph, template));
    if whole(disk.output, graph, template) {
        lemma_nothing_to_do(disk, w, MOST_TASKS as nat);
    } else {
        lemma_under_way(disk, w, graph, template, MOST_TASKS as nat);
    }
}

/// Two runs for the same model, one after the other as the lock has them, announce one conversion at most,
/// and one exactly where there was no whole model before. The second changes nothing.
pub proof fn law_second_run_converts_nothing(
    disk: Disk,
    w: Written,
    again: Written,
    graph: Seq<u8>,
    template: Template,
)
    requires
        writes_whole(w, graph, template),
    ensures
        ({
            let start = first_task(whole(disk.output, graph, template));
            let (t, d, n) = after(start, disk, w, MOST_TASKS as nat);
            let (u, e, m) = after(
                first_task(whole(d.output, graph, template)),
                d,
                again,
                MOST_TASKS as nat,
            );
            &&& t == Task::Finished
            &&& u == Task::Finished
            &&& n + m == if whole(disk.output, graph, template) { 0nat } else { 1nat }
            &&& e == d
        }),
{
    if whole(disk.output, graph, template) {
        lemma_nothing_to_do(disk, w, MOST_TASKS as nat);
        lemma_nothing_to_do(disk, again, MOST_TASKS as nat);
    } else {
        lemma_under_way(disk, w, graph, template, MOST_TASKS as nat);
        let d = after(Task::Announce, disk, w, MOST_TASKS as nat).1;
        lemma_nothing_to_do(d, again, MOST_TASKS as nat);
    }
}

/// Wherever a conversion is broken off, no temporary directory stands beside a whole model, so that the
/// next run starts in order.
pub proof fn law_broken_off_in_order(
    disk: Disk,
    w: Written,
    graph: Seq<u8>,
    template: Template,
    steps: nat,
)
    requires
        orderly(disk, graph, template),
        writes_whole(w, graph, template),
    ensures
        orderly(
            after(first_task(whole(disk.output, graph, template)), disk, w, steps).1,
            graph,
            template,
        ),
{
    if whole(disk.output, graph, template) {
        lemma_nothing_to_do(disk, w, steps);
    } else {
        lemma_under_way(disk, w, graph, template, steps);
    }
}

/// A checkpoint that cannot be used leaves the directories as they were: nothing is changed before it was
/// inspected.
pub proof fn law_nothing_changes_before_inspection(disk: Disk, w: Written)
    ensures
        after(Task::Announce, disk, w, 1).1 == disk,
        after(Task::Inspect, disk, w, 0).1 == disk,
        after(Task::Inspect, disk, w, 1) == (Task::LookForTemporary, disk, 0nat),
{
    reveal_with_fuel(after, 2);
}

/// The values of a weight without a norm: the first of its tensor, as many as its shape has.
pub open spec fn plain_values(w: TemplateWeight, tensors: Map<Seq<char>, TensorValue>) -> Seq<u32> {
    model::singles(tensors[w.key@]).take(model::product(w.shape@) as int)
}

/// Whether there are directions and every whole row of them has a magnitude. A row is as long as the
/// directions divided by the magnitudes.
pub open spec fn normed(magnitudes: nat, directions: nat) -> bool {
    &&& 0 < magnitudes <= directions
    &&& directions / (directions / magnitudes) <= magnitudes
}

/// Whether a checkpoint has the values of a weight: the whole of its shape, or directions with a magnitude for
/// every row.
pub open spec fn has_values(w: TemplateWeight, tensors: Map<Seq<char>, TensorValue>) -> bool {
    match w.weight_norm {
        Some((g, v)) => {
            &&& tensors.dom().contains(g@)
            &&& tensors.dom().contains(v@)
            &&& normed(model::singles(tensors[g@]).len(), model::singles(tensors[v@]).len())
        },
        None => {
            &&& tensors.dom().contains(w.key@)
            &&& model::product(w.shape@) <= model::singles(tensors[w.key@]).len()
        },
    }
}

/// Whether a checkpoint has the values of every weight.
pub open spec fn has_all_values(weights: Seq<TemplateWeight>, tensors: Map<Seq<char>, TensorValue>) -> bool {
    forall|i: int| 0 <= i < weights.len() ==> has_values(#[trigger] weights[i], tensors)
}

/// The values of the tensor `name`.
fn tensor_singles(source: &Source, name: &str) -> (r: Vec<u32>)
    requires
        source@.tensors.dom().contains(name@),
    ensures
        r@ == model::singles(source@.tensors[name@]),
{
    match source.tensors.get(name) {
        Some(t) => t.to_f32(),
        None => Vec::new(),
    }
}

/// The values of a weight without a norm.
pub fn weight_values(w: &TemplateWeight, source: &Source) -> (r: Vec<u32>)
    requires
        source@.tensors.dom().contains(w.key@),
        model::product(w.shape@) <= model::singles(source@.tensors[w.key@]).len(),
    ensures
        r@ == plain_values(*w, source@.tensors),
{
    let mut values = tensor_singles(source, w.key.as_str());
    let len: usize = values.len();
    assert(w.shape@.skip(0) =~= w.shape@);
    let count: usize = match product_from(&w.shape, 0) {
        Some(n) => n,
        None => len,
    };
    values.truncate(count);
    assert(values@ =~= plain_values(*w, source@.tensors));
    values
}

/// The magnitudes and the directions of a weight with a norm.
pub fn norm_values(g: &str, v: &str, source: &Source) -> (r: (Vec<u32>, Vec<u32>))
    requires
        source@.tensors.dom().contains(g@),
        source@.tensors.dom().contains(v@),
    ensures
        r.0@ == model::singles(source@.tensors[g@]),
        r.1@ == model::singles(source@.tensors[v@]),
{
    (tensor_singles(source, g), tensor_singles(source, v))
}

fn is_normed(magnitudes: usize, directions: usize) -> (r: bool)
    ensures
        r == normed(magnitudes as nat, directions as nat),
{
    if magnitudes == 0 || directions < magnitudes {
        return false;
    }
    assert(directions / magnitudes > 0) by (nonlinear_arith)
        requires
            0 < magnitudes <= directions,
    ;
    directions / (directions / magnitudes) <= magnitudes
}

/// Whether a checkpoint has the values of every weight.
pub fn are_values_there(template: &Template, source: &Source) -> (r: bool)
    ensures
        r == has_all_values(template.weights@, source@.tensors),
{
    let mut i: usize = 0;
    while i < template.weights.len()
        invariant
            i <= template.weights@.len(),
            forall|j: int| 0 <= j < i ==> has_values(#[trigger] template.weights@[j], source@.tensors),
        decreases template.weights@.len() - i,
    {
        let w = &template.weights[i];
        let there: bool = match &w.weight_norm {
            Some((g, v)) => if source.tensors.contains_key(g.as_str()) && source.tensors.contains_key(
                v.as_str(),
            ) {
                let (gs, vs) = norm_values(g.as_str(), v.as_str(), source);
                is_normed(gs.len(), vs.len())
            } else {
                false
            },
            None => if source.tensors.contains_key(w.key.as_str()) {
                let len: usize = tensor_singles(source, w.key.as_str()).len();
                assert(w.shape@.skip(0) =~= w.shape@);
                match product_from(&w.shape, 0) {
                    Some(n) => n <= len,
                    None => false,
                }
            } else {
                false
            },
        };
        if !there {
            assert(!has_values(template.weights@[i as int], source@.tensors));
            return false;
        }
        i += 1;
    }
    true
}

/// Whether halves are what a weight becomes: each value of it narrowed, or what is left of its magnitudes
/// and directions without the norm.
pub open spec fn is_piece<N: Fn(u32) -> u16, G: Fn(Vec<u32>, Vec<u32>) -> Vec<u16>>(
    w: TemplateWeight,
    tensors: Map<Seq<char>, TensorValue>,
    narrow: N,
    without_norm: G,
    piece: Vec<u16>,
) -> bool {
    match w.weight_norm {
        Some((g, v)) => exists|gs: Vec<u32>, vs: Vec<u32>|
            {
                &&& gs@ == model::singles(tensors[g@])
                &&& vs@ == model::singles(tensors[v@])
                &&& #[trigger] call_ensures(without_norm, (gs, vs), piece)
            },
        None => {
            &&& piece@.len() == model::product(w.shape@)
            &&& forall|i: int|
                0 <= i < piece@.len() ==> call_ensures(
                    narrow,
                    (plain_values(w, tensors)[i],),
                    #[trigger] piece@[i],
                )
        },
    }
}

/// Whether every weight of a template becomes the piece at its place.
pub open spec fn are_pieces<N: Fn(u32) -> u16, G: Fn(Vec<u32>, Vec<u32>) -> Vec<u16>>(
    weights: Seq<TemplateWeight>,
    tensors: Map<Seq<char>, TensorValue>,
    narrow: N,
    without_norm: G,
    pieces: Seq<Vec<u16>>,
) -> bool {
    &&& pieces.len() == weights.len()
    &&& forall|i: int|
        0 <= i < weights.len() ==> is_piece(
            weights[i],
            tensors,
            narrow,
            without_norm,
            #[trigger] pieces[i],
        )
}

/// The weights of a template as halves. `narrow` gives the half of a value, and `without_norm` those of a
/// weight from its magnitudes and directions.
pub fn weight_pieces<N: Fn(u32) -> u16, G: Fn(Vec<u32>, Vec<u32>) -> Vec<u16>>(
    template: &Template,
    source: &Source,
    narrow: N,
    without_norm: G,
) -> (r: Vec<Vec<u16>>)
    requires
        has_all_values(template.weights@, source@.tensors),
        forall|x: u32| call_requires(narrow, (x,)),
        forall|g: Vec<u32>, v: Vec<u32>|
            normed(g@.len(), v@.len()) ==> #[trigger] call_requires(without_norm, (g, v)),
    ensures
        are_pieces(template.weights@, source@.tensors, narrow, without_norm, r@),
{
    let mut pieces: Vec<Vec<u16>> = Vec::new();
    let mut i: usize = 0;
    while i < template.weights.len()
        invariant
            i <= template.weights@.len(),
            pieces@.len() == i,
            has_all_values(template.weights@, source@.tensors),
            forall|x: u32| call_requires(narrow, (x,)),
            forall|g: Vec<u32>, v: Vec<u32>|
                normed(g@.len(), v@.len()) ==> #[trigger] call_requires(without_norm, (g, v)),
            forall|j: int|
                0 <= j < i ==> is_piece(
                    template.weights@[j],
                    source@.tensors,
                    narrow,
                    without_norm,
                    #[trigger] pieces@[j],
                ),
        decreases template.weights@.len() - i,
    {
        let w = &template.weights[i];
        assert(has_values(template.weights@[i as int], source@.tensors));
        let piece: Vec<u16> = match &w.weight_norm {
            Some((g, v)) => {
                let (gs, vs) = norm_values(g.as_str(), v.as_str(), source);
                without_norm(gs, vs)
            },
            None => {
                let values = weight_values(w, source);
                let mut halves: Vec<u16> = Vec::new();
                let mut k: usize = 0;
                while k < values.len()
                    invariant
                        k <= values@.len(),
                        halves@.len() == k,
                        forall|x: u32| call_requires(narrow, (x,)),
                        forall|j: int|
                            0 <= j < k ==> call_ensures(
                                narrow,
                                (values@[j],),
                                #[trigger] halves@[j],
                            ),
                    decreases values@.len() - k,
                {
                    halves.push(narrow(values[k]));
                    k += 1;
                }
                halves
            },
        };
        assert(is_piece(*w, source@.tensors, narrow, without_norm, piece));
        pieces.push(piece);
        i += 1;
    }
    pieces
}

/// Halves, each lowest byte first.
pub open spec fn half_bytes(halves: Seq<u16>) -> Seq<u8> {
    Seq::new(
        2 * halves.len(),
        |i: int|
            if i % 2 == 0 {
                (halves[i / 2] % 256) as u8
            } else {
                (halves[i / 2] / 256) as u8
            },
    )
}

/// The weights with halves written from `offset` on.
pub open spec fn with_halves(weights: Seq<u8>, offset: int, halves: Seq<u16>) -> Seq<u8> {
    weights.take(offset) + half_bytes(halves) + weights.skip(offset + 2 * halves.len())
}

/// The weights of a template after the first `n` pieces were written, each at its offset.
pub open spec fn with_pieces(template: Template, pieces: Seq<Vec<u16>>, n: int) -> Seq<u8>
    decreases n,
{
    if n <= 0 {
        Seq::new(template.weights_len as nat, |i: int| 0u8)
    } else {
        with_halves(
            with_pieces(template, pieces, n - 1),
            template.weights@[n - 1].offset as int,
            pieces[n - 1]@,
        )
    }
}

/// Whether there is a piece for every weight, and room for it.
pub open spec fn pieces_fit(template: Template, pieces: Seq<Vec<u16>>) -> bool {
    &&& pieces.len() == template.weights@.len()
    &&& forall|i: int|
        0 <= i < pieces.len() ==> (#[trigger] template.weights@[i]).offset + 2 * pieces[i]@.len()
            <= template.weights_len
}

/// Whether there is a piece for every weight, and room for it.
pub fn do_pieces_fit(template: &Template, pieces: &Vec<Vec<u16>>) -> (r: bool)
    ensures
        r == pieces_fit(*template, pieces@),
{
    if pieces.len() != template.weights.len() {
        return false;
    }
    let mut i: usize = 0;
    while i < pieces.len()
        invariant
            i <= pieces@.len() == template.weights@.len(),
            forall|j: int|
                0 <= j < i ==> (#[trigger] template.weights@[j]).offset + 2 * pieces@[j]@.len()
                    <= template.weights_len,
        decreases pieces@.len() - i,
    {
        let offset: usize = template.weights[i].offset;
        if offset > template.weights_len || pieces[i].len() > (template.weights_len - offset) / 2 {
            assert(template.weights@[i as int].offset + 2 * pieces@[i as int]@.len()
                > template.weights_len);
            return false;
        }
        i += 1;
    }
    true
}

fn write_halves(weights: &mut Vec<u8>, offset: usize, halves: &Vec<u16>)
    requires
        offset + 2 * halves@.len() <= old(weights)@.len(),
    ensures
        final(weights)@ == with_halves(old(weights)@, offset as int, halves@),
{
    let ghost before = weights@;
    let n: usize = weights.len();
    let mut i: usize = 0;
    assert(weights@ =~= with_halves(before, offset as int, halves@.take(0)));
    while i < halves.len()
        invariant
            i <= halves@.len(),
            offset + 2 * halves@.len() <= n == before.len(),
            weights@.len() == n,
            weights@ == with_halves(before, offset as int, halves@.take(i as int)),
        decreases halves@.len() - i,
    {
        let h: u16 = halves[i];
        weights.set(offset + 2 * i, (h % 256) as u8);
        weights.set(offset + 2 * i + 1, (h / 256) as u8);
        i += 1;
        assert(weights@ =~= with_halves(before, offset as int, halves@.take(i as int)));
    }
    assert(halves@.take(halves@.len() as int) =~= halves@);
}

/// The weights of a converted model: every piece at the offset that the template gives it, and zeros
/// where there is none.
pub fn place_weights(template: &Template, pieces: &Vec<Vec<u16>>) -> (r: Vec<u8>)
    requires
        pieces_fit(*template, pieces@),
    ensures
        r@.len() == template.weights_len,
        r@ == with_pieces(*template, pieces@, pieces@.len() as int),
{
    let mut weights: Vec<u8> = vec![0u8; template.weights_len];
    assert(weights@ =~= with_pieces(*template, pieces@, 0));
    let mut i: usize = 0;
    while i < pieces.len()
        invariant
            i <= pieces@.len(),
            pieces_fit(*template, pieces@),
            weights@.len() == template.weights_len,
            weights@ == with_pieces(*template, pieces@, i as int),
        decreases pieces@.len() - i,
    {
        assert(template.weights@[i as int].offset + 2 * pieces@[i as int]@.len()
            <= template.weights_len);
        write_halves(&mut weights, template.weights[i].offset, &pieces[i]);
        i += 1;
    }
    weights
}

proof fn lemma_with_pieces_len(template: Template, pieces: Seq<Vec<u16>>, n: int)
    requires
        pieces_fit(template, pieces),
        0 <= n <= pieces.len(),
    ensures
        with_pieces(template, pieces, n).len() == template.weights_len,
    decreases n,
{
    if n > 0 {
        lemma_with_pieces_len(template, pieces, n - 1);
        assert(template.weights@[n - 1].offset + 2 * pieces[n - 1]@.len() <= template.weights_len);
    }
}

/// Whether the bytes of the weight at `i` and those of the weight at `j` are apart.
pub open spec fn apart(template: Template, pieces: Seq<Vec<u16>>, i: int, j: int) -> bool {
    ||| template.weights@[i].offset + 2 * pieces[i]@.len() <= template.weights@[j].offset
    ||| template.weights@[j].offset + 2 * pieces[j]@.len() <= template.weights@[i].offset
}

proof fn lemma_piece_stays(template: Template, pieces: Seq<Vec<u16>>, k: int, n: int)
    requires
        pieces_fit(template, pieces),
        0 <= k < n <= pieces.len(),
        forall|j: int| k < j < n ==> #[trigger] apart(template, pieces, k, j),
    ensures
        with_pieces(template, pieces, n).subrange(
            template.weights@[k].offset as int,
            template.weights@[k].offset + 2 * pieces[k]@.len(),
        ) == half_bytes(pieces[k]@),
    decreases n,
{
    let at = template.weights@[k].offset as int;
    let end = at + 2 * pieces[k]@.len();
    lemma_with_pieces_len(template, pieces, n - 1);
    assert(template.weights@[k].offset + 2 * pieces[k]@.len() <= template.weights_len);
    assert(template.weights@[n - 1].offset + 2 * pieces[n - 1]@.len() <= template.weights_len);
    if k == n - 1 {
        assert(with_pieces(template, pieces, n).subrange(at, end) =~= half_bytes(pieces[k]@));
    } else {
        lemma_piece_stays(template, pieces, k, n - 1);
        assert(apart(template, pieces, k, n - 1));
        assert(with_pieces(template, pieces, n).subrange(at, end) =~= with_pieces(
            template,
            pieces,
            n - 1,
        ).subrange(at, end));
    }
}

/// Conversion keeps the weights: where no two of them overlap, each reads back from its offset.
pub proof fn law_weights_read_back(template: Template, pieces: Seq<Vec<u16>>, k: int)
    requires
        pieces_fit(template, pieces),
        0 <= k < pieces.len(),
        forall|j: int| k < j < pieces.len() ==> #[trigger] apart(template, pieces, k, j),
    ensures
        with_pieces(template, pieces, pieces.len() as int).subrange(
            template.weights@[k].offset as int,
            template.weights@[k].offset + 2 * pieces[k]@.len(),
        ) == half_bytes(pieces[k]@),
{
    lemma_piece_stays(template, pieces, k, pieces.len() as int);
}

/// A weight without a norm is written as the first values of the tensor under its key: from its offset on
/// stand the halves of as many as its shape has, lowest byte first, where no later weight overlaps it.
pub proof fn law_values_are_written<N: Fn(u32) -> u16, G: Fn(Vec<u32>, Vec<u32>) -> Vec<u16>>(
    template: Template,
    tensors: Map<Seq<char>, TensorValue>,
    narrow: N,
    without_norm: G,
    pieces: Seq<Vec<u16>>,
    k: int,
)
    requires
        has_all_values(template.weights@, tensors),
        are_pieces(template.weights@, tensors, narrow, without_norm, pieces),
        pieces_fit(template, pieces),
        0 <= k < pieces.len(),
        template.weights@[k].weight_norm is None,
        forall|j: int| k < j < pieces.len() ==> #[trigger] apart(template, pieces, k, j),
    ensures
        ({
            let w = template.weights@[k];
            let count = model::product(w.shape@);
            let written = with_pieces(template, pieces, pieces.len() as int);
            &&& pieces[k]@.len() == count <= model::singles(tensors[w.key@]).len()
            &&& written.subrange(w.offset as int, w.offset + 2 * count) == half_bytes(pieces[k]@)
            &&& forall|i: int|
                0 <= i < count ==> call_ensures(
                    narrow,
                    (model::singles(tensors[w.key@])[i],),
                    #[trigger] pieces[k]@[i],
                )
        }),
{
    law_weights_read_back(template, pieces, k);
    let w = template.weights@[k];
    assert(has_values(w, tensors));
    assert(is_piece(w, tensors, narrow, without_norm, pieces[k]));
    assert forall|i: int| 0 <= i < model::product(w.shape@) implies call_ensures(
        narrow,
        (model::singles(tensors[w.key@])[i],),
        #[trigger] pieces[k]@[i],
    ) by {
        assert(plain_values(w, tensors)[i] == model::singles(tensors[w.key@])[i]);
    }
}

/// The model files that a converted model names: the shared ones where they are, and its own
/// generator beside it.
pub open spec fn files_value(contentvec: Seq<char>, rmvpe: Seq<char>, fcpe: Seq<char>) -> JsonValue {
    JsonValue::Object(
        seq![
            ("contentvec"@, JsonValue::Text(contentvec)),
            ("fcpe"@, JsonValue::Text(fcpe)),
            ("generator"@, JsonValue::Text("generator.onnx"@)),
            ("rmvpe"@, JsonValue::Text(rmvpe)),
        ],
    )
}

/// The `files` entry of a converted model's description.
pub fn files_entry(contentvec: String, rmvpe: String, fcpe: String) -> (r: Json)
    ensures
        r@ == files_value(contentvec@, rmvpe@, fcpe@),
{
    let mut members: Vec<(String, Json)> = Vec::new();
    members.push(("contentvec".to_owned(), Json::Text(contentvec)));
    members.push(("fcpe".to_owned(), Json::Text(fcpe)));
    members.push(("generator".to_owned(), Json::Text("generator.onnx".to_owned())));
    members.push(("rmvpe".to_owned(), Json::Text(rmvpe)));
    proof {
        json::lemma_json_object(members);
        assert(json::member_views(members@) =~= files_value(
            contentvec@,
            rmvpe@,
            fcpe@,
        )->Object_0);
    }
    Json::Object(members)
}

/// The description of a converted model: that of the template, with the files of the model. All else stays.
pub fn model_with_files(model: Json, files: Json) -> (r: Json)
    requires
        model@ is Object || model@ is Null,
    ensures
        r@ == json::with_member(model@, "files"@, files@),
        json::member(r@, "files"@) == files@,
        forall|name: Seq<char>|
            name != "files"@ ==> #[trigger] json::member(r@, name) == json::member(model@, name),
{
    model.with("files", files)
}

/// A model that was just converted is whole: with the graph of the template, weights of its length and a
/// description that reads back as the template's with the files of the model, nothing is left to do.
pub proof fn law_converted_is_usable(w: Written, graph: Seq<u8>, template: Template, files: JsonValue)
    requires
        w.graph == graph,
        w.weights.len() == template.weights_len,
        template.model@ is Object,
        json::json_document(w.description) == Ok::<JsonValue, Seq<char>>(
            json::with_member(template.model@, "files"@, files),
        ),
        json::member(template.model@, "generator_kind"@) == JsonValue::Text(KIND@),
        json::json_equal(
            json::member(template.model@, "model_sr"@),
            json::member(template.model@, "model_sr"@),
        ),
    ensures
        writes_whole(w, graph, template),
{
    reveal_strlit("files");
    reveal_strlit("generator_kind");
    reveal_strlit("model_sr");
    assert("files"@.len() == 5);
    json::lemma_other_members_stay(template.model@, "files"@, files, "generator_kind"@);
    json::lemma_other_members_stay(template.model@, "files"@, files, "model_sr"@);
}

/// A checkpoint of version 2 with a pitch is not refused where it names no embedder or the supported one, and
/// no vocoder or the supported one; any other is, for the first of these that it lacks.
pub proof fn law_supported_is_not_refused(s: SourceValue)
    ensures
        refused(s) is None <==> {
            &&& s.version == Some("v2"@)
            &&& s.f0
            &&& s.embedder is None || s.embedder == Some("contentvec"@)
            &&& s.vocoder is None || s.vocoder == Some("HiFi-GAN"@)
        },
        s.version is None ==> refused(s) == Some(UnsupportedValue::Version("v1"@)),
        s.version matches Some(v) ==> v != "v2"@ ==> refused(s) == Some(UnsupportedValue::Version(v)),
        s.version == Some("v2"@) && !s.f0 ==> refused(s) == Some(UnsupportedValue::NoF0),
        s.version == Some("v2"@) && s.f0 && refused(s) is Some ==> refused(s) == Some(
            UnsupportedValue::Config,
        ),
{
    reveal_strlit("v1");
    reveal_strlit("v2");
    assert("v1"@[1] != "v2"@[1]);
}

proof fn lemma_all_there(weights: Seq<TemplateWeight>, tensors: Map<Seq<char>, TensorValue>, from: int)
    requires
        0 <= from,
        forall|i: int| from <= i < weights.len() ==> weight_fits(#[trigger] weights[i], tensors),
    ensures
        missing_weight(weights, tensors, from) is None,
    decreases weights.len() - from,
{
    if from < weights.len() {
        lemma_all_there(weights, tensors, from + 1);
    }
}

proof fn lemma_reaches(s: SourceValue, entries: Seq<TemplateEntry>, from: int, at: int)
    requires
        0 <= from <= at < entries.len(),
        forall|i: int|
            from <= i < at ==> ((#[trigger] entries[i]).template matches Ok(u) && !same_configs(
                json::json_views(u.config@),
                s.config,
            )),
    ensures
        fitting(s, entries, from) == fitting(s, entries, at),
    decreases at - from,
{
    if from < at {
        assert(entries[from].template is Ok);
        lemma_reaches(s, entries, from + 1, at);
    }
}

/// A supported checkpoint fits the first template of its config where the templates before it can be read
/// and it has every weight in its shape; where it lacks one, the first that it lacks is named.
pub proof fn law_supported_fits_its_template(s: SourceValue, entries: Seq<TemplateEntry>, at: int, k: int)
    requires
        s.version == Some("v2"@),
        s.f0,
        s.embedder is None || s.embedder == Some("contentvec"@),
        s.vocoder is None || s.vocoder == Some("HiFi-GAN"@),
        0 <= at < entries.len(),
        forall|i: int|
            0 <= i < at ==> ((#[trigger] entries[i]).template matches Ok(u) && !same_configs(
                json::json_views(u.config@),
                s.config,
            )),
        entries[at].template is Ok,
        same_configs(json::json_views(entries[at].template->Ok_0.config@), s.config),
    ensures
        ({
            let weights = entries[at].template->Ok_0.weights@;
            &&& (forall|i: int|
                0 <= i < weights.len() ==> weight_fits(#[trigger] weights[i], s.tensors))
                ==> inspected(s, entries) == Ok::<int, ErrorValue>(at)
            &&& 0 <= k < weights.len() && !weight_fits(weights[k], s.tensors) && (forall|i: int|
                0 <= i < k ==> weight_fits(#[trigger] weights[i], s.tensors)) ==> inspected(s, entries)
                == Err::<int, ErrorValue>(
                ErrorValue::Unsupported(UnsupportedValue::Weights(weights[k].key@)),
            )
        }),
{
    law_supported_is_not_refused(s);
    lemma_reaches(s, entries, 0, at);
    let weights = entries[at].template->Ok_0.weights@;
    if forall|i: int| 0 <= i < weights.len() ==> weight_fits(#[trigger] weights[i], s.tensors) {
        lemma_all_there(weights, s.tensors, 0);
    }
    if 0 <= k < weights.len() && !weight_fits(weights[k], s.tensors) && (forall|i: int|
        0 <= i < k ==> weight_fits(#[trigger] weights[i], s.tensors)) {
        lemma_first_missing(weights, s.tensors, 0, k);
    }
}

proof fn lemma_first_missing(
    weights: Seq<TemplateWeight>,
    tensors: Map<Seq<char>, TensorValue>,
    from: int,
    k: int,
)
    requires
        0 <= from <= k < weights.len(),
        !weight_fits(weights[k], tensors),
        forall|i: int| from <= i < k ==> weight_fits(#[trigger] weights[i], tensors),
    ensures
        missing_weight(weights, tensors, from) == Some(weights[k].key@),
    decreases k - from,
{
    if from < k {
        lemma_first_missing(weights, tensors, from + 1, k);
    }
}

/// A shape fits where every dimension is the same; where the rows are free, the first may be any but zero.
pub proof fn law_shapes_fit_dimension_by_dimension(t: Seq<usize>, shape: Seq<usize>)
    requires
        shape.len() > 0,
    ensures
        shape_fits(t, shape, false) <==> t.len() == shape.len() && forall|i: int|
            0 <= i < shape.len() ==> #[trigger] t[i] == shape[i],
        shape_fits(t, shape, true) <==> t.len() == shape.len() && t[0] > 0 && forall|i: int|
            1 <= i < shape.len() ==> #[trigger] t[i] == shape[i],
{
    if t.len() == shape.len() {
        if t.skip(1) == shape.skip(1) {
            assert forall|i: int| 1 <= i < shape.len() implies #[trigger] t[i] == shape[i] by {
                assert(t.skip(1)[i - 1] == t[i]);
                assert(shape.skip(1)[i - 1] == shape[i]);
            }
        }
        if forall|i: int| 1 <= i < shape.len() ==> #[trigger] t[i] == shape[i] {
            assert(t.skip(1) =~= shape.skip(1));
        }
        if forall|i: int| 0 <= i < shape.len() ==> #[trigger] t[i] == shape[i] {
            assert(t =~= shape);
        }
    }
}

/// A plain weight is looked up by its own name. A normed one is looked up by the names of its two parts: the
/// directions have its shape, and the magnitudes one value for every first dimension.
pub proof fn law_weights_fit_by_name_and_shape(w: TemplateWeight, tensors: Map<Seq<char>, TensorValue>)
    requires
        w.shape@.len() > 0,
        w.rows is None,
    ensures
        w.weight_norm is None ==> (weight_fits(w, tensors) <==> tensors.dom().contains(w.key@)
            && tensors[w.key@].shape == w.shape@),
        w.weight_norm matches Some((g, v)) ==> (weight_fits(w, tensors) <==> {
            &&& tensors.dom().contains(v@) && tensors[v@].shape == w.shape@
            &&& tensors.dom().contains(g@) && tensors[g@].shape.len() == w.shape@.len()
            &&& tensors[g@].shape[0] == w.shape@[0]
            &&& forall|i: int| 1 <= i < w.shape@.len() ==> #[trigger] tensors[g@].shape[i] == 1
        }),
{
    if let Some((g, v)) = w.weight_norm {
        let t = tensors[g@].shape;
        if t.len() == w.shape@.len() && t[0] == w.shape@[0] && (forall|i: int|
            1 <= i < w.shape@.len() ==> #[trigger] t[i] == 1) {
            assert(t =~= norm_shape(w.shape@));
        }
    }
}

/// Two lists of settings agree where they are as long as each other and agree entry by entry, but for the
/// speakers in the sixteenth place.
pub proof fn law_settings_agree_entry_by_entry(template: Seq<JsonValue>, model: Seq<JsonValue>)
    ensures
        same_configs(template, model) <==> template.len() == model.len() && (forall|i: int|
            0 <= i < template.len() && i != 15 ==> same_entry(#[trigger] template[i], model[i])),
{
}

/// Entries agree part by part: texts and flags where they are the same, lists where they are as long as each
/// other and agree in every place, and a number with nothing but a number.
pub proof fn law_entries_agree_part_by_part(a: JsonValue, b: JsonValue)
    ensures
        a is Text && b is Text ==> (same_entry(a, b) <==> a == b),
        a is Bool && b is Bool ==> (same_entry(a, b) <==> a == b),
        a is Array && b is Array ==> (same_entry(a, b) <==> a->Array_0.len() == b->Array_0.len() && (
        forall|i: int| 0 <= i < a->Array_0.len() ==> same_entry(#[trigger] a->Array_0[i], b->Array_0[i]))),
        a is Natural && (b is Text || b is Array || b is Bool || b is Null || b is Object)
            ==> !same_entry(a, b),
        a is Text && (b is Natural || b is Negative || b is Double || b is Array || b is Bool || b is Null)
            ==> !same_entry(a, b),
        a is Double && b is Double ==> (same_entry(a, b) <==> bits::double_equal(
            a->Double_0,
            b->Double_0,
        )),
{
}

/// A half is written in two bytes, the lower one first.
pub proof fn law_halves_are_two_bytes(halves: Seq<u16>, i: int)
    requires
        0 <= i < halves.len(),
    ensures
        half_bytes(halves).len() == 2 * halves.len(),
        half_bytes(halves)[2 * i] + 256 * half_bytes(halves)[2 * i + 1] == halves[i],
{
    assert(2 * i / 2 == i && (2 * i + 1) / 2 == i);
    assert((2 * i) % 2 == 0 && (2 * i + 1) % 2 == 1);
}

/// What no piece covers stays zero, and the weights keep their length.
pub proof fn law_gaps_stay_zero(template: Template, pieces: Seq<Vec<u16>>, n: int, at: int)
    requires
        pieces_fit(template, pieces),
        0 <= n <= pieces.len(),
        0 <= at < template.weights_len,
        forall|i: int|
            0 <= i < n ==> at < (#[trigger] template.weights@[i]).offset || at
                >= template.weights@[i].offset + 2 * pieces[i]@.len(),
    ensures
        with_pieces(template, pieces, n).len() == template.weights_len,
        with_pieces(template, pieces, n)[at] == 0,
    decreases n,
{
    if n > 0 {
        law_gaps_stay_zero(template, pieces, n - 1, at);
        let w = template.weights@[n - 1];
        let before = with_pieces(template, pieces, n - 1);
        lemma_halves_len(pieces[n - 1]@);
        if at < w.offset {
            assert(with_pieces(template, pieces, n)[at] == before[at]);
        } else {
            assert(with_pieces(template, pieces, n)[at] == before[at]);
        }
    }
}

proof fn lemma_halves_len(halves: Seq<u16>)
    ensures
        half_bytes(halves).len() == 2 * halves.len(),
{
}

/// A model is described with the paths of the shared graphs, each under its own name, and its own generator.
pub proof fn law_files_are_named(contentvec: Seq<char>, rmvpe: Seq<char>, fcpe: Seq<char>)
    ensures
        json::member(files_value(contentvec, rmvpe, fcpe), "contentvec"@) == JsonValue::Text(contentvec),
        json::member(files_value(contentvec, rmvpe, fcpe), "rmvpe"@) == JsonValue::Text(rmvpe),
        json::member(files_value(contentvec, rmvpe, fcpe), "fcpe"@) == JsonValue::Text(fcpe),
        json::member(files_value(contentvec, rmvpe, fcpe), "generator"@) == JsonValue::Text(
            "generator.onnx"@,
        ),
{
    reveal_strlit("contentvec");
    reveal_strlit("rmvpe");
    reveal_strlit("fcpe");
    reveal_strlit("generator");
    let xs = files_value(contentvec, rmvpe, fcpe)->Object_0;
    assert("contentvec"@.len() == 10 && "fcpe"@.len() == 4 && "generator"@.len() == 9 && "rmvpe"@.len()
        == 5);
    json::law_member_is_the_first_of_its_name(xs, "contentvec"@, 0);
    json::law_member_is_the_first_of_its_name(xs, "fcpe"@, 1);
    json::law_member_is_the_first_of_its_name(xs, "generator"@, 2);
    json::law_member_is_the_first_of_its_name(xs, "rmvpe"@, 3);
}

/// A conversion is used again exactly where its graph is that of the template, its weights are as long, and it
/// is described as of the kind and with the rate of the template.
pub proof fn law_whole_conversions_are_used_again(cached: Cached, graph: Seq<u8>, template: Template)
    ensures
        usable(cached, graph, template) <==> {
            &&& cached.graph is Some && cached.graph->Some_0@ == graph
            &&& cached.weights_len is Some && cached.weights_len->Some_0 == template.weights_len
            &&& cached.description is Some
            &&& json::json_document(cached.description->Some_0@) is Ok
            &&& json::member(json::json_document(cached.description->Some_0@)->Ok_0, "generator_kind"@)
                == JsonValue::Text("deiteris-onnx-v1"@)
            &&& json::json_equal(
                json::member(json::json_document(cached.description->Some_0@)->Ok_0, "model_sr"@),
                json::member(template.model@, "model_sr"@),
            )
        },
{
}

/// The norm is taken off wherever every magnitude has as many directions as the others.
pub proof fn law_even_norms_are_taken_off(magnitudes: nat, each: nat)
    requires
        magnitudes > 0,
        each > 0,
    ensures
        normed(magnitudes, magnitudes * each),
        !normed(0, each),
{
    let m = magnitudes as int;
    let e = each as int;
    assert(m <= m * e) by (nonlinear_arith)
        requires
            m > 0,
            e > 0,
    ;
    assert(m * e == e * m) by (nonlinear_arith);
    vstd::arithmetic::div_mod::lemma_fundamental_div_mod_converse(m * e, m, e, 0);
    vstd::arithmetic::div_mod::lemma_fundamental_div_mod_converse(m * e, e, m, 0);
}

/// Pieces fit where there is one for every weight and each ends within the weights, the last byte included.
pub proof fn law_pieces_end_within_the_weights(template: Template, pieces: Seq<Vec<u16>>)
    ensures
        pieces_fit(template, pieces) <==> pieces.len() == template.weights@.len() && forall|i: int|
            0 <= i < pieces.len() ==> 2 * pieces[i]@.len() <= template.weights_len - (
            #[trigger] template.weights@[i]).offset,
{
}

/// The template that is looked into is the first whose settings agree.
pub proof fn law_first_agreeing_template_is_looked_into(s: SourceValue, entries: Seq<TemplateEntry>, from: int, at: int)
    requires
        0 <= from <= at < entries.len(),
        forall|i: int|
            from <= i < at ==> ((#[trigger] entries[i]).template matches Ok(u) && !same_configs(
                json::json_views(u.config@),
                s.config,
            )),
        entries[at].template is Ok,
        same_configs(json::json_views(entries[at].template->Ok_0.config@), s.config),
    ensures
        matching(s, entries, from) == Some(at),
    decreases at - from,
{
    if from < at {
        assert(entries[from].template is Ok);
        law_first_agreeing_template_is_looked_into(s, entries, from + 1, at);
    }
}

} // verus!
