//! The checkpoint reader: a `.pth` archive as torch saves it, or a `.safetensors` file with the
//! config in its metadata. Data is interpreted only; pickle code is never executed.
use crate::bits::widen;
use crate::json::{parse_array, parse_document, Json, JsonValue};
use crate::pickle::{PickleValue, V};
use crate::text::{bytes_between, join, join3, same};
use crate::{bits, json, pickle, text};
use std::io::Read;
use vstd::hash_map::StringHashMap;
use vstd::prelude::*;
use vstd::string::*;
use vstd::utf8;

verus! {

broadcast use vstd::string::group_string_axioms;

/// The element type of a tensor.
#[derive(Clone, Copy, PartialEq, Eq, Structural)]
pub enum Dtype {
    F16,
    F32,
}

/// The bytes that one element takes.
pub open spec fn width(dtype: Dtype) -> int {
    match dtype {
        Dtype::F16 => 2,
        Dtype::F32 => 4,
    }
}

pub struct Tensor {
    pub dtype: Dtype,
    pub shape: Vec<usize>,
    /// The elements, each lowest byte first, as many as the shape has.
    pub data: Vec<u8>,
}

/// What a [`Tensor`] holds.
pub struct TensorValue {
    pub dtype: Dtype,
    pub shape: Seq<usize>,
    pub data: Seq<u8>,
}

/// The product of sizes.
pub open spec fn product(shape: Seq<usize>) -> nat
    decreases shape.len(),
{
    if shape.len() == 0 {
        1
    } else {
        shape[0] as nat * product(shape.skip(1))
    }
}

impl TensorValue {
    /// Whether the data is as long as the shape says.
    pub open spec fn full(self) -> bool {
        self.data.len() == product(self.shape) * width(self.dtype)
    }
}

/// The number in two bytes, lowest first.
pub open spec fn pair_at(data: Seq<u8>, at: int) -> u16 {
    (data[at] + 256 * data[at + 1]) as u16
}

/// The number in four bytes, lowest first.
pub open spec fn quad_at(data: Seq<u8>, at: int) -> u32 {
    (data[at] + 0x100 * data[at + 1] + 0x1_0000 * data[at + 2] + 0x100_0000 * data[at + 3]) as u32
}

/// The elements of a tensor as single-precision numbers.
pub open spec fn singles(t: TensorValue) -> Seq<u32> {
    match t.dtype {
        Dtype::F16 => Seq::new(t.data.len() / 2, |i: int| bits::widened(pair_at(t.data, 2 * i))),
        Dtype::F32 => Seq::new(t.data.len() / 4, |i: int| quad_at(t.data, 4 * i)),
    }
}

impl View for Tensor {
    type V = TensorValue;

    open spec fn view(&self) -> TensorValue {
        TensorValue { dtype: self.dtype, shape: self.shape@, data: self.data@ }
    }
}

impl Tensor {
    /// The bits of the elements as single-precision numbers.
    pub fn to_f32(&self) -> (r: Vec<u32>)
        ensures
            r@ == singles(self@),
    {
        let mut out: Vec<u32> = Vec::new();
        let len: usize = self.data.len();
        match self.dtype {
            Dtype::F16 => {
                let n: usize = len / 2;
                let mut i: usize = 0;
                while i < n
                    invariant
                        self.dtype == Dtype::F16,
                        i <= n == len / 2,
                        len == self.data@.len(),
                        out@ == singles(self@).take(i as int),
                    decreases n - i,
                {
                    let low: u16 = self.data[2 * i] as u16;
                    let high: u16 = self.data[2 * i + 1] as u16;
                    out.push(widen(low + 256 * high));
                    i += 1;
                    assert(out@ =~= singles(self@).take(i as int));
                }
            },
            Dtype::F32 => {
                let n: usize = len / 4;
                let mut i: usize = 0;
                while i < n
                    invariant
                        self.dtype == Dtype::F32,
                        i <= n == len / 4,
                        len == self.data@.len(),
                        out@ == singles(self@).take(i as int),
                    decreases n - i,
                {
                    let b0: u32 = self.data[4 * i] as u32;
                    let b1: u32 = self.data[4 * i + 1] as u32;
                    let b2: u32 = self.data[4 * i + 2] as u32;
                    let b3: u32 = self.data[4 * i + 3] as u32;
                    out.push(b0 + 0x100 * b1 + 0x1_0000 * b2 + 0x100_0000 * b3);
                    i += 1;
                    assert(out@ =~= singles(self@).take(i as int));
                }
            },
        }
        assert(singles(self@).take(singles(self@).len() as int) =~= singles(self@));
        out
    }
}

/// A voice checkpoint.
pub struct Source {
    pub version: Option<String>,
    pub f0: bool,
    pub config: Vec<Json>,
    pub embedder: Option<String>,
    pub vocoder: Option<String>,
    pub tensors: StringHashMap<Tensor>,
    /// The names of the tensors.
    pub names: Vec<String>,
}

/// Whether every one of the keys is listed, once, and nothing else.
pub open spec fn lists(names: Seq<String>, keys: Set<Seq<char>>) -> bool {
    &&& forall|i: int, j: int|
        0 <= i < j < names.len() ==> (#[trigger] names[i])@ != (#[trigger] names[j])@
    &&& forall|i: int| 0 <= i < names.len() ==> keys.contains((#[trigger] names[i])@)
    &&& forall|k: Seq<char>| #[trigger]
        keys.contains(k) ==> exists|i: int| 0 <= i < names.len() && (#[trigger] names[i])@ == k
}

impl Source {
    /// Whether the names are those of the tensors.
    pub open spec fn indexed(&self) -> bool {
        lists(self.names@, self.tensors@.dom())
    }
}

/// What a [`Source`] holds.
pub struct SourceValue {
    pub version: Option<Seq<char>>,
    pub f0: bool,
    pub config: Seq<JsonValue>,
    pub embedder: Option<Seq<char>>,
    pub vocoder: Option<Seq<char>>,
    pub tensors: Map<Seq<char>, TensorValue>,
}

/// The characters of a text that may be missing.
pub open spec fn seen_text(s: Option<String>) -> Option<Seq<char>> {
    match s {
        Some(t) => Some(t@),
        None => None,
    }
}

/// The values of tensors, under the same names.
pub open spec fn tensor_values(m: Map<Seq<char>, Tensor>) -> Map<Seq<char>, TensorValue> {
    Map::new(|k: Seq<char>| m.dom().contains(k), |k: Seq<char>| m[k]@)
}

impl View for Source {
    type V = SourceValue;

    open spec fn view(&self) -> SourceValue {
        SourceValue {
            version: seen_text(self.version),
            f0: self.f0,
            config: json::json_views(self.config@),
            embedder: seen_text(self.embedder),
            vocoder: seen_text(self.vocoder),
            tensors: tensor_values(self.tensors@),
        }
    }
}

impl SourceValue {
    /// Whether every tensor's data is as long as its shape says.
    pub open spec fn full(self) -> bool {
        forall|k: Seq<char>|
            self.tensors.dom().contains(k) ==> (#[trigger] self.tensors[k]).full()
    }
}

/// The names in a zip archive in the order of its directory, or why it cannot be read.
pub uninterp spec fn zip_names(bytes: Seq<u8>) -> Result<Seq<Seq<char>>, Seq<char>>;

/// `zip::ZipArchive::new` and `file_names`: the names in the directory, in its order.
#[verifier::external_body]
fn archive_names(bytes: &[u8]) -> (r: Result<Vec<String>, String>)
    ensures
        match r {
            Ok(names) => zip_names(bytes@) == Ok::<Seq<Seq<char>>, Seq<char>>(
                Seq::new(names@.len(), |i: int| names@[i]@),
            ),
            Err(e) => zip_names(bytes@) == Err::<Seq<Seq<char>>, Seq<char>>(e@),
        },
{
    let zip = zip::ZipArchive::new(std::io::Cursor::new(bytes)).map_err(|e| e.to_string())?;
    Ok(zip.file_names().map(|n| n.to_string()).collect())
}

/// The contents of one file of a zip archive, or why they cannot be read.
pub uninterp spec fn zip_entry(bytes: Seq<u8>, name: Seq<char>) -> Result<Seq<u8>, Seq<char>>;

/// `zip::ZipArchive::by_name`: the whole contents of the file of that name.
#[verifier::external_body]
fn archive_entry(bytes: &[u8], name: &str) -> (r: Result<Vec<u8>, String>)
    ensures
        match r {
            Ok(data) => zip_entry(bytes@, name@) == Ok::<Seq<u8>, Seq<char>>(data@),
            Err(e) => zip_entry(bytes@, name@) == Err::<Seq<u8>, Seq<char>>(e@),
        },
{
    let mut zip = zip::ZipArchive::new(std::io::Cursor::new(bytes)).map_err(|e| e.to_string())?;
    let mut data = Vec::new();
    let mut file = zip.by_name(name).map_err(|e| e.to_string())?;
    file.read_to_end(&mut data).map_err(|e| e.to_string())?;
    Ok(data)
}

/// Whether `s` ends with `tail`.
pub open spec fn ends_with(s: Seq<char>, tail: Seq<char>) -> bool {
    s.len() >= tail.len() && s.skip(s.len() - tail.len()) == tail
}

/// The first name that ends with `tail`.
pub open spec fn first_ending(names: Seq<Seq<char>>, tail: Seq<char>) -> Option<Seq<char>>
    decreases names.len(),
{
    if names.len() == 0 {
        None
    } else if ends_with(names[0], tail) {
        Some(names[0])
    } else {
        first_ending(names.skip(1), tail)
    }
}

/// `s` without `tail` at its end, as often as it stands there.
pub open spec fn trimmed(s: Seq<char>, tail: Seq<char>) -> Seq<char>
    decreases s.len(),
{
    if tail.len() > 0 && ends_with(s, tail) {
        trimmed(s.take(s.len() - tail.len()), tail)
    } else {
        s
    }
}

/// The element type of a torch storage.
pub open spec fn storage_dtype(name: Seq<char>) -> Option<Dtype> {
    if name == "HalfStorage"@ {
        Some(Dtype::F16)
    } else if name == "FloatStorage"@ {
        Some(Dtype::F32)
    } else {
        None
    }
}

/// Whether the elements stand row by row without gaps. The stride of a dimension of one element
/// does not matter.
pub open spec fn contiguous(shape: Seq<usize>, stride: Seq<usize>) -> bool {
    forall|i: int|
        0 <= i < shape.len() && i < stride.len() && shape[i] > 1 ==> #[trigger] stride[i] == product(
            shape.skip(i + 1),
        )
}

/// The elements of a shape from an offset in a storage, where the storage holds them.
pub open spec fn stored_part(
    storage: Seq<u8>,
    dtype: Dtype,
    offset: usize,
    shape: Seq<usize>,
) -> Option<TensorValue> {
    let start = offset * width(dtype);
    let end = start + product(shape) * width(dtype);
    if end <= storage.len() {
        Some(TensorValue { dtype, shape, data: storage.subrange(start, end) })
    } else {
        None
    }
}

/// The tensor `name` of an archive whose files stand under `prefix`.
pub open spec fn pth_tensor(
    bytes: Seq<u8>,
    prefix: Seq<char>,
    name: Seq<char>,
    dtype: Seq<char>,
    key: Seq<char>,
    offset: usize,
    shape: Seq<usize>,
    stride: Seq<usize>,
) -> Result<TensorValue, Seq<char>> {
    match storage_dtype(dtype) {
        None => Err("tensor "@ + name + " has storage "@ + dtype),
        Some(element) => if !contiguous(shape, stride) {
            Err("tensor "@ + name + " is not contiguous"@)
        } else {
            match zip_entry(bytes, prefix + "data/"@ + key) {
                Err(e) => Err(e),
                Ok(storage) => match stored_part(storage, element, offset, shape) {
                    Some(t) => Ok(t),
                    None => Err("tensor "@ + name + " is outside its storage"@),
                },
            }
        },
    }
}

/// The tensors of a weight dict, gathered in its order into those in `known`: a later one of the
/// same name replaces an earlier one, and what is no tensor under a name is left out.
pub open spec fn pth_tensors(
    bytes: Seq<u8>,
    prefix: Seq<char>,
    items: Seq<(PickleValue, PickleValue)>,
    known: Map<Seq<char>, TensorValue>,
) -> Result<Map<Seq<char>, TensorValue>, Seq<char>>
    decreases items.len(),
{
    if items.len() == 0 {
        Ok(known)
    } else {
        match items[0] {
            (
                PickleValue::Str(name),
                PickleValue::Tensor { dtype, key, offset, shape, stride },
            ) => match pth_tensor(bytes, prefix, name, dtype, key, offset, shape, stride) {
                Ok(t) => pth_tensors(bytes, prefix, items.skip(1), known.insert(name, t)),
                Err(e) => Err(e),
            },
            _ => pth_tensors(bytes, prefix, items.skip(1), known),
        }
    }
}

/// The text under `key`, where there is one.
pub open spec fn text_under(root: PickleValue, key: Seq<char>) -> Option<Seq<char>> {
    match pickle::found(root, key) {
        Some(PickleValue::Str(s)) => Some(s),
        _ => None,
    }
}

/// Whether a checkpoint with this entry was trained with a pitch; so were those without it.
pub open spec fn pitched(f0: Option<PickleValue>) -> bool {
    match f0 {
        None => true,
        Some(PickleValue::Int(i)) => i != 0,
        Some(PickleValue::Bool(b)) => b,
        Some(PickleValue::Str(s)) => s == "True"@ || s == "1"@,
        Some(_) => false,
    }
}

/// The checkpoint that a loaded pickle and the archive around it make.
pub open spec fn pth_source(bytes: Seq<u8>, prefix: Seq<char>, root: PickleValue) -> Result<
    SourceValue,
    Seq<char>,
> {
    match pickle::found(root, "weight"@) {
        Some(PickleValue::Dict(items)) => match pth_tensors(bytes, prefix, items, Map::empty()) {
            Err(e) => Err(e),
            Ok(tensors) => match pickle::found(root, "config"@) {
                None => Err("no config"@),
                Some(c) => match pickle::json_of(c) {
                    JsonValue::Array(config) => Ok(
                        SourceValue {
                            version: text_under(root, "version"@),
                            f0: pitched(pickle::found(root, "f0"@)),
                            config,
                            embedder: text_under(root, "embedder_model"@),
                            vocoder: text_under(root, "vocoder"@),
                            tensors,
                        },
                    ),
                    _ => Err("config is not a list"@),
                },
            },
        },
        _ => Err("no weight dict"@),
    }
}

/// The checkpoint in a torch archive, or why there is none.
pub open spec fn pth_contents(bytes: Seq<u8>) -> Result<SourceValue, Seq<char>> {
    match zip_names(bytes) {
        Err(e) => Err(e),
        Ok(names) => match first_ending(names, "data.pkl"@) {
            None => Err("no data.pkl in the archive"@),
            Some(pkl) => match zip_entry(bytes, pkl) {
                Err(e) => Err(e),
                Ok(data) => match pickle::loaded(data) {
                    Err(e) => Err(e),
                    Ok(root) => pth_source(bytes, trimmed(pkl, "data.pkl"@), root),
                },
            },
        },
    }
}

/// Whether `s` ends with `tail`.
fn ends(s: &str, tail: &str) -> (r: bool)
    ensures
        r == ends_with(s@, tail@),
{
    let n: usize = s.unicode_len();
    let k: usize = tail.unicode_len();
    if n < k {
        return false;
    }
    assert(s@.subrange(n - k, n as int) =~= s@.skip(n - k));
    same(s.substring_char(n - k, n), tail)
}

/// `s` without `tail` at its end, as often as it stands there.
fn trim(s: &str, tail: &str) -> (r: String)
    requires
        tail@.len() > 0,
    ensures
        r@ == trimmed(s@, tail@),
{
    let mut rest: String = s.to_owned();
    let k: usize = tail.unicode_len();
    while ends(rest.as_str(), tail)
        invariant
            k == tail@.len() > 0,
            trimmed(s@, tail@) == trimmed(rest@, tail@),
        decreases rest@.len(),
    {
        let n: usize = rest.as_str().unicode_len();
        assert(rest@.subrange(0, n - k) =~= rest@.take(n - k));
        rest = rest.as_str().substring_char(0, n - k).to_owned();
    }
    rest
}

/// The first name that ends with `tail`.
fn find_ending(names: &Vec<String>, tail: &str) -> (r: Option<String>)
    ensures
        seen_text(r) == first_ending(Seq::new(names@.len(), |i: int| names@[i]@), tail@),
{
    let ghost all = Seq::new(names@.len(), |i: int| names@[i]@);
    assert(all.skip(0) =~= all);
    let mut i: usize = 0;
    while i < names.len()
        invariant
            i <= names@.len(),
            all == Seq::new(names@.len(), |j: int| names@[j]@),
            first_ending(all, tail@) == first_ending(all.skip(i as int), tail@),
        decreases names@.len() - i,
    {
        assert(all.skip(i as int)[0] == names@[i as int]@);
        assert(all.skip(i as int).skip(1) =~= all.skip(i + 1));
        if ends(names[i].as_str(), tail) {
            return Some(names[i].clone());
        }
        i += 1;
    }
    None
}

/// Whether `o` stands for `n`, `None` being any number above the largest address.
pub open spec fn stands_for(o: Option<usize>, n: nat) -> bool {
    match o {
        Some(v) => v == n,
        None => n > usize::MAX,
    }
}

fn times(a: Option<usize>, b: usize, Ghost(n): Ghost<nat>) -> (r: Option<usize>)
    requires
        stands_for(a, n),
    ensures
        stands_for(r, n * b as nat),
{
    if b == 0 {
        assert(n * 0 == 0);
        return Some(0);
    }
    match a {
        Some(v) => v.checked_mul(b),
        None => {
            assert(n * b >= n) by (nonlinear_arith)
                requires
                    b >= 1,
            ;
            None
        },
    }
}

/// The product of the sizes from `from` on.
pub(crate) fn product_from(shape: &Vec<usize>, from: usize) -> (r: Option<usize>)
    requires
        from <= shape@.len(),
    ensures
        stands_for(r, product(shape@.skip(from as int))),
{
    let mut value: Option<usize> = Some(1);
    let mut i: usize = shape.len();
    assert(shape@.skip(i as int).len() == 0);
    while i > from
        invariant
            from <= i <= shape@.len(),
            stands_for(value, product(shape@.skip(i as int))),
        decreases i,
    {
        let ghost rest = product(shape@.skip(i as int));
        i -= 1;
        proof {
            assert(shape@.skip(i as int)[0] == shape@[i as int]);
            assert(shape@.skip(i as int).skip(1) =~= shape@.skip(i + 1));
            assert(shape@[i as int] as nat * rest == rest * shape@[i as int] as nat) by (nonlinear_arith);
        }
        value = times(value, shape[i], Ghost(rest));
    }
    value
}

/// Whether the elements stand row by row without gaps.
fn is_contiguous(shape: &Vec<usize>, stride: &Vec<usize>) -> (r: bool)
    ensures
        r == contiguous(shape@, stride@),
{
    let mut i: usize = 0;
    while i < shape.len() && i < stride.len()
        invariant
            i <= shape@.len(),
            i <= stride@.len(),
            forall|j: int|
                0 <= j < i && shape@[j] > 1 ==> #[trigger] stride@[j] == product(shape@.skip(j + 1)),
        decreases shape@.len() - i,
    {
        if shape[i] > 1 {
            let fits: bool = match product_from(shape, i + 1) {
                Some(v) => v == stride[i],
                None => false,
            };
            if !fits {
                assert(stride@[i as int] != product(shape@.skip(i + 1)));
                return false;
            }
        }
        i += 1;
    }
    true
}

fn copy_shape(xs: &Vec<usize>) -> (r: Vec<usize>)
    ensures
        r@ == xs@,
{
    let mut out: Vec<usize> = Vec::new();
    let mut i: usize = 0;
    while i < xs.len()
        invariant
            i <= xs@.len(),
            out@ == xs@.take(i as int),
        decreases xs@.len() - i,
    {
        out.push(xs[i]);
        i += 1;
    }
    assert(xs@.take(xs@.len() as int) =~= xs@);
    out
}

/// The elements of a shape from an offset in a storage.
fn part(storage: &Vec<u8>, dtype: Dtype, offset: usize, shape: &Vec<usize>) -> (r: Option<Tensor>)
    ensures
        match stored_part(storage@, dtype, offset, shape@) {
            Some(t) => r matches Some(u) && u@ == t,
            None => r is None,
        },
{
    let size: usize = match dtype {
        Dtype::F16 => 2,
        Dtype::F32 => 4,
    };
    let total: usize = storage.len();
    assert(shape@.skip(0) =~= shape@);
    let count: usize = match product_from(shape, 0) {
        Some(n) => n,
        None => {
            proof {
                let n = product(shape@);
                assert(offset * width(dtype) >= 0) by (nonlinear_arith)
                    requires
                        width(dtype) > 0,
                ;
                assert(n * width(dtype) >= n) by (nonlinear_arith)
                    requires
                        width(dtype) >= 1,
                ;
            }
            return None;
        },
    };
    if offset > total / size || count > total / size || count > total / size - offset {
        proof {
            assert(offset + count > total as int / size as int);
            assert(offset * size + count * size > total) by (nonlinear_arith)
                requires
                    offset + count > total as int / size as int,
                    size > 0,
            ;
        }
        return None;
    }
    proof {
        assert(offset * size + count * size <= total) by (nonlinear_arith)
            requires
                offset + count <= total as int / size as int,
                size > 0,
        ;
        assert(0 <= offset * size) by (nonlinear_arith);
        assert(0 <= count * size) by (nonlinear_arith);
    }
    let start: usize = offset * size;
    let end: usize = start + count * size;
    Some(
        Tensor {
            dtype,
            shape: copy_shape(shape),
            data: bytes_between(storage.as_slice(), start, end),
        },
    )
}

/// The first place of a storage that was read before; there is none exactly where no storage has the
/// key.
fn find_storage(storages: &Vec<(String, Vec<u8>)>, key: &str) -> (r: Option<usize>)
    ensures
        match r {
            Some(i) => {
                &&& i < storages@.len()
                &&& storages@[i as int].0@ == key@
                &&& forall|j: int| 0 <= j < i ==> (#[trigger] storages@[j]).0@ != key@
            },
            None => forall|j: int|
                0 <= j < storages@.len() ==> (#[trigger] storages@[j]).0@ != key@,
        },
{
    let mut i: usize = 0;
    while i < storages.len()
        invariant
            i <= storages@.len(),
            forall|j: int| 0 <= j < i ==> (#[trigger] storages@[j]).0@ != key@,
        decreases storages@.len() - i,
    {
        let entry = &storages[i];
        if same(entry.0.as_str(), key) {
            return Some(i);
        }
        i += 1;
    }
    None
}

/// Whether the storages are what the archive holds under their keys, each there once.
spec fn read_before(bytes: Seq<u8>, prefix: Seq<char>, storages: Seq<(String, Vec<u8>)>) -> bool {
    &&& forall|i: int|
        0 <= i < storages.len() ==> zip_entry(bytes, prefix + "data/"@ + (#[trigger] storages[i]).0@)
            == Ok::<Seq<u8>, Seq<char>>(storages[i].1@)
    &&& forall|i: int, j: int|
        0 <= i < j < storages.len() ==> (#[trigger] storages[i]).0@ != (#[trigger] storages[j]).0@
}

/// One tensor of the archive. A storage is read once and kept in `storages`.
fn read_tensor(
    bytes: &[u8],
    prefix: &str,
    name: &str,
    dtype: &String,
    key: &String,
    offset: usize,
    shape: &Vec<usize>,
    stride: &Vec<usize>,
    storages: &mut Vec<(String, Vec<u8>)>,
) -> (r: Result<Tensor, String>)
    requires
        read_before(bytes@, prefix@, old(storages)@),
    ensures
        read_before(bytes@, prefix@, final(storages)@),
        match pth_tensor(bytes@, prefix@, name@, dtype@, key@, offset, shape@, stride@) {
            Ok(t) => r matches Ok(u) && u@ == t,
            Err(e) => r matches Err(m) && m@ == e,
        },
{
    let element: Dtype = if same(dtype.as_str(), "HalfStorage") {
        Dtype::F16
    } else if same(dtype.as_str(), "FloatStorage") {
        Dtype::F32
    } else {
        return Err(join(join3("tensor ", name, " has storage ").as_str(), dtype.as_str()));
    };
    if !is_contiguous(shape, stride) {
        return Err(join3("tensor ", name, " is not contiguous"));
    }
    let at: usize = match find_storage(storages, key.as_str()) {
        Some(i) => i,
        None => {
            let path = join3(prefix, "data/", key.as_str());
            match archive_entry(bytes, path.as_str()) {
                Ok(data) => {
                    storages.push((key.clone(), data));
                    storages.len() - 1
                },
                Err(e) => {
                    return Err(e);
                },
            }
        },
    };
    let storage = &storages[at].1;
    match part(storage, element, offset, shape) {
        Some(t) => Ok(t),
        None => Err(join3("tensor ", name, " is outside its storage")),
    }
}

/// Keeps a tensor under its name.
fn keep(tensors: &mut StringHashMap<Tensor>, names: &mut Vec<String>, name: String, t: Tensor)
    requires
        lists(old(names)@, old(tensors)@.dom()),
    ensures
        final(tensors)@ == old(tensors)@.insert(name@, t),
        lists(final(names)@, final(tensors)@.dom()),
{
    let ghost before = names@;
    let ghost keys = tensors@.dom();
    if !tensors.contains_key(name.as_str()) {
        names.push(name.clone());
        assert forall|k: Seq<char>| #[trigger] keys.insert(name@).contains(k) implies exists|i: int|
            0 <= i < names@.len() && (#[trigger] names@[i])@ == k by {
            if k == name@ {
                assert(names@[before.len() as int]@ == k);
            } else {
                let i = choose|i: int| 0 <= i < before.len() && (#[trigger] before[i])@ == k;
                assert(names@[i]@ == k);
            }
        }
    } else {
        assert(keys.insert(name@) =~= keys);
    }
    tensors.insert(name, t);
    assert(tensors@.dom() =~= keys.insert(name@));
}

/// The tensors of a weight dict, with their names.
fn read_tensors(bytes: &[u8], prefix: &str, items: &Vec<(V, V)>) -> (r: Result<
    (StringHashMap<Tensor>, Vec<String>),
    String,
>)
    ensures
        match pth_tensors(bytes@, prefix@, pickle::pair_views(items@), Map::empty()) {
            Ok(m) => r matches Ok((t, names)) && tensor_values(t@) == m && lists(
                names@,
                t@.dom(),
            ),
            Err(e) => r matches Err(m) && m@ == e,
        },
{
    let ghost all = pickle::pair_views(items@);
    let mut storages: Vec<(String, Vec<u8>)> = Vec::new();
    let mut tensors: StringHashMap<Tensor> = StringHashMap::new();
    let mut names: Vec<String> = Vec::new();
    assert(all.skip(0) =~= all);
    assert(tensor_values(tensors@) =~= Map::empty());
    let mut i: usize = 0;
    while i < items.len()
        invariant
            i <= items@.len(),
            all == pickle::pair_views(items@),
            read_before(bytes@, prefix@, storages@),
            lists(names@, tensors@.dom()),
            pth_tensors(bytes@, prefix@, all, Map::empty()) == pth_tensors(
                bytes@,
                prefix@,
                all.skip(i as int),
                tensor_values(tensors@),
            ),
        decreases items@.len() - i,
    {
        assert(all.skip(i as int)[0] == all[i as int]);
        assert(all.skip(i as int).skip(1) =~= all.skip(i + 1));
        let item = &items[i];
        match (&item.0, &item.1) {
            (V::Str(name), V::Tensor { dtype, key, offset, shape, stride }) => {
                match read_tensor(
                    bytes,
                    prefix,
                    name.as_str(),
                    dtype,
                    key,
                    *offset,
                    shape,
                    stride,
                    &mut storages,
                ) {
                    Ok(t) => {
                        let ghost before = tensors@;
                        keep(&mut tensors, &mut names, name.clone(), t);
                        assert(tensor_values(tensors@) =~= tensor_values(before).insert(name@, t@));
                    },
                    Err(e) => {
                        return Err(e);
                    },
                }
            },
            _ => {},
        }
        i += 1;
    }
    Ok((tensors, names))
}

/// The text under `key`.
fn text_in(root: &V, key: &str) -> (r: Option<String>)
    ensures
        seen_text(r) == text_under(root@, key@),
{
    match root.get(key) {
        Some(V::Str(s)) => Some(s.clone()),
        _ => None,
    }
}

/// Whether a checkpoint with this entry was trained with a pitch.
fn has_pitch(f0: Option<&V>) -> (r: bool)
    ensures
        r == pitched(match f0 { Some(v) => Some(v@), None => None }),
{
    match f0 {
        None => true,
        Some(V::Int(i)) => *i != 0,
        Some(V::Bool(b)) => *b,
        Some(V::Str(s)) => same(s.as_str(), "True") || same(s.as_str(), "1"),
        Some(_) => false,
    }
}

/// Whether the executable outcome `r` is what `s` says.
pub open spec fn reads(r: Result<Source, String>, s: Result<SourceValue, Seq<char>>) -> bool {
    match s {
        Ok(v) => r matches Ok(w) && w@ == v,
        Err(e) => r matches Err(m) && m@ == e,
    }
}

/// The checkpoint that a loaded pickle and the archive around it make.
pub fn source_from_pickle(bytes: &[u8], prefix: &str, root: &V) -> (r: Result<Source, String>)
    ensures
        reads(r, pth_source(bytes@, prefix@, root@)),
        r matches Ok(s) ==> s.indexed(),
{
    let items: &Vec<(V, V)> = match root.get("weight") {
        Some(V::Dict(items)) => items,
        _ => {
            return Err("no weight dict".to_owned());
        },
    };
    proof {
        pickle::lemma_view_dict(*items);
    }
    let (tensors, names) = match read_tensors(bytes, prefix, items) {
        Ok(t) => t,
        Err(e) => {
            return Err(e);
        },
    };
    let config = match root.get("config") {
        Some(c) => match c.to_json() {
            Json::Array(config) => {
                proof {
                    json::lemma_json_array(config);
                }
                config
            },
            _ => {
                return Err("config is not a list".to_owned());
            },
        },
        None => {
            return Err("no config".to_owned());
        },
    };
    Ok(
        Source {
            version: text_in(root, "version"),
            f0: has_pitch(root.get("f0")),
            config,
            embedder: text_in(root, "embedder_model"),
            vocoder: text_in(root, "vocoder"),
            tensors,
            names,
        },
    )
}

/// Reads a torch archive.
pub fn read_pth(bytes: &[u8]) -> (r: Result<Source, String>)
    ensures
        reads(r, pth_contents(bytes@)),
        r matches Ok(s) ==> s.indexed(),
{
    let names = match archive_names(bytes) {
        Ok(names) => names,
        Err(e) => {
            return Err(e);
        },
    };
    let pkl = match find_ending(&names, "data.pkl") {
        Some(pkl) => pkl,
        None => {
            return Err("no data.pkl in the archive".to_owned());
        },
    };
    proof {
        reveal_strlit("data.pkl");
    }
    let prefix = trim(pkl.as_str(), "data.pkl");
    let data = match archive_entry(bytes, pkl.as_str()) {
        Ok(data) => data,
        Err(e) => {
            return Err(e);
        },
    };
    match pickle::load(data.as_slice()) {
        Ok(root) => source_from_pickle(bytes, prefix.as_str(), &root),
        Err(e) => Err(e),
    }
}

/// The element type of a tensor in a `.safetensors` file; of one that is not supported, its name.
pub enum StoredDtype {
    F16,
    F32,
    Other(String),
}

/// A tensor of a `.safetensors` file.
pub struct StoredTensor {
    pub dtype: StoredDtype,
    pub shape: Vec<usize>,
    pub data: Vec<u8>,
}

/// What a [`StoredTensor`] holds.
pub enum StoredValue {
    Supported(TensorValue),
    Other(Seq<char>, Seq<usize>, Seq<u8>),
}

impl View for StoredTensor {
    type V = StoredValue;

    open spec fn view(&self) -> StoredValue {
        match self.dtype {
            StoredDtype::F16 => StoredValue::Supported(
                TensorValue { dtype: Dtype::F16, shape: self.shape@, data: self.data@ },
            ),
            StoredDtype::F32 => StoredValue::Supported(
                TensorValue { dtype: Dtype::F32, shape: self.shape@, data: self.data@ },
            ),
            StoredDtype::Other(name) => StoredValue::Other(name@, self.shape@, self.data@),
        }
    }
}

/// The names and values of tensors, one for one.
pub open spec fn stored_values(ts: Seq<(String, StoredTensor)>) -> Seq<(Seq<char>, StoredValue)> {
    Seq::new(ts.len(), |i: int| (ts[i].0@, ts[i].1@))
}

/// The header of a `.safetensors` file: eight bytes with its length, lowest first, and behind them as many
/// as they say, where there are so many.
pub open spec fn stored_header(bytes: Seq<u8>) -> Option<Seq<u8>> {
    match pickle::operand(bytes, 0, 8) {
        Some(length) => pickle::operand(bytes, 8, pickle::little_endian(length) as int),
        None => None,
    }
}

/// The item at `i` of a list, and null where there is none.
pub open spec fn item(v: JsonValue, i: int) -> JsonValue {
    match v {
        JsonValue::Array(xs) => if 0 <= i < xs.len() {
            xs[i]
        } else {
            JsonValue::Null
        },
        _ => JsonValue::Null,
    }
}

/// Where the data of a tensor ends by its entry in a header, which is an object, or a list of its element
/// type, its shape and its offsets. An entry without offsets claims no data.
pub open spec fn claimed_end(entry: JsonValue) -> int {
    let offsets = if entry is Array {
        item(entry, 2)
    } else {
        json::member(entry, "data_offsets"@)
    };
    match item(offsets, 1) {
        JsonValue::Natural(end) => end as int,
        _ => 0,
    }
}

/// Whether a file with a header of `length` bytes and an entry in it has a size that can be counted.
pub open spec fn entry_counts(entry: JsonValue, length: int) -> bool {
    claimed_end(entry) + 8 + length <= usize::MAX
}

/// Whether a file with a header of `length` bytes and these entries in it has a size that can be counted.
pub open spec fn entries_count(entries: Seq<(Seq<char>, JsonValue)>, length: int) -> bool {
    forall|i: int| 0 <= i < entries.len() ==> entry_counts((#[trigger] entries[i]).1, length)
}

/// What is wrong with the header of a `.safetensors` file before its entries are held against the file: it
/// is text and no JSON, or claims more data than can be counted.
pub open spec fn header_fault(bytes: Seq<u8>) -> Option<Seq<char>> {
    match stored_header(bytes) {
        Some(header) => if !utf8::valid_utf8(header) {
            None
        } else {
            match json::json_document(header) {
                Err(e) => Some("invalid JSON in header: "@ + e),
                Ok(JsonValue::Object(entries)) => if entries_count(entries, header.len() as int) {
                    None
                } else {
                    Some("incomplete metadata, file not fully covered"@)
                },
                Ok(_) => None,
            }
        },
        None => None,
    }
}

/// The item at `i` of a list.
fn item_of(v: &Json, i: usize) -> (r: Option<&Json>)
    ensures
        match r {
            Some(x) => x@ == item(v@, i as int),
            None => item(v@, i as int) == JsonValue::Null,
        },
{
    match v {
        Json::Array(xs) => {
            proof {
                json::lemma_json_array(*xs);
            }
            if i < xs.len() {
                Some(&xs[i])
            } else {
                None
            }
        },
        _ => None,
    }
}

/// Where the data of a tensor ends by its entry in a header.
fn end_of(entry: &Json) -> (r: u64)
    ensures
        r == claimed_end(entry@),
{
    let offsets = match entry {
        Json::Array(_) => item_of(entry, 2),
        _ => entry.get("data_offsets"),
    };
    match offsets {
        Some(offsets) => match item_of(offsets, 1) {
            Some(Json::Natural(end)) => *end,
            _ => 0,
        },
        None => 0,
    }
}

/// Looks whether the header of a `.safetensors` file can be counted with.
fn check_header(bytes: &[u8]) -> (r: Result<(), String>)
    ensures
        match header_fault(bytes@) {
            Some(e) => r matches Err(m) && m@ == e,
            None => r is Ok,
        },
{
    let size: usize = bytes.len();
    let length: usize = match pickle::read_number(bytes, 0, 8) {
        Some(n) => if n <= (size - 8) as u64 {
            n as usize
        } else {
            return Ok(());
        },
        None => {
            return Ok(());
        },
    };
    if text::text_between(bytes, 8, 8 + length).is_err() {
        return Ok(());
    }
    let header = bytes_between(bytes, 8, 8 + length);
    assert(stored_header(bytes@) == Some(header@));
    let entries = match parse_document(header.as_slice()) {
        Ok(Json::Object(entries)) => entries,
        Ok(_) => {
            return Ok(());
        },
        Err(e) => {
            return Err(join("invalid JSON in header: ", e.as_str()));
        },
    };
    proof {
        json::lemma_json_object(entries);
    }
    let ghost values = json::member_views(entries@);
    let room: u64 = (usize::MAX - 8 - length) as u64;
    let mut i: usize = 0;
    while i < entries.len()
        invariant
            i <= entries@.len(),
            values == json::member_views(entries@),
            stored_header(bytes@) == Some(header@),
            utf8::valid_utf8(header@),
            json::json_document(header@) == Ok::<JsonValue, Seq<char>>(JsonValue::Object(values)),
            header@.len() == length,
            room == usize::MAX - 8 - length,
            forall|j: int|
                0 <= j < i ==> entry_counts((#[trigger] values[j]).1, length as int),
        decreases entries@.len() - i,
    {
        if end_of(&entries[i].1) > room {
            assert(!entry_counts(values[i as int].1, length as int));
            assert(!entries_count(values, length as int));
            return Err("incomplete metadata, file not fully covered".to_owned());
        }
        i += 1;
    }
    Ok(())
}

/// The tensors of a `.safetensors` file, or nothing where it cannot be read.
pub uninterp spec fn stored_tensors(bytes: Seq<u8>) -> Option<Set<(Seq<char>, StoredValue)>>;

/// `safetensors::SafeTensors::deserialize` and `tensors`: each tensor once, in no particular order,
/// every name once, and the data as long as the shape says. The message of a failure may name any
/// of several tensors that are wrong, so nothing is said of it. The crate adds the end of the data,
/// the length of the header and eight without a check, which a header without fault keeps in range.
#[verifier::external_body]
fn safetensors_tensors(bytes: &[u8]) -> (r: Result<Vec<(String, StoredTensor)>, String>)
    requires
        header_fault(bytes@) is None,
    ensures
        match r {
            Ok(ts) => {
                &&& stored_tensors(bytes@) == Some(stored_values(ts@).to_set())
                &&& forall|i: int, j: int|
                    0 <= i < j < ts@.len() ==> (#[trigger] ts@[i]).0@ != (#[trigger] ts@[j]).0@
                &&& forall|i: int|
                    0 <= i < ts@.len() ==> ((#[trigger] ts@[i]).1@ matches StoredValue::Supported(t)
                        ==> t.full())
            },
            Err(_) => stored_tensors(bytes@) is None,
        },
{
    let st = safetensors::SafeTensors::deserialize(bytes).map_err(|e| e.to_string())?;
    let plain = |v: safetensors::tensor::TensorView| StoredTensor {
        dtype: match v.dtype() {
            safetensors::Dtype::F16 => StoredDtype::F16,
            safetensors::Dtype::F32 => StoredDtype::F32,
            other => StoredDtype::Other(format!("{other:?}")),
        },
        shape: v.shape().to_vec(),
        data: v.data().to_vec(),
    };
    Ok(st.tensors().into_iter().map(|(name, v)| (name, plain(v))).collect())
}

/// The text under `key` in the metadata of a `.safetensors` file that can be read.
pub uninterp spec fn stored_text(bytes: Seq<u8>, key: Seq<char>) -> Option<Seq<char>>;

/// `safetensors::SafeTensors::read_metadata`: the text under one key of the metadata. It fails on
/// the same files as `deserialize`, which calls it, and asks as much of the header.
#[verifier::external_body]
fn safetensors_text(bytes: &[u8], key: &str) -> (r: Result<Option<String>, String>)
    requires
        header_fault(bytes@) is None,
    ensures
        match r {
            Ok(s) => seen_text(s) == stored_text(bytes@, key@) && stored_tensors(bytes@) is Some,
            Err(_) => stored_tensors(bytes@) is None,
        },
{
    let (_, meta) = safetensors::SafeTensors::read_metadata(bytes).map_err(|e| e.to_string())?;
    Ok(meta.metadata().as_ref().and_then(|m| m.get(key).cloned()))
}

/// What is said of a tensor of an element type that is not supported.
pub open spec fn foreign(name: Seq<char>, v: StoredValue) -> Option<Seq<char>> {
    match v {
        StoredValue::Supported(_) => None,
        StoredValue::Other(dtype, _, _) => Some("tensor "@ + name + " has dtype "@ + dtype),
    }
}

/// The supported tensors of a set, by name.
pub open spec fn stored_map(m: Map<Seq<char>, TensorValue>, ts: Set<(Seq<char>, StoredValue)>) -> bool {
    &&& forall|k: Seq<char>|
        #[trigger] m.dom().contains(k) ==> ts.contains((k, StoredValue::Supported(m[k])))
    &&& forall|k: Seq<char>, t: TensorValue|
        #[trigger] ts.contains((k, StoredValue::Supported(t))) ==> m.dom().contains(k) && m[k] == t
}

/// Whether metadata with this entry is that of a model trained with a pitch.
pub open spec fn stored_pitch(f0: Option<Seq<char>>) -> bool {
    match f0 {
        None => true,
        Some(s) => s == "True"@ || s == "true"@ || s == "1"@,
    }
}

/// What reading a `.safetensors` file may come to. Where several tensors have element types that
/// are not supported, the message names one of them.
pub open spec fn safetensors_contents(bytes: Seq<u8>, r: Result<SourceValue, Seq<char>>) -> bool {
    match header_fault(bytes) {
        Some(e) => r == Err::<SourceValue, Seq<char>>(e),
        None => counted_contents(bytes, r),
    }
}

/// What reading a `.safetensors` file may come to, where its header is without fault.
pub open spec fn counted_contents(bytes: Seq<u8>, r: Result<SourceValue, Seq<char>>) -> bool {
    match stored_tensors(bytes) {
        None => r is Err,
        Some(ts) => if exists|x: (Seq<char>, StoredValue)| #[trigger]
            ts.contains(x) && foreign(x.0, x.1) is Some {
            &&& r matches Err(e)
            &&& exists|x: (Seq<char>, StoredValue)| #[trigger]
                ts.contains(x) && foreign(x.0, x.1) == Some(e)
        } else {
            match stored_text(bytes, "config"@) {
                None => r == Err::<SourceValue, Seq<char>>("no config in the metadata"@),
                Some(c) => match json::json_array(c) {
                    Err(e) => r == Err::<SourceValue, Seq<char>>("config: "@ + e),
                    Ok(config) => {
                        &&& r matches Ok(s)
                        &&& s.version == stored_text(bytes, "version"@)
                        &&& s.f0 == stored_pitch(stored_text(bytes, "f0"@))
                        &&& s.config == config
                        &&& s.embedder == stored_text(bytes, "embedder_model"@)
                        &&& s.vocoder == stored_text(bytes, "vocoder"@)
                        &&& stored_map(s.tensors, ts)
                    },
                },
            }
        },
    }
}

/// The outcome over the values that it holds.
pub open spec fn outcome(r: Result<Source, String>) -> Result<SourceValue, Seq<char>> {
    match r {
        Ok(s) => Ok(s@),
        Err(e) => Err(e@),
    }
}

/// Whether metadata with this entry is that of a model trained with a pitch.
fn stored_has_pitch(f0: Option<String>) -> (r: bool)
    ensures
        r == stored_pitch(seen_text(f0)),
{
    match f0 {
        None => true,
        Some(s) => same(s.as_str(), "True") || same(s.as_str(), "true") || same(s.as_str(), "1"),
    }
}

/// The stored tensors as a map, with their names.
fn collect(ts: Vec<(String, StoredTensor)>) -> (r: Result<
    (StringHashMap<Tensor>, Vec<String>),
    String,
>)
    requires
        forall|i: int, j: int|
            0 <= i < j < ts@.len() ==> (#[trigger] ts@[i]).0@ != (#[trigger] ts@[j]).0@,
        forall|i: int|
            0 <= i < ts@.len() ==> ((#[trigger] ts@[i]).1@ matches StoredValue::Supported(t)
                ==> t.full()),
    ensures
        match r {
            Ok((m, names)) => {
                &&& lists(names@, m@.dom())
                &&& stored_map(tensor_values(m@), stored_values(ts@).to_set())
                &&& forall|x: (Seq<char>, StoredValue)| #[trigger]
                    stored_values(ts@).to_set().contains(x) ==> foreign(x.0, x.1) is None
                &&& forall|k: Seq<char>|
                    tensor_values(m@).dom().contains(k) ==> (#[trigger] tensor_values(m@)[k]).full()
            },
            Err(e) => exists|x: (Seq<char>, StoredValue)| #[trigger]
                stored_values(ts@).to_set().contains(x) && foreign(x.0, x.1) == Some(e@),
        },
{
    let ghost all = ts@;
    let ghost values = stored_values(all);
    let n: usize = ts.len();
    let mut rest = ts;
    let mut tensors: StringHashMap<Tensor> = StringHashMap::new();
    let mut names: Vec<String> = Vec::new();
    while rest.len() > 0
        invariant
            all == ts@,
            lists(names@, tensors@.dom()),
            rest@.len() <= n == all.len(),
            rest@ == all.take(rest@.len() as int),
            values == stored_values(all),
            forall|i: int, j: int|
                0 <= i < j < all.len() ==> (#[trigger] all[i]).0@ != (#[trigger] all[j]).0@,
            forall|i: int|
                0 <= i < all.len() ==> ((#[trigger] all[i]).1@ matches StoredValue::Supported(t)
                    ==> t.full()),
            forall|i: int|
                rest@.len() <= i < n ==> (#[trigger] all[i]).1@ is Supported
                    && tensors@.dom().contains(all[i].0@) && tensors@[all[i].0@]@
                    == all[i].1@->Supported_0,
            forall|k: Seq<char>| #[trigger]
                tensors@.dom().contains(k) ==> exists|i: int|
                    rest@.len() <= i < n && (#[trigger] all[i]).0@ == k,
        decreases rest@.len(),
    {
        let ghost at = rest@.len() - 1;
        if let Some((name, stored)) = rest.pop() {
            assert((name, stored) == all[at]);
            let dtype: Dtype = match stored.dtype {
                StoredDtype::F16 => Dtype::F16,
                StoredDtype::F32 => Dtype::F32,
                StoredDtype::Other(other) => {
                    let start = join3("tensor ", name.as_str(), " has dtype ");
                    let message = join(start.as_str(), other.as_str());
                    proof {
                        let x = values[at];
                        assert(values.contains(x));
                        assert(values.to_set().contains(x));
                        assert(x == (all[at].0@, all[at].1@));
                        assert(all[at].1@ is Other);
                        assert(foreign(x.0, x.1) == Some(message@));
                    }
                    return Err(message);
                },
            };
            let ghost before = tensors@;
            let ghost key = name@;
            let t = Tensor { dtype, shape: stored.shape, data: stored.data };
            keep(&mut tensors, &mut names, name, t);
            proof {
                assert(rest@ =~= all.take(at));
                assert forall|k: Seq<char>| #[trigger] tensors@.dom().contains(k) implies exists|i: int|
                    at <= i < n && (#[trigger] all[i]).0@ == k by {
                    if k == key {
                        assert(all[at].0@ == k);
                    } else {
                        assert(before.dom().contains(k));
                    }
                }
            }
        }
    }
    proof {
        let m = tensor_values(tensors@);
        let set = values.to_set();
        assert forall|k: Seq<char>| #[trigger] m.dom().contains(k) implies set.contains(
            (k, StoredValue::Supported(m[k])),
        ) && m[k].full() by {
            assert(tensors@.dom().contains(k));
            let i = choose|i: int| 0 <= i < n && (#[trigger] all[i]).0@ == k;
            assert(values[i] == (k, StoredValue::Supported(m[k])));
        }
        assert forall|k: Seq<char>, t: TensorValue| #[trigger]
            set.contains((k, StoredValue::Supported(t))) implies m.dom().contains(k) && m[k] == t by {
            let i = choose|i: int| 0 <= i < values.len() && values[i] == (k, StoredValue::Supported(t));
            assert(all[i].0@ == k);
        }
        assert forall|x: (Seq<char>, StoredValue)| #[trigger] set.contains(x) implies foreign(x.0, x.1) is None by {
            let i = choose|i: int| 0 <= i < values.len() && values[i] == x;
            assert(all[i].1@ is Supported);
        }
    }
    Ok((tensors, names))
}

/// Reads a `.safetensors` file.
pub fn read_safetensors(bytes: &[u8]) -> (r: Result<Source, String>)
    ensures
        safetensors_contents(bytes@, outcome(r)),
        r matches Ok(s) ==> s@.full() && s.indexed(),
{
    if let Err(e) = check_header(bytes) {
        return Err(e);
    }
    let stored = match safetensors_tensors(bytes) {
        Ok(ts) => ts,
        Err(e) => {
            return Err(e);
        },
    };
    let ghost all = stored@;
    let (tensors, names) = match collect(stored) {
        Ok(m) => m,
        Err(e) => {
            proof {
                let set = stored_values(all).to_set();
                let x = choose|x: (Seq<char>, StoredValue)| #[trigger]
                    set.contains(x) && foreign(x.0, x.1) == Some(e@);
                assert(set.contains(x) && foreign(x.0, x.1) is Some);
            }
            return Err(e);
        },
    };
    let config = match safetensors_text(bytes, "config") {
        Ok(Some(c)) => c,
        Ok(None) => {
            return Err("no config in the metadata".to_owned());
        },
        Err(e) => {
            return Err(e);
        },
    };
    let config = match parse_array(config.as_str()) {
        Ok(config) => config,
        Err(e) => {
            return Err(join("config: ", e.as_str()));
        },
    };
    let version = match safetensors_text(bytes, "version") {
        Ok(s) => s,
        Err(e) => {
            return Err(e);
        },
    };
    let f0 = match safetensors_text(bytes, "f0") {
        Ok(s) => stored_has_pitch(s),
        Err(e) => {
            return Err(e);
        },
    };
    let embedder = match safetensors_text(bytes, "embedder_model") {
        Ok(s) => s,
        Err(e) => {
            return Err(e);
        },
    };
    let vocoder = match safetensors_text(bytes, "vocoder") {
        Ok(s) => s,
        Err(e) => {
            return Err(e);
        },
    };
    Ok(Source { version, f0, config, embedder, vocoder, tensors, names })
}

proof fn lemma_part_full(storage: Seq<u8>, dtype: Dtype, offset: usize, shape: Seq<usize>)
    ensures
        stored_part(storage, dtype, offset, shape) matches Some(t) ==> t.full(),
{
    assert(0 <= offset * width(dtype)) by (nonlinear_arith)
        requires
            width(dtype) > 0,
    ;
    assert(0 <= product(shape) * width(dtype)) by (nonlinear_arith)
        requires
            width(dtype) > 0,
    ;
}

proof fn lemma_pth_tensors_full(
    bytes: Seq<u8>,
    prefix: Seq<char>,
    items: Seq<(PickleValue, PickleValue)>,
    known: Map<Seq<char>, TensorValue>,
)
    requires
        forall|k: Seq<char>| known.dom().contains(k) ==> (#[trigger] known[k]).full(),
    ensures
        pth_tensors(bytes, prefix, items, known) matches Ok(m) ==> forall|k: Seq<char>|
            m.dom().contains(k) ==> (#[trigger] m[k]).full(),
    decreases items.len(),
{
    if items.len() > 0 {
        if let (
            PickleValue::Str(name),
            PickleValue::Tensor { dtype, key, offset, shape, stride },
        ) = items[0] {
            if let Ok(t) = pth_tensor(bytes, prefix, name, dtype, key, offset, shape, stride) {
                let storage = zip_entry(bytes, prefix + "data/"@ + key)->Ok_0;
                lemma_part_full(storage, storage_dtype(dtype)->0, offset, shape);
                lemma_pth_tensors_full(bytes, prefix, items.skip(1), known.insert(name, t));
            }
        } else {
            lemma_pth_tensors_full(bytes, prefix, items.skip(1), known);
        }
    }
}

/// Every tensor of a torch archive that is read has as many elements as its shape says.
pub proof fn law_pth_tensors_are_full(bytes: Seq<u8>)
    ensures
        pth_contents(bytes) matches Ok(s) ==> s.full(),
{
    if let Ok(s) = pth_contents(bytes) {
        let pkl = first_ending(zip_names(bytes)->Ok_0, "data.pkl"@)->0;
        let root = pickle::loaded(zip_entry(bytes, pkl)->Ok_0)->Ok_0;
        let items = pickle::found(root, "weight"@)->0->Dict_0;
        lemma_pth_tensors_full(bytes, trimmed(pkl, "data.pkl"@), items, Map::empty());
    }
}

/// Whether the bytes begin like a zip archive.
pub open spec fn is_archive(bytes: Seq<u8>) -> bool {
    bytes.len() >= 2 && bytes[0] == 0x50 && bytes[1] == 0x4b
}

/// Whether reading the bytes of a checkpoint may come to `r`: a torch archive where they begin like a zip
/// archive, and a `.safetensors` file otherwise, whatever the file is called.
pub open spec fn checkpoint_contents(bytes: Seq<u8>, r: Result<SourceValue, Seq<char>>) -> bool {
    if is_archive(bytes) {
        r == pth_contents(bytes)
    } else {
        safetensors_contents(bytes, r)
    }
}

/// What is said of a file that cannot be read: its path, and why.
pub open spec fn located(path: Seq<char>, reason: Seq<char>) -> Seq<char> {
    path + ": "@ + reason
}

/// What is said of a file that cannot be read.
pub fn fault_at(path: &str, reason: &str) -> (r: String)
    ensures
        r@ == located(path@, reason@),
{
    join3(path, ": ", reason)
}

impl Source {
    /// Reads a checkpoint from the bytes of the file at `path`, which every fault starts with.
    pub fn read(path: &str, bytes: &[u8]) -> (r: Result<Source, String>)
        ensures
            match r {
                Ok(s) => {
                    &&& checkpoint_contents(bytes@, Ok(s@))
                    &&& s@.full()
                    &&& s.indexed()
                },
                Err(e) => exists|reason: Seq<char>|
                    e@ == #[trigger] located(path@, reason) && checkpoint_contents(
                        bytes@,
                        Err(reason),
                    ),
            },
    {
        match Source::read_bytes(bytes) {
            Ok(s) => Ok(s),
            Err(reason) => {
                let fault = fault_at(path, reason.as_str());
                assert(fault@ == located(path@, reason@));
                Err(fault)
            },
        }
    }

    /// Reads a checkpoint from the bytes of its file.
    pub fn read_bytes(bytes: &[u8]) -> (r: Result<Source, String>)
        ensures
            checkpoint_contents(bytes@, outcome(r)),
            r matches Ok(s) ==> s@.full() && s.indexed(),
    {
        if bytes.len() >= 2 && bytes[0] == 0x50 && bytes[1] == 0x4b {
            proof {
                law_pth_tensors_are_full(bytes@);
            }
            read_pth(bytes)
        } else {
            read_safetensors(bytes)
        }
    }
}

/// The elements of a tensor are its bytes: two for a half and four for a single, lowest first, and none but
/// those of an element that is not whole is left out.
pub proof fn law_elements_are_their_bytes(t: TensorValue, i: int)
    ensures
        t.dtype == Dtype::F16 ==> {
            &&& 2 * singles(t).len() <= t.data.len() < 2 * singles(t).len() + 2
            &&& 0 <= i < singles(t).len() ==> forall|h: u16|
                h as int == t.data[2 * i] + 256 * t.data[2 * i + 1] ==> singles(t)[i]
                    == #[trigger] bits::widened(h)
        },
        t.dtype == Dtype::F32 ==> {
            &&& 4 * singles(t).len() <= t.data.len() < 4 * singles(t).len() + 4
            &&& 0 <= i < singles(t).len() ==> singles(t)[i] as int == t.data[4 * i] + 256 * t.data[4
                * i + 1] + 65536 * t.data[4 * i + 2] + 16777216 * t.data[4 * i + 3]
        },
{
}

proof fn lemma_rows(shape: Seq<usize>, stride: Seq<usize>, from: int)
    requires
        0 <= from < shape.len(),
        shape.len() == stride.len(),
        stride.last() == 1,
        forall|i: int|
            0 <= i < shape.len() - 1 ==> #[trigger] stride[i] == shape[i + 1] * stride[i + 1],
    ensures
        stride[from] == product(shape.skip(from + 1)),
    decreases shape.len() - from,
{
    let rest = shape.skip(from + 1);
    if from < shape.len() - 1 {
        lemma_rows(shape, stride, from + 1);
        assert(rest[0] == shape[from + 1]);
        assert(rest.skip(1) =~= shape.skip(from + 2));
    }
}

/// Elements stand row by row: the last dimension is the closest, and a step in one is as far as all of the
/// next, wherever every dimension has more than one element.
pub proof fn law_rows_follow_each_other(shape: Seq<usize>, stride: Seq<usize>)
    requires
        shape.len() == stride.len() > 0,
        forall|i: int| 0 <= i < shape.len() ==> #[trigger] shape[i] > 1,
    ensures
        contiguous(shape, stride) == (stride.last() == 1 && forall|i: int|
            0 <= i < shape.len() - 1 ==> #[trigger] stride[i] == shape[i + 1] * stride[i + 1]),
{
    let n = shape.len() - 1;
    if contiguous(shape, stride) {
        assert(shape[n] > 1);
        assert(shape.skip(n + 1).len() == 0);
        assert(stride[n] == 1);
        assert forall|i: int| 0 <= i < n implies #[trigger] stride[i] == shape[i + 1] * stride[i + 1] by {
            assert(shape[i] > 1 && shape[i + 1] > 1);
            assert(stride[i + 1] == product(shape.skip(i + 2)));
            assert(shape.skip(i + 1)[0] == shape[i + 1]);
            assert(shape.skip(i + 1).skip(1) =~= shape.skip(i + 2));
        }
    }
    if stride.last() == 1 && forall|i: int|
        0 <= i < n ==> #[trigger] stride[i] == shape[i + 1] * stride[i + 1] {
        assert forall|i: int| 0 <= i < shape.len() implies #[trigger] stride[i] == product(
            shape.skip(i + 1),
        ) by {
            lemma_rows(shape, stride, i);
        }
    }
}

/// A tensor of an archive has the bytes of its storage from its offset on, as many as its shape has elements
/// of two bytes or of four; where the storage ends before that there is none.
pub proof fn law_tensors_are_parts_of_storages(
    bytes: Seq<u8>,
    prefix: Seq<char>,
    name: Seq<char>,
    key: Seq<char>,
    offset: usize,
    shape: Seq<usize>,
    stride: Seq<usize>,
    storage: Seq<u8>,
)
    requires
        contiguous(shape, stride),
        zip_entry(bytes, prefix + "data/"@ + key) == Ok::<Seq<u8>, Seq<char>>(storage),
    ensures
        ({
            let half = pth_tensor(bytes, prefix, name, "HalfStorage"@, key, offset, shape, stride);
            let single = pth_tensor(bytes, prefix, name, "FloatStorage"@, key, offset, shape, stride);
            let n = product(shape);
            &&& half is Ok == (2 * (offset + n) <= storage.len())
            &&& half matches Ok(t) ==> t.dtype == Dtype::F16 && t.shape == shape && t.data
                == storage.subrange(2 * offset, 2 * (offset + n))
            &&& single is Ok == (4 * (offset + n) <= storage.len())
            &&& single matches Ok(t) ==> t.dtype == Dtype::F32 && t.shape == shape && t.data
                == storage.subrange(4 * offset, 4 * (offset + n))
        }),
{
    reveal_strlit("HalfStorage");
    reveal_strlit("FloatStorage");
    assert("HalfStorage"@.len() != "FloatStorage"@.len());
}

/// Any other storage and any tensor with gaps are refused.
pub proof fn law_other_tensors_are_refused(
    bytes: Seq<u8>,
    prefix: Seq<char>,
    name: Seq<char>,
    dtype: Seq<char>,
    key: Seq<char>,
    offset: usize,
    shape: Seq<usize>,
    stride: Seq<usize>,
)
    requires
        (dtype != "HalfStorage"@ && dtype != "FloatStorage"@) || !contiguous(shape, stride),
    ensures
        pth_tensor(bytes, prefix, name, dtype, key, offset, shape, stride) is Err,
{
}

/// Whether the entry at `i` is a tensor under that name.
pub open spec fn names_tensor(items: Seq<(PickleValue, PickleValue)>, i: int, name: Seq<char>) -> bool {
    0 <= i < items.len() && items[i].0 == PickleValue::Str(name) && items[i].1 is Tensor
}

proof fn lemma_gathered(
    bytes: Seq<u8>,
    prefix: Seq<char>,
    items: Seq<(PickleValue, PickleValue)>,
    known: Map<Seq<char>, TensorValue>,
    name: Seq<char>,
    at: int,
)
    requires
        pth_tensors(bytes, prefix, items, known) is Ok,
        at == -1 || names_tensor(items, at, name),
        forall|i: int| at < i < items.len() ==> !#[trigger] names_tensor(items, i, name),
    ensures
        ({
            let m = pth_tensors(bytes, prefix, items, known)->Ok_0;
            if at == -1 {
                m.dom().contains(name) == known.dom().contains(name) && (known.dom().contains(name)
                    ==> m[name] == known[name])
            } else {
                &&& m.dom().contains(name)
                &&& items[at].1 matches PickleValue::Tensor { dtype, key, offset, shape, stride }
                &&& pth_tensor(bytes, prefix, name, dtype, key, offset, shape, stride) == Ok::<
                    TensorValue,
                    Seq<char>,
                >(m[name])
            }
        }),
    decreases items.len(),
{
    if items.len() > 0 {
        let rest = items.skip(1);
        let first = names_tensor(items, 0, name);
        assert forall|i: int| at - 1 < i < rest.len() && 0 <= i implies !#[trigger] names_tensor(
            rest,
            i,
            name,
        ) by {
            assert(rest[i] == items[i + 1]);
            assert(!names_tensor(items, i + 1, name));
        }
        let next = if at > 0 { at - 1 } else { -1 };
        if at > 0 {
            assert(rest[at - 1] == items[at]);
        }
        if let (
            PickleValue::Str(n),
            PickleValue::Tensor { dtype, key, offset, shape, stride },
        ) = items[0] {
            let t = pth_tensor(bytes, prefix, n, dtype, key, offset, shape, stride)->Ok_0;
            lemma_gathered(bytes, prefix, rest, known.insert(n, t), name, next);
        } else {
            lemma_gathered(bytes, prefix, rest, known, name, next);
        }
    }
}

/// The tensors of a checkpoint are those of its weight dict: under every name the last tensor of that name,
/// and under no other name one.
pub proof fn law_weights_are_gathered(
    bytes: Seq<u8>,
    prefix: Seq<char>,
    items: Seq<(PickleValue, PickleValue)>,
    name: Seq<char>,
    at: int,
)
    requires
        pth_tensors(bytes, prefix, items, Map::empty()) is Ok,
        at == -1 || names_tensor(items, at, name),
        forall|i: int| at < i < items.len() ==> !#[trigger] names_tensor(items, i, name),
    ensures
        ({
            let m = pth_tensors(bytes, prefix, items, Map::empty())->Ok_0;
            &&& m.dom().contains(name) == (at != -1)
            &&& at != -1 ==> {
                &&& items[at].1 matches PickleValue::Tensor { dtype, key, offset, shape, stride }
                &&& pth_tensor(bytes, prefix, name, dtype, key, offset, shape, stride) == Ok::<
                    TensorValue,
                    Seq<char>,
                >(m[name])
            }
        }),
{
    lemma_gathered(bytes, prefix, items, Map::empty(), name, at);
}

/// A checkpoint keeps what its root says: its version, embedder and vocoder where they are texts, its config
/// item by item, and that it has a pitch unless the root says that it has none.
pub proof fn law_root_is_kept(bytes: Seq<u8>, prefix: Seq<char>, root: PickleValue)
    requires
        pth_source(bytes, prefix, root) is Ok,
    ensures
        ({
            let s = pth_source(bytes, prefix, root)->Ok_0;
            let f0 = pickle::found(root, "f0"@);
            &&& forall|v: Seq<char>| #[trigger]
                s.version == Some(v) <==> pickle::found(root, "version"@) == Some(PickleValue::Str(v))
            &&& forall|v: Seq<char>| #[trigger]
                s.embedder == Some(v) <==> pickle::found(root, "embedder_model"@) == Some(
                    PickleValue::Str(v),
                )
            &&& forall|v: Seq<char>| #[trigger]
                s.vocoder == Some(v) <==> pickle::found(root, "vocoder"@) == Some(PickleValue::Str(v))
            &&& pickle::found(root, "config"@) matches Some(c) && pickle::json_of(c)
                == JsonValue::Array(s.config)
            &&& pickle::found(root, "weight"@) matches Some(PickleValue::Dict(items)) && pth_tensors(
                bytes,
                prefix,
                items,
                Map::empty(),
            ) == Ok::<Map<Seq<char>, TensorValue>, Seq<char>>(s.tensors)
            &&& f0 is None ==> s.f0
            &&& f0 matches Some(PickleValue::Int(i)) ==> s.f0 == (i != 0)
            &&& f0 matches Some(PickleValue::Bool(b)) ==> s.f0 == b
            &&& f0 matches Some(PickleValue::Str(t)) ==> s.f0 == (t == "True"@ || t == "1"@)
            &&& f0 matches Some(PickleValue::Nil) ==> !s.f0
        }),
{
}

/// A root with a weight dict that can be gathered and a list as its config is a checkpoint.
pub proof fn law_whole_roots_are_checkpoints(
    bytes: Seq<u8>,
    prefix: Seq<char>,
    root: PickleValue,
    items: Seq<(PickleValue, PickleValue)>,
    config: Seq<PickleValue>,
)
    requires
        pickle::found(root, "weight"@) == Some(PickleValue::Dict(items)),
        pth_tensors(bytes, prefix, items, Map::empty()) is Ok,
        pickle::found(root, "config"@) == Some(PickleValue::List(config)),
    ensures
        pth_source(bytes, prefix, root) is Ok,
{
}

/// The pickle of an archive is the first file whose name ends as one, and the storages stand in the same
/// directory: what goes before that end is what goes before theirs.
pub proof fn law_pickle_and_storages_stand_together(bytes: Seq<u8>, names: Seq<Seq<char>>, at: int, dir: Seq<char>, data: Seq<u8>, root: PickleValue)
    requires
        zip_names(bytes) == Ok::<Seq<Seq<char>>, Seq<char>>(names),
        0 <= at < names.len(),
        names[at] == dir + "data.pkl"@,
        !ends_with(dir, "data.pkl"@),
        forall|i: int| 0 <= i < at ==> !ends_with(#[trigger] names[i], "data.pkl"@),
        zip_entry(bytes, names[at]) == Ok::<Seq<u8>, Seq<char>>(data),
        pickle::loaded(data) == Ok::<PickleValue, Seq<char>>(root),
    ensures
        pth_contents(bytes) == pth_source(bytes, dir, root),
{
    let tail = "data.pkl"@;
    reveal_strlit("data.pkl");
    reveal_with_fuel(trimmed, 2);
    lemma_first_ending(names, tail, at, dir);
    assert((dir + tail).take(dir.len() as int) =~= dir);
    assert((dir + tail).skip(dir.len() as int) =~= tail);
}

proof fn lemma_first_ending(names: Seq<Seq<char>>, tail: Seq<char>, at: int, dir: Seq<char>)
    requires
        0 <= at < names.len(),
        names[at] == dir + tail,
        forall|i: int| 0 <= i < at ==> !ends_with(#[trigger] names[i], tail),
    ensures
        first_ending(names, tail) == Some(names[at]),
    decreases at,
{
    assert((dir + tail).skip(dir.len() as int) =~= tail);
    if at > 0 {
        let rest = names.skip(1);
        assert forall|i: int| 0 <= i < at - 1 implies !ends_with(#[trigger] rest[i], tail) by {
            assert(rest[i] == names[i + 1]);
        }
        lemma_first_ending(rest, tail, at - 1, dir);
    }
}

/// A file is told by its first two bytes, which are the letters that begin an archive, and by nothing else.
pub proof fn law_archives_begin_with_their_letters(bytes: Seq<u8>, r: Result<SourceValue, Seq<char>>)
    ensures
        bytes.len() >= 2 && bytes[0] == 80 && bytes[1] == 75 ==> checkpoint_contents(bytes, r) == (r
            == pth_contents(bytes)),
        bytes.len() < 2 || bytes[0] != 80 || bytes[1] != 75 ==> checkpoint_contents(bytes, r)
            == safetensors_contents(bytes, r),
{
}

/// A `.safetensors` file that is read keeps its metadata and its tensors: the texts under their keys, every
/// tensor under its name, and that it has a pitch unless it says something else.
pub proof fn law_metadata_is_kept(bytes: Seq<u8>, s: SourceValue)
    requires
        safetensors_contents(bytes, Ok(s)),
    ensures
        s.version == stored_text(bytes, "version"@),
        s.embedder == stored_text(bytes, "embedder_model"@),
        s.vocoder == stored_text(bytes, "vocoder"@),
        stored_text(bytes, "config"@) matches Some(c) && json::json_array(c) == Ok::<
            Seq<JsonValue>,
            Seq<char>,
        >(s.config),
        stored_text(bytes, "f0"@) is None ==> s.f0,
        stored_text(bytes, "f0"@) matches Some(t) ==> s.f0 == (t == "True"@ || t == "true"@ || t
            == "1"@),
        stored_tensors(bytes) matches Some(ts) && forall|k: Seq<char>, t: TensorValue|
            (s.tensors.dom().contains(k) && s.tensors[k] == t) <==> #[trigger] ts.contains(
                (k, StoredValue::Supported(t)),
            ),
        stored_tensors(bytes) matches Some(ts) && forall|k: Seq<char>, d: Seq<char>, shape: Seq<usize>, data: Seq<u8>|
            !#[trigger] ts.contains((k, StoredValue::Other(d, shape, data))),
{
    let ts = stored_tensors(bytes)->Some_0;
    assert forall|k: Seq<char>, d: Seq<char>, shape: Seq<usize>, data: Seq<u8>|
        !#[trigger] ts.contains((k, StoredValue::Other(d, shape, data))) by {
        let x = (k, StoredValue::Other(d, shape, data));
        if ts.contains(x) {
            assert(foreign(x.0, x.1) is Some);
        }
    }
}

/// A header passes wherever the data that its entries claim lies in the file.
pub proof fn law_covered_headers_pass(bytes: Seq<u8>, header: Seq<u8>, entries: Seq<(Seq<char>, JsonValue)>)
    requires
        bytes.len() <= usize::MAX,
        stored_header(bytes) == Some(header),
        json::json_document(header) == Ok::<JsonValue, Seq<char>>(JsonValue::Object(entries)),
        forall|i: int|
            0 <= i < entries.len() ==> claimed_end((#[trigger] entries[i]).1) + 8 + header.len()
                <= bytes.len(),
    ensures
        header_fault(bytes) is None,
{
    assert forall|i: int| 0 <= i < entries.len() implies entry_counts(
        (#[trigger] entries[i]).1,
        header.len() as int,
    ) by {}
}

/// The elements of a shape are the product of its dimensions: none of a shape without dimensions is missing,
/// and those of two parts multiply.
pub proof fn law_dimensions_multiply(a: Seq<usize>, b: Seq<usize>, n: usize)
    ensures
        product(Seq::<usize>::empty()) == 1,
        product(seq![n]) == n,
        product(a + b) == product(a) * product(b),
    decreases a.len(),
{
    reveal_with_fuel(product, 2);
    assert(seq![n].skip(1) =~= Seq::<usize>::empty());
    if a.len() == 0 {
        assert(a + b =~= b);
        assert(1 * product(b) == product(b));
    } else {
        law_dimensions_multiply(a.skip(1), b, n);
        assert((a + b).skip(1) =~= a.skip(1) + b);
        let x = a[0] as int;
        let y = product(a.skip(1)) as int;
        let z = product(b) as int;
        assert(x * (y * z) == (x * y) * z) by (nonlinear_arith);
        assert(product(a) == x * y);
        assert(product(a + b) == x * product((a + b).skip(1)));
    }
}

/// A model has a pitch unless its metadata say that it has none.
pub proof fn law_pitch_is_said(f0: Option<Seq<char>>)
    ensures
        f0 is None ==> stored_pitch(f0),
        f0 == Some("1"@) ==> stored_pitch(f0),
        f0 == Some("0"@) ==> !stored_pitch(f0),
        stored_pitch(f0) && f0 is Some ==> f0->Some_0 == "1"@ || f0->Some_0 == "True"@ || f0->Some_0
            == "true"@,
        f0 == Some("True"@) || f0 == Some("true"@) ==> stored_pitch(f0),
{
    reveal_strlit("0");
    reveal_strlit("1");
    reveal_strlit("True");
    reveal_strlit("true");
    assert("0"@[0] != "1"@[0]);
    assert("0"@.len() != "True"@.len() && "0"@.len() != "true"@.len());
}

/// Why a file cannot be read is said behind its path.
pub proof fn law_reasons_name_the_file(path: Seq<char>, reason: Seq<char>)
    ensures
        path.is_prefix_of(located(path, reason)),
        reason.is_suffix_of(located(path, reason)),
{
    let m = located(path, reason);
    assert(m.take(path.len() as int) =~= path);
    assert(m.skip(m.len() - reason.len()) =~= reason);
}

/// A text ends with another exactly where it is something followed by it.
pub proof fn law_endings_follow_something(s: Seq<char>, tail: Seq<char>, head: Seq<char>)
    ensures
        ends_with(head + tail, tail),
        ends_with(s, tail) ==> s.len() >= tail.len() && s == s.take(s.len() - tail.len()) + tail,
{
    assert((head + tail).skip((head + tail).len() - tail.len()) =~= tail);
    if ends_with(s, tail) {
        assert(s =~= s.take(s.len() - tail.len()) + s.skip(s.len() - tail.len()));
    }
}

/// A checkpoint with an element type of another kind is refused, and the message names one such tensor and its type.
pub proof fn law_foreign_tensors_are_named(
    bytes: Seq<u8>,
    r: Result<SourceValue, Seq<char>>,
    name: Seq<char>,
    v: StoredValue,
)
    requires
        counted_contents(bytes, r),
        stored_tensors(bytes) matches Some(ts) && ts.contains((name, v)),
        v is Other,
    ensures
        r is Err,
        exists|x: (Seq<char>, StoredValue)| #[trigger]
            stored_tensors(bytes)->Some_0.contains(x) && x.1 is Other && r->Err_0 == "tensor "@ + x.0
                + " has dtype "@ + x.1->Other_0,
{
    let ts = stored_tensors(bytes)->Some_0;
    assert(ts.contains((name, v)) && foreign(name, v) is Some);
    let x = choose|x: (Seq<char>, StoredValue)| #[trigger] ts.contains(x) && foreign(x.0, x.1) == Some(r->Err_0);
    assert(ts.contains(x) && x.1 is Other);
}

/// What is read is what the bytes say, and what is wrong with them is what is reported.
pub proof fn law_reading_reports_what_is_there(r: Result<Source, String>, s: Result<SourceValue, Seq<char>>)
    requires
        reads(r, s),
    ensures
        r is Ok == s is Ok,
        r is Ok ==> r->Ok_0@ == s->Ok_0,
        r is Err ==> r->Err_0@ == s->Err_0,
{
}

} // verus!
