//! The subset of the pickle protocol that `torch.save` writes for a checkpoint.
//!
//! A pickle is a program for a stack machine with a memo. It is only interpreted as data: calls
//! of unknown functions become [`V::Other`] and nothing is ever executed.
use crate::bits::is_finite_double;
use crate::json::{Json, JsonValue};
use crate::text::{hex_byte, join, same, text_between};
use crate::{bits, json, text};
use std::collections::HashMap;
use vstd::prelude::*;
use vstd::string::*;

verus! {

broadcast use {vstd::std_specs::hash::group_hash_axioms, vstd::string::group_string_axioms};

/// A value on the machine's stack.
pub enum V {
    Nil,
    Bool(bool),
    Int(i64),
    /// The bits of a double.
    Float(u64),
    Str(String),
    Bytes,
    List(Vec<V>),
    Tuple(Vec<V>),
    Dict(Vec<(V, V)>),
    Global(String, String),
    Storage { dtype: String, key: String },
    Tensor { dtype: String, key: String, offset: usize, shape: Vec<usize>, stride: Vec<usize> },
    Mark,
    Other,
}

/// What a [`V`] holds.
pub enum PickleValue {
    Nil,
    Bool(bool),
    Int(i64),
    Float(u64),
    Str(Seq<char>),
    Bytes,
    List(Seq<PickleValue>),
    Tuple(Seq<PickleValue>),
    Dict(Seq<(PickleValue, PickleValue)>),
    Global(Seq<char>, Seq<char>),
    Storage { dtype: Seq<char>, key: Seq<char> },
    Tensor { dtype: Seq<char>, key: Seq<char>, offset: usize, shape: Seq<usize>, stride: Seq<usize> },
    Mark,
    Other,
}

impl View for V {
    type V = PickleValue;

    open spec fn view(&self) -> PickleValue {
        view_of(*self)
    }
}

/// The value that `v` stands for.
pub open spec fn view_of(v: V) -> PickleValue
    decreases v,
{
    match v {
        V::Nil => PickleValue::Nil,
        V::Bool(b) => PickleValue::Bool(b),
        V::Int(i) => PickleValue::Int(i),
        V::Float(f) => PickleValue::Float(f),
        V::Str(s) => PickleValue::Str(s@),
        V::Bytes => PickleValue::Bytes,
        V::List(xs) => PickleValue::List(
            Seq::new(
                xs@.len(),
                |i: int| if 0 <= i < xs@.len() { view_of(xs@[i]) } else { PickleValue::Nil },
            ),
        ),
        V::Tuple(xs) => PickleValue::Tuple(
            Seq::new(
                xs@.len(),
                |i: int| if 0 <= i < xs@.len() { view_of(xs@[i]) } else { PickleValue::Nil },
            ),
        ),
        V::Dict(xs) => PickleValue::Dict(
            Seq::new(
                xs@.len(),
                |i: int|
                    if 0 <= i < xs@.len() {
                        (view_of(xs@[i].0), view_of(xs@[i].1))
                    } else {
                        (PickleValue::Nil, PickleValue::Nil)
                    },
            ),
        ),
        V::Global(m, n) => PickleValue::Global(m@, n@),
        V::Storage { dtype, key } => PickleValue::Storage { dtype: dtype@, key: key@ },
        V::Tensor { dtype, key, offset, shape, stride } => PickleValue::Tensor {
            dtype: dtype@,
            key: key@,
            offset,
            shape: shape@,
            stride: stride@,
        },
        V::Mark => PickleValue::Mark,
        V::Other => PickleValue::Other,
    }
}

/// The values of a sequence, one for one.
pub open spec fn views(xs: Seq<V>) -> Seq<PickleValue> {
    Seq::new(xs.len(), |i: int| view_of(xs[i]))
}

/// The key and value pairs of a sequence, one for one.
pub open spec fn pair_views(xs: Seq<(V, V)>) -> Seq<(PickleValue, PickleValue)> {
    Seq::new(xs.len(), |i: int| (view_of(xs[i].0), view_of(xs[i].1)))
}

/// The memo's values, under the same numbers.
pub open spec fn memo_views(memo: Map<u32, V>) -> Map<u32, PickleValue> {
    Map::new(|k: u32| memo.dom().contains(k), |k: u32| view_of(memo[k]))
}

pub proof fn lemma_view_list(xs: Vec<V>)
    ensures
        view_of(V::List(xs)) == PickleValue::List(views(xs@)),
        view_of(V::Tuple(xs)) == PickleValue::Tuple(views(xs@)),
{
    assert(view_of(V::List(xs))->List_0 =~= views(xs@));
    assert(view_of(V::Tuple(xs))->Tuple_0 =~= views(xs@));
}

pub proof fn lemma_view_dict(xs: Vec<(V, V)>)
    ensures
        view_of(V::Dict(xs)) == PickleValue::Dict(pair_views(xs@)),
{
    assert(view_of(V::Dict(xs))->Dict_0 =~= pair_views(xs@));
}

/// The number that `bytes` write, lowest byte first.
pub open spec fn little_endian(bytes: Seq<u8>) -> nat
    decreases bytes.len(),
{
    if bytes.len() == 0 {
        0
    } else {
        bytes[0] as nat + 256 * little_endian(bytes.skip(1))
    }
}

/// `n` as a two's complement number of which `n` gives the bits, `half` being its highest bit.
pub open spec fn signed(n: nat, half: nat) -> int {
    if n < half {
        n as int
    } else {
        n - 2 * half
    }
}

/// The double whose bytes stand highest first.
pub open spec fn big_endian(bytes: Seq<u8>) -> nat {
    little_endian(bytes.reverse())
}

/// The two's complement number that `bytes` write, lowest byte first, cut to its low 64 bits.
pub open spec fn long_value(bytes: Seq<u8>) -> int {
    signed((sign_extended(bytes) % 0x1_0000_0000_0000_0000) as nat, 0x8000_0000_0000_0000)
}

/// The two's complement number that `bytes` write, lowest byte first.
pub open spec fn sign_extended(bytes: Seq<u8>) -> int
    decreases bytes.len(),
{
    if bytes.len() == 0 {
        0
    } else if bytes.len() == 1 {
        signed(bytes[0] as nat, 0x80)
    } else {
        bytes[0] as int + 256 * sign_extended(bytes.skip(1))
    }
}

/// One instruction of the machine, with its operands.
pub enum Instruction<T> {
    Skip,
    Stop,
    Push(T),
    Memoize(u32),
    MemoizeNext,
    Recall(u32),
    StackGlobal,
    TupleFromMark,
    TupleOf(usize),
    PersistentId,
    Reduce,
    Build,
    SetItem,
    SetItems,
    Append,
    Appends,
}

impl Instruction<V> {
    /// The instruction over the value that is pushed.
    pub open spec fn seen(self) -> Instruction<PickleValue> {
        match self {
            Instruction::Skip => Instruction::Skip,
            Instruction::Stop => Instruction::Stop,
            Instruction::Push(v) => Instruction::Push(v@),
            Instruction::Memoize(i) => Instruction::Memoize(i),
            Instruction::MemoizeNext => Instruction::MemoizeNext,
            Instruction::Recall(i) => Instruction::Recall(i),
            Instruction::StackGlobal => Instruction::StackGlobal,
            Instruction::TupleFromMark => Instruction::TupleFromMark,
            Instruction::TupleOf(n) => Instruction::TupleOf(n),
            Instruction::PersistentId => Instruction::PersistentId,
            Instruction::Reduce => Instruction::Reduce,
            Instruction::Build => Instruction::Build,
            Instruction::SetItem => Instruction::SetItem,
            Instruction::SetItems => Instruction::SetItems,
            Instruction::Append => Instruction::Append,
            Instruction::Appends => Instruction::Appends,
        }
    }
}

/// The `n` bytes at `at`, where there are so many.
pub open spec fn operand(data: Seq<u8>, at: int, n: int) -> Option<Seq<u8>> {
    if 0 <= at && 0 <= n && at + n <= data.len() {
        Some(data.subrange(at, at + n))
    } else {
        None
    }
}

/// The bytes that follow their own count, which takes `width` bytes, and the place behind them.
pub open spec fn counted(data: Seq<u8>, at: int, width: int) -> Option<(Seq<u8>, int)> {
    match operand(data, at, width) {
        Some(count) => match operand(data, at + width, little_endian(count) as int) {
            Some(bytes) => Some((bytes, at + width + little_endian(count))),
            None => None,
        },
        None => None,
    }
}

/// The place of the first line feed from `at` on.
pub open spec fn line_end(data: Seq<u8>, at: int) -> Option<int>
    decreases data.len() - at,
{
    if at < 0 || at >= data.len() {
        None
    } else if data[at] == 10 {
        Some(at)
    } else {
        line_end(data, at + 1)
    }
}

/// The text of the line at `at` and the place behind its line feed.
pub open spec fn line(data: Seq<u8>, at: int) -> Result<(Seq<char>, int), Seq<char>> {
    match line_end(data, at) {
        Some(end) => match text::text_of(data.subrange(at, end)) {
            Ok(s) => Ok((s, end + 1)),
            Err(m) => Err(m),
        },
        None => Err("truncated GLOBAL"@),
    }
}

/// What `made` makes of the `n` bytes at `at`.
pub open spec fn decode_fixed(
    data: Seq<u8>,
    at: int,
    n: int,
    made: spec_fn(Seq<u8>) -> Instruction<PickleValue>,
) -> Result<(Instruction<PickleValue>, int), Seq<char>> {
    match operand(data, at, n) {
        Some(bytes) => Ok((made(bytes), at + n)),
        None => Err("truncated pickle"@),
    }
}

/// What `made` makes of the bytes behind a count of `width` bytes.
pub open spec fn decode_counted(
    data: Seq<u8>,
    at: int,
    width: int,
    made: spec_fn(Seq<u8>) -> Instruction<PickleValue>,
) -> Result<(Instruction<PickleValue>, int), Seq<char>> {
    match counted(data, at, width) {
        Some((bytes, next)) => Ok((made(bytes), next)),
        None => Err("truncated pickle"@),
    }
}

/// A push of the text behind a count of `width` bytes.
pub open spec fn decode_text(data: Seq<u8>, at: int, width: int) -> Result<
    (Instruction<PickleValue>, int),
    Seq<char>,
> {
    match counted(data, at, width) {
        Some((bytes, next)) => match text::text_of(bytes) {
            Ok(s) => Ok((Instruction::Push(PickleValue::Str(s)), next)),
            Err(m) => Err(m),
        },
        None => Err("truncated pickle"@),
    }
}

/// A push of the global that two lines name.
pub open spec fn decode_global(data: Seq<u8>, at: int) -> Result<
    (Instruction<PickleValue>, int),
    Seq<char>,
> {
    match line(data, at) {
        Ok((module, middle)) => match line(data, middle) {
            Ok((name, next)) => Ok((Instruction::Push(PickleValue::Global(module, name)), next)),
            Err(m) => Err(m),
        },
        Err(m) => Err(m),
    }
}

/// The instruction at `pos` and the place behind it.
pub open spec fn decode(data: Seq<u8>, pos: int) -> Result<(Instruction<PickleValue>, int), Seq<char>> {
    if pos < 0 || pos >= data.len() {
        Err("truncated pickle"@)
    } else {
        let op = data[pos];
        let at = pos + 1;
        if op == 0x80 {
            decode_fixed(data, at, 1, |b: Seq<u8>| Instruction::Skip)
        } else if op == 0x95 {
            decode_fixed(data, at, 8, |b: Seq<u8>| Instruction::Skip)
        } else if op == 0x2e {
            Ok((Instruction::Stop, at))
        } else if op == 0x7d {
            Ok((Instruction::Push(PickleValue::Dict(Seq::empty())), at))
        } else if op == 0x5d {
            Ok((Instruction::Push(PickleValue::List(Seq::empty())), at))
        } else if op == 0x29 {
            Ok((Instruction::Push(PickleValue::Tuple(Seq::empty())), at))
        } else if op == 0x28 {
            Ok((Instruction::Push(PickleValue::Mark), at))
        } else if op == 0x4e {
            Ok((Instruction::Push(PickleValue::Nil), at))
        } else if op == 0x88 {
            Ok((Instruction::Push(PickleValue::Bool(true)), at))
        } else if op == 0x89 {
            Ok((Instruction::Push(PickleValue::Bool(false)), at))
        } else if op == 0x4a {
            decode_fixed(
                data,
                at,
                4,
                |b: Seq<u8>|
                    Instruction::Push(PickleValue::Int(signed(little_endian(b), 0x8000_0000) as i64)),
            )
        } else if op == 0x4b {
            decode_fixed(
                data,
                at,
                1,
                |b: Seq<u8>| Instruction::Push(PickleValue::Int(little_endian(b) as i64)),
            )
        } else if op == 0x4d {
            decode_fixed(
                data,
                at,
                2,
                |b: Seq<u8>| Instruction::Push(PickleValue::Int(little_endian(b) as i64)),
            )
        } else if op == 0x8a {
            decode_counted(
                data,
                at,
                1,
                |b: Seq<u8>| Instruction::Push(PickleValue::Int(long_value(b) as i64)),
            )
        } else if op == 0x47 {
            decode_fixed(
                data,
                at,
                8,
                |b: Seq<u8>| Instruction::Push(PickleValue::Float(big_endian(b) as u64)),
            )
        } else if op == 0x58 {
            decode_text(data, at, 4)
        } else if op == 0x8c {
            decode_text(data, at, 1)
        } else if op == 0x8d {
            decode_text(data, at, 8)
        } else if op == 0x43 {
            decode_counted(data, at, 1, |b: Seq<u8>| Instruction::Push(PickleValue::Bytes))
        } else if op == 0x42 {
            decode_counted(data, at, 4, |b: Seq<u8>| Instruction::Push(PickleValue::Bytes))
        } else if op == 0x71 {
            decode_fixed(data, at, 1, |b: Seq<u8>| Instruction::Memoize(little_endian(b) as u32))
        } else if op == 0x72 {
            decode_fixed(data, at, 4, |b: Seq<u8>| Instruction::Memoize(little_endian(b) as u32))
        } else if op == 0x94 {
            Ok((Instruction::MemoizeNext, at))
        } else if op == 0x68 {
            decode_fixed(data, at, 1, |b: Seq<u8>| Instruction::Recall(little_endian(b) as u32))
        } else if op == 0x6a {
            decode_fixed(data, at, 4, |b: Seq<u8>| Instruction::Recall(little_endian(b) as u32))
        } else if op == 0x63 {
            decode_global(data, at)
        } else if op == 0x93 {
            Ok((Instruction::StackGlobal, at))
        } else if op == 0x74 {
            Ok((Instruction::TupleFromMark, at))
        } else if 0x85 <= op <= 0x87 {
            Ok((Instruction::TupleOf((op - 0x84) as usize), at))
        } else if op == 0x51 {
            Ok((Instruction::PersistentId, at))
        } else if op == 0x52 || op == 0x81 {
            Ok((Instruction::Reduce, at))
        } else if op == 0x62 {
            Ok((Instruction::Build, at))
        } else if op == 0x73 {
            Ok((Instruction::SetItem, at))
        } else if op == 0x75 {
            Ok((Instruction::SetItems, at))
        } else if op == 0x61 {
            Ok((Instruction::Append, at))
        } else if op == 0x65 {
            Ok((Instruction::Appends, at))
        } else {
            Err("unsupported pickle opcode 0x"@ + text::hex_of_byte(op))
        }
    }
}

/// The place of the topmost mark.
pub open spec fn last_mark(stack: Seq<PickleValue>) -> Option<int>
    decreases stack.len(),
{
    if stack.len() == 0 {
        None
    } else if stack.last() is Mark {
        Some(stack.len() - 1)
    } else {
        last_mark(stack.drop_last())
    }
}

/// The stack and the memo after the top of the stack was noted under `k`.
pub open spec fn remembered(k: u32, stack: Seq<PickleValue>, memo: Map<u32, PickleValue>) -> Result<
    (Seq<PickleValue>, Map<u32, PickleValue>),
    Seq<char>,
> {
    if stack.len() == 0 {
        Err("memo of empty stack"@)
    } else {
        Ok((stack, memo.insert(k, stack.last())))
    }
}

/// The storage that a persistent id `('storage', type, key, ..)` names.
pub open spec fn storage_of(pid: PickleValue) -> PickleValue {
    match pid {
        PickleValue::Tuple(t) => if t.len() >= 3 {
            match (t[1], t[2]) {
                (PickleValue::Global(_, dtype), PickleValue::Str(key)) => PickleValue::Storage { dtype, key },
                _ => PickleValue::Other,
            }
        } else {
            PickleValue::Other
        },
        _ => PickleValue::Other,
    }
}

/// The sizes that a tuple or a list of non-negative integers holds.
pub open spec fn sizes_of(v: PickleValue) -> Option<Seq<usize>> {
    match v {
        PickleValue::Tuple(xs) => sizes_in(xs),
        PickleValue::List(xs) => sizes_in(xs),
        _ => None,
    }
}

pub open spec fn is_size(v: PickleValue) -> bool {
    v is Int && 0 <= v->Int_0 <= usize::MAX
}

pub open spec fn sizes_in(xs: Seq<PickleValue>) -> Option<Seq<usize>> {
    if forall|i: int| 0 <= i < xs.len() ==> is_size(#[trigger] xs[i]) {
        Some(Seq::new(xs.len(), |i: int| xs[i]->Int_0 as usize))
    } else {
        None
    }
}

/// The tensor that a call of torch's rebuild function with arguments `a` stands for.
pub open spec fn tensor_of(a: Seq<PickleValue>) -> PickleValue {
    match (a[0], a[1], sizes_of(a[2]), sizes_of(a[3])) {
        (PickleValue::Storage { dtype, key }, PickleValue::Int(offset), Some(shape), Some(stride)) => {
            PickleValue::Tensor { dtype, key, offset: offset as usize, shape, stride }
        },
        _ => PickleValue::Other,
    }
}

/// What a call of `func` with `args` stands for: a tensor, an empty dict, or nothing known.
pub open spec fn call_of(func: PickleValue, args: PickleValue) -> PickleValue {
    match func {
        PickleValue::Global(m, n) => if m == "torch._utils"@ && n == "_rebuild_tensor_v2"@
            && args is Tuple && args->Tuple_0.len() >= 4 {
            tensor_of(args->Tuple_0)
        } else if m == "collections"@ && n == "OrderedDict"@ {
            PickleValue::Dict(Seq::empty())
        } else {
            PickleValue::Other
        },
        _ => PickleValue::Other,
    }
}

/// The stack after `more` was put into the dict on its top; anything else there takes nothing.
pub open spec fn with_pairs(stack: Seq<PickleValue>, more: Seq<(PickleValue, PickleValue)>) -> Seq<PickleValue> {
    if stack.len() > 0 && stack.last() is Dict {
        stack.drop_last().push(PickleValue::Dict(stack.last()->Dict_0 + more))
    } else {
        stack
    }
}

/// The stack after `more` was put into the list on its top; anything else there takes nothing.
pub open spec fn with_items(stack: Seq<PickleValue>, more: Seq<PickleValue>) -> Seq<PickleValue> {
    if stack.len() > 0 && stack.last() is List {
        stack.drop_last().push(PickleValue::List(stack.last()->List_0 + more))
    } else {
        stack
    }
}

/// Neighbours taken together, an odd one at the end left out.
pub open spec fn paired(xs: Seq<PickleValue>) -> Seq<(PickleValue, PickleValue)> {
    Seq::new(xs.len() / 2, |i: int| (xs[2 * i], xs[2 * i + 1]))
}

/// The stack and the memo after an instruction.
pub open spec fn applied(i: Instruction<PickleValue>, stack: Seq<PickleValue>, memo: Map<u32, PickleValue>) -> Result<
    (Seq<PickleValue>, Map<u32, PickleValue>),
    Seq<char>,
> {
    let n = stack.len();
    match i {
        Instruction::Skip => Ok((stack, memo)),
        Instruction::Stop => Ok((stack, memo)),
        Instruction::Push(v) => Ok((stack.push(v), memo)),
        Instruction::Memoize(k) => remembered(k, stack, memo),
        Instruction::MemoizeNext => remembered(memo.dom().len() as u32, stack, memo),
        Instruction::Recall(k) => if memo.dom().contains(k) {
            Ok((stack.push(memo[k]), memo))
        } else {
            Err("unknown memo"@)
        },
        Instruction::StackGlobal => if n < 2 {
            Err("pickle stack underflow"@)
        } else {
            match (stack[n - 2], stack[n - 1]) {
                (PickleValue::Str(module), PickleValue::Str(name)) => Ok(
                    (stack.take(n - 2).push(PickleValue::Global(module, name)), memo),
                ),
                _ => Err("bad STACK_GLOBAL"@),
            }
        },
        Instruction::TupleFromMark => match last_mark(stack) {
            Some(at) => Ok((stack.take(at).push(PickleValue::Tuple(stack.skip(at + 1))), memo)),
            None => Err("pickle mark missing"@),
        },
        Instruction::TupleOf(k) => if n < k {
            Err("pickle stack underflow"@)
        } else {
            Ok((stack.take(n - k).push(PickleValue::Tuple(stack.skip(n - k))), memo))
        },
        Instruction::PersistentId => if n < 1 {
            Err("pickle stack underflow"@)
        } else {
            Ok((stack.drop_last().push(storage_of(stack.last())), memo))
        },
        Instruction::Reduce => if n < 2 {
            Err("pickle stack underflow"@)
        } else {
            Ok((stack.take(n - 2).push(call_of(stack[n - 2], stack[n - 1])), memo))
        },
        Instruction::Build => if n < 1 {
            Err("pickle stack underflow"@)
        } else {
            Ok((stack.drop_last(), memo))
        },
        Instruction::SetItem => if n < 2 {
            Err("pickle stack underflow"@)
        } else {
            Ok((with_pairs(stack.take(n - 2), seq![(stack[n - 2], stack[n - 1])]), memo))
        },
        Instruction::SetItems => match last_mark(stack) {
            Some(at) => Ok((with_pairs(stack.take(at), paired(stack.skip(at + 1))), memo)),
            None => Err("pickle mark missing"@),
        },
        Instruction::Append => if n < 1 {
            Err("pickle stack underflow"@)
        } else {
            Ok((with_items(stack.drop_last(), seq![stack.last()]), memo))
        },
        Instruction::Appends => match last_mark(stack) {
            Some(at) => Ok((with_items(stack.take(at), stack.skip(at + 1)), memo)),
            None => Err("pickle mark missing"@),
        },
    }
}

/// What the machine leaves when it runs `data` from `pos` on: the top of the stack at the first
/// stop, or why there is none.
pub open spec fn run(data: Seq<u8>, pos: int, stack: Seq<PickleValue>, memo: Map<u32, PickleValue>) -> Result<
    PickleValue,
    Seq<char>,
>
    decreases data.len() - pos,
{
    match decode(data, pos) {
        Err(e) => Err(e),
        Ok((instruction, next)) => if instruction is Stop {
            if stack.len() == 0 {
                Err("pickle stack underflow"@)
            } else {
                Ok(stack.last())
            }
        } else {
            match applied(instruction, stack, memo) {
                Err(e) => Err(e),
                Ok((stack, memo)) => {
                    proof {
                        lemma_decode_advances(data, pos);
                    }
                    run(data, next, stack, memo)
                },
            }
        },
    }
}

proof fn lemma_line_end(data: Seq<u8>, at: int)
    ensures
        line_end(data, at) matches Some(end) ==> at <= end < data.len() && data[end] == 10,
    decreases data.len() - at,
{
    if 0 <= at < data.len() && data[at] != 10 {
        lemma_line_end(data, at + 1);
    }
}

/// An instruction takes at least one byte and none beyond the end.
pub proof fn lemma_decode_advances(data: Seq<u8>, pos: int)
    ensures
        decode(data, pos) matches Ok((i, next)) ==> 0 <= pos < next <= data.len(),
{
    lemma_line_end(data, pos + 1);
    if let Some(end) = line_end(data, pos + 1) {
        lemma_line_end(data, end + 1);
    }
}

/// `256` to the power of `n`.
pub open spec fn pow256(n: nat) -> nat
    decreases n,
{
    if n == 0 {
        1
    } else {
        256 * pow256((n - 1) as nat)
    }
}

proof fn lemma_little_endian_bound(bytes: Seq<u8>)
    ensures
        little_endian(bytes) < pow256(bytes.len()),
    decreases bytes.len(),
{
    if bytes.len() > 0 {
        lemma_little_endian_bound(bytes.skip(1));
    }
}

proof fn lemma_pow256()
    ensures
        pow256(0) == 1,
        pow256(1) == 0x100,
        pow256(2) == 0x1_0000,
        pow256(3) == 0x100_0000,
        pow256(4) == 0x1_0000_0000,
        pow256(5) == 0x100_0000_0000,
        pow256(6) == 0x1_0000_0000_0000,
        pow256(7) == 0x100_0000_0000_0000,
        pow256(8) == 0x1_0000_0000_0000_0000,
{
    reveal_with_fuel(pow256, 9);
}

/// The number that `n` bytes at `at` write, lowest byte first.
pub(crate) fn read_number(data: &[u8], at: usize, n: usize) -> (r: Option<u64>)
    requires
        at <= data@.len(),
        n <= 8,
    ensures
        match operand(data@, at as int, n as int) {
            Some(b) => r == Some(little_endian(b) as u64) && little_endian(b) < pow256(n as nat)
                && little_endian(b) <= u64::MAX,
            None => r is None,
        },
{
    let len: usize = data.len();
    if len - at < n {
        return None;
    }
    let ghost all = data@.subrange(at as int, at + n);
    let mut value: u64 = 0;
    let mut i: usize = n;
    while i > 0
        invariant
            i <= n <= 8,
            at + n <= len == data@.len(),
            all == data@.subrange(at as int, at + n),
            value == little_endian(all.skip(i as int)),
        decreases i,
    {
        proof {
            lemma_little_endian_bound(all.skip(i as int));
            lemma_pow256();
            assert(pow256((n - i) as nat) <= 0x100_0000_0000_0000);
            assert(all.skip(i - 1).skip(1) =~= all.skip(i as int));
        }
        i -= 1;
        value = value * 256 + data[at + i] as u64;
    }
    proof {
        assert(all.skip(0) =~= all);
        lemma_little_endian_bound(all);
        lemma_pow256();
    }
    Some(value)
}

/// The bits of the double that eight bytes at `at` write, highest byte first.
fn read_double(data: &[u8], at: usize) -> (r: Option<u64>)
    requires
        at <= data@.len(),
    ensures
        match operand(data@, at as int, 8) {
            Some(b) => r == Some(big_endian(b) as u64),
            None => r is None,
        },
{
    let len: usize = data.len();
    if len - at < 8 {
        return None;
    }
    let ghost all = data@.subrange(at as int, at + 8);
    let mut value: u64 = 0;
    let mut i: usize = 0;
    while i < 8
        invariant
            i <= 8,
            at + 8 <= len == data@.len(),
            all == data@.subrange(at as int, at + 8),
            value == big_endian(all.take(i as int)),
        decreases 8 - i,
    {
        proof {
            let done = all.take(i as int);
            lemma_little_endian_bound(done.reverse());
            lemma_pow256();
            assert(pow256(i as nat) <= 0x100_0000_0000_0000);
            let more = all.take(i + 1);
            assert(more.reverse().skip(1) =~= done.reverse());
            assert(more.reverse()[0] == all[i as int]);
        }
        value = value * 256 + data[at + i] as u64;
        i += 1;
    }
    assert(all.take(8) =~= all);
    Some(value)
}

proof fn lemma_shift_in(high: int, low: int)
    requires
        0 <= low < 256,
    ensures
        (low + 256 * high) % 0x1_0000_0000_0000_0000 == high % 0x1_0000_0000_0000_0000
            % 0x100_0000_0000_0000 * 256 + low,
{
    let q = high / 0x1_0000_0000_0000_0000;
    let bits = high % 0x1_0000_0000_0000_0000;
    let top = bits / 0x100_0000_0000_0000;
    let rest = bits % 0x100_0000_0000_0000;
    assert(low + 256 * high == (256 * q + top) * 0x1_0000_0000_0000_0000 + (256 * rest + low));
    vstd::arithmetic::div_mod::lemma_fundamental_div_mod_converse(
        low + 256 * high,
        0x1_0000_0000_0000_0000,
        256 * q + top,
        256 * rest + low,
    );
}

/// The low 64 bits of the two's complement number in the bytes `from..to`.
fn read_long(data: &[u8], from: usize, to: usize) -> (r: i64)
    requires
        from <= to <= data@.len(),
    ensures
        r == long_value(data@.subrange(from as int, to as int)),
{
    if from == to {
        return 0;
    }
    let ghost all = data@.subrange(from as int, to as int);
    let mut i: usize = to - 1;
    let mut bits: u64 = if data[i] < 0x80 {
        data[i] as u64
    } else {
        0xffff_ffff_ffff_ff00 + data[i] as u64
    };
    assert(all.skip(i - from)[0] == data@[i as int]);
    while i > from
        invariant
            from <= i < to <= data@.len(),
            all == data@.subrange(from as int, to as int),
            bits == sign_extended(all.skip(i - from)) % 0x1_0000_0000_0000_0000,
        decreases i,
    {
        proof {
            let before = all.skip(i - from);
            let after = all.skip(i - 1 - from);
            assert(after.skip(1) =~= before);
            assert(after[0] == data@[i - 1]);
            lemma_shift_in(sign_extended(before), after[0] as int);
        }
        i -= 1;
        bits = bits % 0x100_0000_0000_0000 * 256 + data[i] as u64;
    }
    assert(all.skip(0) =~= all);
    if bits < 0x8000_0000_0000_0000 {
        bits as i64
    } else {
        -1 - (0xffff_ffff_ffff_ffff - bits) as i64
    }
}

/// Where the bytes behind a count of `width` bytes begin and end.
fn read_counted(data: &[u8], at: usize, width: usize) -> (r: Option<(usize, usize)>)
    requires
        at <= data@.len(),
        width <= 8,
    ensures
        match counted(data@, at as int, width as int) {
            Some((bytes, next)) => {
                &&& r matches Some((from, to))
                &&& from <= to <= data@.len()
                &&& to == next
                &&& bytes == data@.subrange(from as int, to as int)
            },
            None => r is None,
        },
{
    let len: usize = data.len();
    match read_number(data, at, width) {
        Some(n) => {
            let from: usize = at + width;
            if n > (len - from) as u64 {
                None
            } else {
                Some((from, from + n as usize))
            }
        },
        None => None,
    }
}

/// The place of the first line feed from `at` on.
fn find_line_end(data: &[u8], at: usize) -> (r: Option<usize>)
    requires
        at <= data@.len(),
    ensures
        match line_end(data@, at as int) {
            Some(end) => r matches Some(e) && e == end && at <= end < data@.len(),
            None => r is None,
        },
{
    let mut i: usize = at;
    while i < data.len()
        invariant
            at <= i <= data@.len(),
            line_end(data@, at as int) == line_end(data@, i as int),
        decreases data@.len() - i,
    {
        if data[i] == 10 {
            return Some(i);
        }
        i += 1;
    }
    None
}

/// The text of the line at `at` and the place behind its line feed.
fn read_line(data: &[u8], at: usize) -> (r: Result<(String, usize), String>)
    requires
        at <= data@.len(),
    ensures
        match line(data@, at as int) {
            Ok((s, next)) => r matches Ok((t, end)) && t@ == s && end == next && end <= data@.len(),
            Err(m) => r matches Err(e) && e@ == m,
        },
{
    let len: usize = data.len();
    match find_line_end(data, at) {
        Some(end) => match text_between(data, at, end) {
            Ok(s) => Ok((s, end + 1)),
            Err(m) => Err(m),
        },
        None => Err("truncated GLOBAL".to_owned()),
    }
}

/// Whether the executable outcome `r` is what `s` says.
spec fn decodes(
    r: Result<(Instruction<V>, usize), String>,
    s: Result<(Instruction<PickleValue>, int), Seq<char>>,
) -> bool {
    match s {
        Ok((i, next)) => r matches Ok((j, end)) && j.seen() == i && end == next,
        Err(m) => r matches Err(e) && e@ == m,
    }
}

fn read_text(data: &[u8], at: usize, width: usize) -> (r: Result<(Instruction<V>, usize), String>)
    requires
        at <= data@.len(),
        width <= 8,
    ensures
        decodes(r, decode_text(data@, at as int, width as int)),
{
    match read_counted(data, at, width) {
        Some((from, to)) => match text_between(data, from, to) {
            Ok(s) => Ok((Instruction::Push(V::Str(s)), to)),
            Err(m) => Err(m),
        },
        None => Err("truncated pickle".to_owned()),
    }
}

fn read_bytes(data: &[u8], at: usize, width: usize) -> (r: Result<(Instruction<V>, usize), String>)
    requires
        at <= data@.len(),
        width <= 8,
    ensures
        decodes(
            r,
            decode_counted(
                data@,
                at as int,
                width as int,
                |b: Seq<u8>| Instruction::Push(PickleValue::Bytes),
            ),
        ),
{
    match read_counted(data, at, width) {
        Some((from, to)) => Ok((Instruction::Push(V::Bytes), to)),
        None => Err("truncated pickle".to_owned()),
    }
}

fn read_global(data: &[u8], at: usize) -> (r: Result<(Instruction<V>, usize), String>)
    requires
        at <= data@.len(),
    ensures
        decodes(r, decode_global(data@, at as int)),
{
    match read_line(data, at) {
        Ok((module, middle)) => match read_line(data, middle) {
            Ok((name, next)) => Ok((Instruction::Push(V::Global(module, name)), next)),
            Err(m) => Err(m),
        },
        Err(m) => Err(m),
    }
}

/// Reads the instruction at `pos`.
#[verifier::rlimit(40)]
fn read_instruction(data: &[u8], pos: usize) -> (r: Result<(Instruction<V>, usize), String>)
    requires
        pos <= data@.len(),
    ensures
        decodes(r, decode(data@, pos as int)),
{
    proof {
        lemma_pow256();
    }
    if pos >= data.len() {
        return Err("truncated pickle".to_owned());
    }
    let op: u8 = data[pos];
    let at: usize = pos + 1;
    if op == 0x80 {
        if data.len() - at < 1 {
            Err("truncated pickle".to_owned())
        } else {
            Ok((Instruction::Skip, at + 1))
        }
    } else if op == 0x95 {
        if data.len() - at < 8 {
            Err("truncated pickle".to_owned())
        } else {
            Ok((Instruction::Skip, at + 8))
        }
    } else if op == 0x2e {
        Ok((Instruction::Stop, at))
    } else if op == 0x7d {
        let empty: Vec<(V, V)> = Vec::new();
        proof {
            lemma_view_dict(empty);
            assert(pair_views(empty@) =~= Seq::empty());
        }
        Ok((Instruction::Push(V::Dict(empty)), at))
    } else if op == 0x5d {
        let empty: Vec<V> = Vec::new();
        proof {
            lemma_view_list(empty);
            assert(views(empty@) =~= Seq::empty());
        }
        Ok((Instruction::Push(V::List(empty)), at))
    } else if op == 0x29 {
        let empty: Vec<V> = Vec::new();
        proof {
            lemma_view_list(empty);
            assert(views(empty@) =~= Seq::empty());
        }
        Ok((Instruction::Push(V::Tuple(empty)), at))
    } else if op == 0x28 {
        Ok((Instruction::Push(V::Mark), at))
    } else if op == 0x4e {
        Ok((Instruction::Push(V::Nil), at))
    } else if op == 0x88 {
        Ok((Instruction::Push(V::Bool(true)), at))
    } else if op == 0x89 {
        Ok((Instruction::Push(V::Bool(false)), at))
    } else if op == 0x4a {
        match read_number(data, at, 4) {
            Some(n) => {
                let value: i64 = if n < 0x8000_0000 {
                    n as i64
                } else {
                    n as i64 - 0x1_0000_0000
                };
                Ok((Instruction::Push(V::Int(value)), at + 4))
            },
            None => Err("truncated pickle".to_owned()),
        }
    } else if op == 0x4b {
        match read_number(data, at, 1) {
            Some(n) => Ok((Instruction::Push(V::Int(n as i64)), at + 1)),
            None => Err("truncated pickle".to_owned()),
        }
    } else if op == 0x4d {
        match read_number(data, at, 2) {
            Some(n) => Ok((Instruction::Push(V::Int(n as i64)), at + 2)),
            None => Err("truncated pickle".to_owned()),
        }
    } else if op == 0x8a {
        match read_counted(data, at, 1) {
            Some((from, to)) => Ok((Instruction::Push(V::Int(read_long(data, from, to))), to)),
            None => Err("truncated pickle".to_owned()),
        }
    } else if op == 0x47 {
        match read_double(data, at) {
            Some(bits) => Ok((Instruction::Push(V::Float(bits)), at + 8)),
            None => Err("truncated pickle".to_owned()),
        }
    } else if op == 0x58 {
        read_text(data, at, 4)
    } else if op == 0x8c {
        read_text(data, at, 1)
    } else if op == 0x8d {
        read_text(data, at, 8)
    } else if op == 0x43 {
        read_bytes(data, at, 1)
    } else if op == 0x42 {
        read_bytes(data, at, 4)
    } else if op == 0x71 {
        match read_number(data, at, 1) {
            Some(n) => Ok((Instruction::Memoize(n as u32), at + 1)),
            None => Err("truncated pickle".to_owned()),
        }
    } else if op == 0x72 {
        match read_number(data, at, 4) {
            Some(n) => Ok((Instruction::Memoize(n as u32), at + 4)),
            None => Err("truncated pickle".to_owned()),
        }
    } else if op == 0x94 {
        Ok((Instruction::MemoizeNext, at))
    } else if op == 0x68 {
        match read_number(data, at, 1) {
            Some(n) => Ok((Instruction::Recall(n as u32), at + 1)),
            None => Err("truncated pickle".to_owned()),
        }
    } else if op == 0x6a {
        match read_number(data, at, 4) {
            Some(n) => Ok((Instruction::Recall(n as u32), at + 4)),
            None => Err("truncated pickle".to_owned()),
        }
    } else if op == 0x63 {
        read_global(data, at)
    } else if op == 0x93 {
        Ok((Instruction::StackGlobal, at))
    } else if op == 0x74 {
        Ok((Instruction::TupleFromMark, at))
    } else if 0x85 <= op && op <= 0x87 {
        Ok((Instruction::TupleOf((op - 0x84) as usize), at))
    } else if op == 0x51 {
        Ok((Instruction::PersistentId, at))
    } else if op == 0x52 || op == 0x81 {
        Ok((Instruction::Reduce, at))
    } else if op == 0x62 {
        Ok((Instruction::Build, at))
    } else if op == 0x73 {
        Ok((Instruction::SetItem, at))
    } else if op == 0x75 {
        Ok((Instruction::SetItems, at))
    } else if op == 0x61 {
        Ok((Instruction::Append, at))
    } else if op == 0x65 {
        Ok((Instruction::Appends, at))
    } else {
        Err(join("unsupported pickle opcode 0x", hex_byte(op).as_str()))
    }
}

/// The integer as JSON writes it.
pub open spec fn integer_json(i: i64) -> JsonValue {
    if i >= 0 {
        JsonValue::Natural(i as u64)
    } else {
        JsonValue::Negative(i)
    }
}

/// The value as JSON: lists and tuples alike as arrays, and null for what JSON cannot hold.
pub open spec fn json_of(v: PickleValue) -> JsonValue
    decreases v,
{
    match v {
        PickleValue::Bool(b) => JsonValue::Bool(b),
        PickleValue::Int(i) => integer_json(i),
        PickleValue::Float(bits) => if bits::double_is_finite(bits) {
            JsonValue::Double(bits)
        } else {
            JsonValue::Null
        },
        PickleValue::Str(s) => JsonValue::Text(s),
        PickleValue::List(xs) => JsonValue::Array(
            Seq::new(
                xs.len(),
                |i: int| if 0 <= i < xs.len() { json_of(xs[i]) } else { JsonValue::Null },
            ),
        ),
        PickleValue::Tuple(xs) => JsonValue::Array(
            Seq::new(
                xs.len(),
                |i: int| if 0 <= i < xs.len() { json_of(xs[i]) } else { JsonValue::Null },
            ),
        ),
        _ => JsonValue::Null,
    }
}

/// The value under the text `key` in a dict: that of the first such key.
pub open spec fn found(v: PickleValue, key: Seq<char>) -> Option<PickleValue> {
    match v {
        PickleValue::Dict(items) => found_in(items, key),
        _ => None,
    }
}

pub open spec fn found_in(items: Seq<(PickleValue, PickleValue)>, key: Seq<char>) -> Option<PickleValue>
    decreases items.len(),
{
    if items.len() == 0 {
        None
    } else if items[0].0 == PickleValue::Str(key) {
        Some(items[0].1)
    } else {
        found_in(items.skip(1), key)
    }
}

fn copy_sizes(xs: &Vec<usize>) -> (r: Vec<usize>)
    ensures
        r@ == xs@,
{
    let mut out: Vec<usize> = Vec::new();
    let mut i: usize = 0;
    while i < xs.len()
        invariant
            i <= xs@.len(),
            out@ == xs@.take(i as int),
        decreases xs@.len() - i,
    {
        out.push(xs[i]);
        i += 1;
    }
    assert(xs@.take(xs@.len() as int) =~= xs@);
    out
}

fn copy_values(xs: &Vec<V>) -> (r: Vec<V>)
    ensures
        views(r@) == views(xs@),
    decreases xs,
{
    let mut out: Vec<V> = Vec::new();
    let mut i: usize = 0;
    while i < xs.len()
        invariant
            i <= xs@.len(),
            out@.len() == i,
            forall|j: int| 0 <= j < i ==> view_of(#[trigger] out@[j]) == view_of(xs@[j]),
        decreases xs@.len() - i,
    {
        let item = xs[i].copy();
        out.push(item);
        i += 1;
    }
    assert(views(out@) =~= views(xs@));
    out
}

fn copy_pairs(xs: &Vec<(V, V)>) -> (r: Vec<(V, V)>)
    ensures
        pair_views(r@) == pair_views(xs@),
    decreases xs,
{
    let mut out: Vec<(V, V)> = Vec::new();
    let mut i: usize = 0;
    while i < xs.len()
        invariant
            i <= xs@.len(),
            out@.len() == i,
            forall|j: int|
                0 <= j < i ==> view_of(#[trigger] out@[j].0) == view_of(xs@[j].0) && view_of(
                    out@[j].1,
                ) == view_of(xs@[j].1),
        decreases xs@.len() - i,
    {
        let item = &xs[i];
        let pair = (item.0.copy(), item.1.copy());
        out.push(pair);
        i += 1;
    }
    assert(pair_views(out@) =~= pair_views(xs@));
    out
}

impl V {
    /// The same value once more.
    pub fn copy(&self) -> (r: V)
        ensures
            r@ == self@,
        decreases self,
    {
        match self {
            V::Nil => V::Nil,
            V::Bool(b) => V::Bool(*b),
            V::Int(i) => V::Int(*i),
            V::Float(f) => V::Float(*f),
            V::Str(s) => V::Str(s.clone()),
            V::Bytes => V::Bytes,
            V::List(xs) => {
                let ys = copy_values(xs);
                proof {
                    lemma_view_list(*xs);
                    lemma_view_list(ys);
                }
                V::List(ys)
            },
            V::Tuple(xs) => {
                let ys = copy_values(xs);
                proof {
                    lemma_view_list(*xs);
                    lemma_view_list(ys);
                }
                V::Tuple(ys)
            },
            V::Dict(xs) => {
                let ys = copy_pairs(xs);
                proof {
                    lemma_view_dict(*xs);
                    lemma_view_dict(ys);
                }
                V::Dict(ys)
            },
            V::Global(m, n) => V::Global(m.clone(), n.clone()),
            V::Storage { dtype, key } => V::Storage { dtype: dtype.clone(), key: key.clone() },
            V::Tensor { dtype, key, offset, shape, stride } => V::Tensor {
                dtype: dtype.clone(),
                key: key.clone(),
                offset: *offset,
                shape: copy_sizes(shape),
                stride: copy_sizes(stride),
            },
            V::Mark => V::Mark,
            V::Other => V::Other,
        }
    }

    /// The value under the text `key`, where this is a dict that has it.
    pub fn get(&self, key: &str) -> (r: Option<&V>)
        ensures
            match found(self@, key@) {
                Some(v) => r matches Some(w) && w@ == v,
                None => r is None,
            },
    {
        match self {
            V::Dict(items) => {
                proof {
                    lemma_view_dict(*items);
                }
                let ghost all = pair_views(items@);
                assert(all.skip(0) =~= all);
                let mut i: usize = 0;
                while i < items.len()
                    invariant
                        i <= items@.len(),
                        self@ == PickleValue::Dict(all),
                        all == pair_views(items@),
                        found_in(all, key@) == found_in(all.skip(i as int), key@),
                    decreases items@.len() - i,
                {
                    let item = &items[i];
                    proof {
                        assert(all.skip(i as int)[0] == all[i as int]);
                        assert(all.skip(i as int).skip(1) =~= all.skip(i + 1));
                    }
                    if let V::Str(s) = &item.0 {
                        if same(s.as_str(), key) {
                            return Some(&item.1);
                        }
                    }
                    i += 1;
                }
                None
            },
            _ => None,
        }
    }

    /// The value as JSON.
    pub fn to_json(&self) -> (r: Json)
        ensures
            r@ == json_of(self@),
        decreases self,
    {
        match self {
            V::Bool(b) => Json::Bool(*b),
            V::Int(i) => if *i >= 0 {
                Json::Natural(*i as u64)
            } else {
                Json::Negative(*i)
            },
            V::Float(bits) => if is_finite_double(*bits) {
                Json::Double(*bits)
            } else {
                Json::Null
            },
            V::Str(s) => Json::Text(s.clone()),
            V::List(xs) => {
                let ys = jsons(xs);
                proof {
                    lemma_view_list(*xs);
                    json::lemma_json_array(ys);
                    assert(json_of(self@)->Array_0 =~= json::json_views(ys@));
                }
                Json::Array(ys)
            },
            V::Tuple(xs) => {
                let ys = jsons(xs);
                proof {
                    lemma_view_list(*xs);
                    json::lemma_json_array(ys);
                    assert(json_of(self@)->Array_0 =~= json::json_views(ys@));
                }
                Json::Array(ys)
            },
            _ => Json::Null,
        }
    }

    /// The sizes that a tuple or a list of non-negative integers holds.
    fn usizes(&self) -> (r: Option<Vec<usize>>)
        ensures
            match sizes_of(self@) {
                Some(s) => r matches Some(t) && t@ == s,
                None => r is None,
            },
    {
        match self {
            V::Tuple(xs) => {
                proof {
                    lemma_view_list(*xs);
                }
                sizes(xs)
            },
            V::List(xs) => {
                proof {
                    lemma_view_list(*xs);
                }
                sizes(xs)
            },
            _ => None,
        }
    }
}

fn jsons(xs: &Vec<V>) -> (r: Vec<Json>)
    ensures
        r@.len() == xs@.len(),
        forall|i: int| 0 <= i < xs@.len() ==> json::json_view(#[trigger] r@[i]) == json_of(view_of(xs@[i])),
    decreases xs,
{
    let mut out: Vec<Json> = Vec::new();
    let mut i: usize = 0;
    while i < xs.len()
        invariant
            i <= xs@.len(),
            out@.len() == i,
            forall|j: int| 0 <= j < i ==> json::json_view(#[trigger] out@[j]) == json_of(view_of(xs@[j])),
        decreases xs@.len() - i,
    {
        let item = xs[i].to_json();
        out.push(item);
        i += 1;
    }
    out
}

fn sizes(xs: &Vec<V>) -> (r: Option<Vec<usize>>)
    ensures
        match sizes_in(views(xs@)) {
            Some(s) => r matches Some(t) && t@ == s,
            None => r is None,
        },
{
    let ghost all = views(xs@);
    let mut out: Vec<usize> = Vec::new();
    let mut i: usize = 0;
    while i < xs.len()
        invariant
            i <= xs@.len(),
            all == views(xs@),
            out@.len() == i,
            forall|j: int| 0 <= j < i ==> is_size(#[trigger] all[j]) && out@[j] == all[j]->Int_0,
        decreases xs@.len() - i,
    {
        assert(all[i as int] == view_of(xs@[i as int]));
        match &xs[i] {
            V::Int(n) => {
                if *n < 0 || *n as u64 > usize::MAX as u64 {
                    return None;
                }
                out.push(*n as usize);
            },
            _ => {
                return None;
            },
        }
        i += 1;
    }
    assert(out@ =~= Seq::new(all.len(), |j: int| all[j]->Int_0 as usize));
    Some(out)
}

proof fn lemma_views_push(xs: Seq<V>, x: V)
    ensures
        views(xs.push(x)) == views(xs).push(view_of(x)),
{
    assert(views(xs.push(x)) =~= views(xs).push(view_of(x)));
}

proof fn lemma_memo_insert(memo: Map<u32, V>, k: u32, v: V)
    ensures
        memo_views(memo.insert(k, v)) == memo_views(memo).insert(k, view_of(v)),
{
    assert(memo_views(memo.insert(k, v)) =~= memo_views(memo).insert(k, view_of(v)));
}

/// The place of the topmost mark.
fn find_mark(stack: &Vec<V>) -> (r: Option<usize>)
    ensures
        match last_mark(views(stack@)) {
            Some(at) => r matches Some(i) && i == at && at < stack@.len(),
            None => r is None,
        },
{
    let ghost all = views(stack@);
    let mut i: usize = stack.len();
    assert(all.take(i as int) =~= all);
    while i > 0
        invariant
            i <= stack@.len(),
            all == views(stack@),
            last_mark(all) == last_mark(all.take(i as int)),
        decreases i,
    {
        assert(all.take(i as int).drop_last() =~= all.take(i - 1));
        assert(all.take(i as int).last() == view_of(stack@[i - 1]));
        if let V::Mark = &stack[i - 1] {
            return Some(i - 1);
        }
        i -= 1;
    }
    None
}

/// Takes what stands above the topmost mark, and the mark.
fn pop_mark(stack: &mut Vec<V>) -> (r: Result<Vec<V>, String>)
    ensures
        match last_mark(views(old(stack)@)) {
            Some(at) => {
                &&& r matches Ok(items)
                &&& views(items@) == views(old(stack)@).skip(at + 1)
                &&& views(final(stack)@) == views(old(stack)@).take(at)
            },
            None => r matches Err(e) && e@ == "pickle mark missing"@,
        },
{
    match find_mark(stack) {
        Some(at) => {
            let ghost before = stack@;
            let n: usize = stack.len();
            let items = stack.split_off(at + 1);
            let _ = stack.pop();
            proof {
                assert(views(items@) =~= views(before).skip(at + 1));
                assert(views(stack@) =~= views(before).take(at as int));
            }
            Ok(items)
        },
        None => Err("pickle mark missing".to_owned()),
    }
}

/// Takes the top of the stack.
fn pop(stack: &mut Vec<V>) -> (r: Result<V, String>)
    ensures
        if old(stack)@.len() == 0 {
            r matches Err(e) && e@ == "pickle stack underflow"@
        } else {
            &&& r matches Ok(v)
            &&& v@ == views(old(stack)@).last()
            &&& views(final(stack)@) == views(old(stack)@).drop_last()
        },
{
    let ghost before = stack@;
    match stack.pop() {
        Some(v) => {
            assert(views(stack@) =~= views(before).drop_last());
            Ok(v)
        },
        None => Err("pickle stack underflow".to_owned()),
    }
}

/// Notes the top of the stack under `k`.
fn remember(k: u32, stack: &Vec<V>, memo: &mut HashMap<u32, V>) -> (r: Result<(), String>)
    ensures
        match remembered(k, views(stack@), memo_views(old(memo)@)) {
            Ok((s, m)) => r is Ok && memo_views(final(memo)@) == m,
            Err(e) => r matches Err(m) && m@ == e,
        },
{
    let n: usize = stack.len();
    if n == 0 {
        return Err("memo of empty stack".to_owned());
    }
    let top = stack[n - 1].copy();
    proof {
        lemma_memo_insert(memo@, k, top);
    }
    let _ = memo.insert(k, top);
    Ok(())
}

/// The storage that a persistent id names.
fn storage(pid: &V) -> (r: V)
    ensures
        r@ == storage_of(pid@),
{
    match pid {
        V::Tuple(t) => {
            proof {
                lemma_view_list(*t);
            }
            if t.len() >= 3 {
                match (&t[1], &t[2]) {
                    (V::Global(_, dtype), V::Str(key)) => V::Storage {
                        dtype: dtype.clone(),
                        key: key.clone(),
                    },
                    _ => V::Other,
                }
            } else {
                V::Other
            }
        },
        _ => V::Other,
    }
}

/// `offset` as an address: a negative one wraps round.
fn as_offset(offset: i64) -> (r: usize)
    ensures
        r == offset as usize,
{
    offset as usize
}

/// The tensor that a call of torch's rebuild function stands for.
fn rebuilt(a: &Vec<V>) -> (r: V)
    requires
        a@.len() >= 4,
    ensures
        r@ == tensor_of(views(a@)),
{
    match (&a[0], &a[1]) {
        (V::Storage { dtype, key }, V::Int(offset)) => match (a[2].usizes(), a[3].usizes()) {
            (Some(shape), Some(stride)) => V::Tensor {
                dtype: dtype.clone(),
                key: key.clone(),
                offset: as_offset(*offset),
                shape,
                stride,
            },
            _ => V::Other,
        },
        _ => V::Other,
    }
}

/// What a call of `func` with `args` stands for.
fn reduced(func: &V, args: &V) -> (r: V)
    ensures
        r@ == call_of(func@, args@),
{
    match func {
        V::Global(m, n) => {
            if same(m.as_str(), "torch._utils") && same(n.as_str(), "_rebuild_tensor_v2") {
                if let V::Tuple(a) = args {
                    proof {
                        lemma_view_list(*a);
                    }
                    if a.len() >= 4 {
                        return rebuilt(a);
                    }
                }
            }
            if same(m.as_str(), "collections") && same(n.as_str(), "OrderedDict") {
                let empty: Vec<(V, V)> = Vec::new();
                proof {
                    lemma_view_dict(empty);
                    assert(pair_views(empty@) =~= Seq::empty());
                }
                V::Dict(empty)
            } else {
                V::Other
            }
        },
        _ => V::Other,
    }
}

/// Puts pairs into the dict on top of the stack.
fn extend_dict(stack: &mut Vec<V>, more: Vec<(V, V)>)
    ensures
        views(final(stack)@) == with_pairs(views(old(stack)@), pair_views(more@)),
{
    let ghost before = views(stack@);
    let ghost pairs = pair_views(more@);
    match stack.pop() {
        Some(V::Dict(mut items)) => {
            let mut more = more;
            proof {
                lemma_view_dict(items);
            }
            let ghost known = pair_views(items@);
            items.append(&mut more);
            proof {
                lemma_view_dict(items);
                assert(pair_views(items@) =~= known + pairs);
                lemma_views_push(stack@, V::Dict(items));
                assert(views(stack@) =~= before.drop_last());
            }
            stack.push(V::Dict(items));
        },
        Some(other) => {
            proof {
                lemma_views_push(stack@, other);
                assert(views(stack@) =~= before.drop_last());
            }
            stack.push(other);
            assert(views(stack@) =~= before);
        },
        None => {
            assert(views(stack@) =~= before);
        },
    }
}

/// Puts items into the list on top of the stack.
fn extend_list(stack: &mut Vec<V>, more: Vec<V>)
    ensures
        views(final(stack)@) == with_items(views(old(stack)@), views(more@)),
{
    let ghost before = views(stack@);
    let ghost added = views(more@);
    match stack.pop() {
        Some(V::List(mut items)) => {
            let mut more = more;
            proof {
                lemma_view_list(items);
            }
            let ghost known = views(items@);
            items.append(&mut more);
            proof {
                lemma_view_list(items);
                assert(views(items@) =~= known + added);
                lemma_views_push(stack@, V::List(items));
                assert(views(stack@) =~= before.drop_last());
            }
            stack.push(V::List(items));
        },
        Some(other) => {
            proof {
                lemma_views_push(stack@, other);
                assert(views(stack@) =~= before.drop_last());
            }
            stack.push(other);
            assert(views(stack@) =~= before);
        },
        None => {
            assert(views(stack@) =~= before);
        },
    }
}

/// Neighbours taken together, an odd one at the end left out.
fn pair_up(items: Vec<V>) -> (r: Vec<(V, V)>)
    ensures
        pair_views(r@) == paired(views(items@)),
{
    let ghost all = views(items@);
    let mut rest = items;
    if rest.len() % 2 == 1 {
        let _ = rest.pop();
    }
    let n: usize = rest.len() / 2;
    let mut back: Vec<(V, V)> = Vec::new();
    let mut left: usize = n;
    while left > 0
        invariant
            left <= n,
            n == all.len() / 2,
            rest@.len() == 2 * left,
            views(rest@) == all.take(2 * left),
            back@.len() == n - left,
            forall|j: int|
                0 <= j < n - left ==> #[trigger] pair_views(back@)[j] == (
                    all[2 * (n - 1 - j)],
                    all[2 * (n - 1 - j) + 1],
                ),
        decreases left,
    {
        let ghost before = rest@;
        let ghost known = back@;
        if let Some(v) = rest.pop() {
            if let Some(k) = rest.pop() {
                proof {
                    assert(views(before)[2 * left - 1] == view_of(v));
                    assert(views(before)[2 * left - 2] == view_of(k));
                    assert(views(rest@) =~= all.take(2 * left - 2));
                }
                back.push((k, v));
                proof {
                    assert forall|j: int| 0 <= j < n - left + 1 implies #[trigger] pair_views(back@)[j]
                        == (all[2 * (n - 1 - j)], all[2 * (n - 1 - j) + 1]) by {
                        if j < n - left {
                            assert(pair_views(known)[j] == pair_views(back@)[j]);
                        }
                    }
                }
            }
        }
        left -= 1;
    }
    let mut out: Vec<(V, V)> = Vec::new();
    let ghost reversed = pair_views(back@);
    while back.len() > 0
        invariant
            back@.len() + out@.len() == n,
            n == reversed.len(),
            pair_views(back@) == reversed.take(back@.len() as int),
            forall|j: int| 0 <= j < out@.len() ==> #[trigger] pair_views(out@)[j] == reversed[n - 1 - j],
        decreases back@.len(),
    {
        let ghost before = back@;
        let ghost known = out@;
        if let Some(pair) = back.pop() {
            proof {
                assert(pair_views(before).last() == (view_of(pair.0), view_of(pair.1)));
                assert(pair_views(back@) =~= reversed.take(back@.len() as int));
            }
            out.push(pair);
            proof {
                assert forall|j: int| 0 <= j < out@.len() implies #[trigger] pair_views(out@)[j]
                    == reversed[n - 1 - j] by {
                    if j < known.len() {
                        assert(pair_views(known)[j] == pair_views(out@)[j]);
                    }
                }
            }
        }
    }
    assert(pair_views(out@) =~= paired(all));
    out
}

/// Carries out one instruction.
fn apply(instruction: Instruction<V>, stack: &mut Vec<V>, memo: &mut HashMap<u32, V>) -> (r: Result<
    (),
    String,
>)
    ensures
        match applied(instruction.seen(), views(old(stack)@), memo_views(old(memo)@)) {
            Ok((s, m)) => r is Ok && views(final(stack)@) == s && memo_views(final(memo)@) == m,
            Err(e) => r matches Err(m) && m@ == e,
        },
{
    let ghost before = views(stack@);
    let n: usize = stack.len();
    match instruction {
        Instruction::Skip => Ok(()),
        Instruction::Stop => Ok(()),
        Instruction::Push(v) => {
            proof {
                lemma_views_push(stack@, v);
            }
            stack.push(v);
            Ok(())
        },
        Instruction::Memoize(k) => remember(k, stack, memo),
        Instruction::MemoizeNext => {
            proof {
                assert(memo_views(memo@).dom() =~= memo@.dom());
            }
            let k: u32 = memo.len() as u32;
            remember(k, stack, memo)
        },
        Instruction::Recall(k) => match memo.get(&k) {
            Some(v) => {
                let w = v.copy();
                proof {
                    lemma_views_push(stack@, w);
                }
                stack.push(w);
                Ok(())
            },
            None => Err("unknown memo".to_owned()),
        },
        Instruction::StackGlobal => {
            let name = match pop(stack) {
                Ok(v) => v,
                Err(e) => {
                    return Err(e);
                },
            };
            let module = match pop(stack) {
                Ok(v) => v,
                Err(e) => {
                    return Err(e);
                },
            };
            assert(views(stack@) =~= before.take(n - 2));
            match (module, name) {
                (V::Str(module), V::Str(name)) => {
                    let v = V::Global(module, name);
                    proof {
                        lemma_views_push(stack@, v);
                    }
                    stack.push(v);
                    Ok(())
                },
                _ => Err("bad STACK_GLOBAL".to_owned()),
            }
        },
        Instruction::TupleFromMark => match pop_mark(stack) {
            Ok(items) => {
                proof {
                    lemma_view_list(items);
                    lemma_views_push(stack@, V::Tuple(items));
                }
                stack.push(V::Tuple(items));
                Ok(())
            },
            Err(e) => Err(e),
        },
        Instruction::TupleOf(k) => {
            if n < k {
                return Err("pickle stack underflow".to_owned());
            }
            let items = stack.split_off(n - k);
            proof {
                assert(views(items@) =~= before.skip(n - k));
                assert(views(stack@) =~= before.take(n - k));
                lemma_view_list(items);
                lemma_views_push(stack@, V::Tuple(items));
            }
            stack.push(V::Tuple(items));
            Ok(())
        },
        Instruction::PersistentId => match pop(stack) {
            Ok(pid) => {
                let v = storage(&pid);
                proof {
                    lemma_views_push(stack@, v);
                }
                stack.push(v);
                Ok(())
            },
            Err(e) => Err(e),
        },
        Instruction::Reduce => {
            let args = match pop(stack) {
                Ok(v) => v,
                Err(e) => {
                    return Err(e);
                },
            };
            let func = match pop(stack) {
                Ok(v) => v,
                Err(e) => {
                    return Err(e);
                },
            };
            assert(views(stack@) =~= before.take(n - 2));
            let v = reduced(&func, &args);
            proof {
                lemma_views_push(stack@, v);
            }
            stack.push(v);
            Ok(())
        },
        Instruction::Build => match pop(stack) {
            Ok(_) => Ok(()),
            Err(e) => Err(e),
        },
        Instruction::SetItem => {
            let v = match pop(stack) {
                Ok(v) => v,
                Err(e) => {
                    return Err(e);
                },
            };
            let k = match pop(stack) {
                Ok(v) => v,
                Err(e) => {
                    return Err(e);
                },
            };
            assert(views(stack@) =~= before.take(n - 2));
            let mut more: Vec<(V, V)> = Vec::new();
            more.push((k, v));
            assert(pair_views(more@) =~= seq![(before[n - 2], before[n - 1])]);
            extend_dict(stack, more);
            Ok(())
        },
        Instruction::SetItems => match pop_mark(stack) {
            Ok(items) => {
                let more = pair_up(items);
                extend_dict(stack, more);
                Ok(())
            },
            Err(e) => Err(e),
        },
        Instruction::Append => match pop(stack) {
            Ok(v) => {
                let mut more: Vec<V> = Vec::new();
                more.push(v);
                assert(views(more@) =~= seq![before.last()]);
                extend_list(stack, more);
                Ok(())
            },
            Err(e) => Err(e),
        },
        Instruction::Appends => match pop_mark(stack) {
            Ok(items) => {
                extend_list(stack, items);
                Ok(())
            },
            Err(e) => Err(e),
        },
    }
}

/// What the pickle in `data` stands for.
pub open spec fn loaded(data: Seq<u8>) -> Result<PickleValue, Seq<char>> {
    run(data, 0, Seq::empty(), Map::empty())
}

/// Interprets a pickle. The value is what its machine has on top of the stack at the first stop.
pub fn load(data: &[u8]) -> (r: Result<V, String>)
    ensures
        match loaded(data@) {
            Ok(v) => r matches Ok(w) && w@ == v,
            Err(e) => r matches Err(m) && m@ == e,
        },
{
    let mut stack: Vec<V> = Vec::new();
    let mut memo: HashMap<u32, V> = HashMap::new();
    let mut pos: usize = 0;
    assert(views(stack@) =~= Seq::empty());
    assert(memo_views(memo@) =~= Map::empty());
    loop
        invariant
            pos <= data@.len(),
            loaded(data@) == run(data@, pos as int, views(stack@), memo_views(memo@)),
        decreases data@.len() - pos,
    {
        proof {
            lemma_decode_advances(data@, pos as int);
        }
        match read_instruction(data, pos) {
            Err(e) => {
                return Err(e);
            },
            Ok((instruction, next)) => {
                if let Instruction::Stop = &instruction {
                    return pop(&mut stack);
                }
                if let Err(e) = apply(instruction, &mut stack, &mut memo) {
                    return Err(e);
                }
                pos = next;
            },
        }
    }
}

proof fn lemma_line_end_more(data: Seq<u8>, more: Seq<u8>, at: int)
    requires
        line_end(data, at) is Some,
    ensures
        line_end(data + more, at) == line_end(data, at),
    decreases data.len() - at,
{
    if data[at] != 10 {
        lemma_line_end_more(data, more, at + 1);
    }
}

proof fn lemma_line_more(data: Seq<u8>, more: Seq<u8>, at: int)
    requires
        line(data, at) is Ok,
    ensures
        line(data + more, at) == line(data, at),
{
    lemma_line_end(data, at);
    lemma_line_end_more(data, more, at);
    let end = line_end(data, at)->0;
    assert((data + more).subrange(at, end) =~= data.subrange(at, end));
}

proof fn lemma_operand_more(data: Seq<u8>, more: Seq<u8>, at: int, n: int)
    ensures
        operand(data, at, n) is Some ==> operand(data + more, at, n) == operand(data, at, n),
{
    if operand(data, at, n) is Some {
        assert((data + more).subrange(at, at + n) =~= data.subrange(at, at + n));
    }
}

proof fn lemma_counted_more(data: Seq<u8>, more: Seq<u8>, at: int, width: int)
    ensures
        counted(data, at, width) is Some ==> counted(data + more, at, width) == counted(
            data,
            at,
            width,
        ),
{
    lemma_operand_more(data, more, at, width);
    if let Some(count) = operand(data, at, width) {
        lemma_operand_more(data, more, at + width, little_endian(count) as int);
    }
}

/// An instruction is read from its own bytes alone.
pub proof fn lemma_decode_more(data: Seq<u8>, more: Seq<u8>, pos: int)
    requires
        decode(data, pos) is Ok,
    ensures
        decode(data + more, pos) == decode(data, pos),
{
    let at = pos + 1;
    assert((data + more)[pos] == data[pos]);
    lemma_operand_more(data, more, at, 1);
    lemma_operand_more(data, more, at, 2);
    lemma_operand_more(data, more, at, 4);
    lemma_operand_more(data, more, at, 8);
    lemma_counted_more(data, more, at, 1);
    lemma_counted_more(data, more, at, 4);
    lemma_counted_more(data, more, at, 8);
    if data[pos] == 0x63 {
        lemma_line_more(data, more, at);
        lemma_line_more(data, more, line(data, at)->Ok_0.1);
    }
}

proof fn lemma_run_more(data: Seq<u8>, more: Seq<u8>, pos: int, stack: Seq<PickleValue>, memo: Map<u32, PickleValue>)
    requires
        run(data, pos, stack, memo) is Ok,
    ensures
        run(data + more, pos, stack, memo) == run(data, pos, stack, memo),
    decreases data.len() - pos,
{
    lemma_decode_advances(data, pos);
    lemma_decode_more(data, more, pos);
    let (instruction, next) = decode(data, pos)->Ok_0;
    if !(instruction is Stop) {
        let (s, m) = applied(instruction, stack, memo)->Ok_0;
        lemma_run_more(data, more, next, s, m);
    }
}

/// A pickle that loads ends at its stop: what is written behind it changes nothing.
pub proof fn law_bytes_behind_the_stop(data: Seq<u8>, more: Seq<u8>)
    requires
        loaded(data) is Ok,
    ensures
        loaded(data + more) == loaded(data),
{
    lemma_run_more(data, more, 0, Seq::empty(), Map::empty());
}

/// No call is ever carried out: whatever a pickle calls becomes a tensor, an empty dict or nothing
/// known, and of a tensor only the place in a storage is kept.
pub proof fn law_calls_are_data(func: PickleValue, args: PickleValue)
    ensures
        call_of(func, args) is Tensor || call_of(func, args) == PickleValue::Dict(Seq::empty())
            || call_of(func, args) is Other,
        !(func is Global) ==> call_of(func, args) is Other,
{
}

/// A key is found where it stands first: the entries before it have other keys, and one that stands nowhere is
/// not found.
pub proof fn law_first_entry_is_found(items: Seq<(PickleValue, PickleValue)>, key: Seq<char>, at: int)
    requires
        0 <= at <= items.len(),
        forall|i: int| 0 <= i < at ==> (#[trigger] items[i]).0 != PickleValue::Str(key),
        at < items.len() ==> items[at].0 == PickleValue::Str(key),
    ensures
        found(PickleValue::Dict(items), key) == if at < items.len() {
            Some(items[at].1)
        } else {
            None
        },
    decreases at,
{
    if at > 0 {
        let rest = items.skip(1);
        assert forall|i: int| 0 <= i < at - 1 implies (#[trigger] rest[i]).0 != PickleValue::Str(key) by {
            assert(rest[i] == items[i + 1]);
        }
        law_first_entry_is_found(rest, key, at - 1);
    }
}

/// What JSON can hold keeps its value: booleans, integers of either sign, finite numbers, texts, and lists and
/// tuples item by item. What it cannot hold is null.
pub proof fn law_json_keeps_values(b: bool, i: i64, f: u64, s: Seq<char>, xs: Seq<PickleValue>, k: int)
    ensures
        json_of(PickleValue::Bool(b)) == JsonValue::Bool(b),
        i >= 0 ==> json_of(PickleValue::Int(i)) == JsonValue::Natural(i as u64),
        i < 0 ==> json_of(PickleValue::Int(i)) == JsonValue::Negative(i),
        f as int % 0x8000_0000_0000_0000 < 0x7ff0_0000_0000_0000 ==> json_of(PickleValue::Float(f))
            == JsonValue::Double(f),
        f as int % 0x8000_0000_0000_0000 >= 0x7ff0_0000_0000_0000 ==> json_of(PickleValue::Float(f))
            == JsonValue::Null,
        json_of(PickleValue::Str(s)) == JsonValue::Text(s),
        json_of(PickleValue::List(xs)) == json_of(PickleValue::Tuple(xs)),
        json_of(PickleValue::List(xs)) is Array,
        json_of(PickleValue::List(xs))->Array_0.len() == xs.len(),
        0 <= k < xs.len() ==> json_of(PickleValue::List(xs))->Array_0[k] == json_of(xs[k]),
        json_of(PickleValue::Nil) == JsonValue::Null,
        json_of(PickleValue::Dict(Seq::empty())) == JsonValue::Null,
{
    assert(json_of(PickleValue::List(xs))->Array_0 =~= json_of(PickleValue::Tuple(xs))->Array_0);
}

/// A call makes a tensor only where it is that of the function that rebuilds tensors, with all that it takes; only
/// the ordered dictionary of the standard library makes a dictionary, and an empty one.
pub proof fn law_only_tensors_are_rebuilt(func: PickleValue, args: PickleValue)
    ensures
        call_of(func, args) is Tensor ==> func == PickleValue::Global("torch._utils"@, "_rebuild_tensor_v2"@)
            && args is Tuple && args->Tuple_0.len() >= 4 && args->Tuple_0[0] is Storage,
        call_of(func, args) is Dict ==> func == PickleValue::Global("collections"@, "OrderedDict"@),
        func == PickleValue::Global("collections"@, "OrderedDict"@) ==> call_of(func, args)
            == PickleValue::Dict(Seq::empty()),
        !(func is Global) ==> call_of(func, args) == PickleValue::Other,
{
    reveal_strlit("torch._utils");
    reveal_strlit("collections");
    assert("torch._utils"@.len() != "collections"@.len());
}

} // verus!
