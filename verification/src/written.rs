//! How the values of a checkpoint are written as a pickle, and that each of them reads back.
use crate::pickle;
use crate::pickle::{decode, last_mark, loaded, operand, run, Instruction, PickleValue};
use vstd::prelude::*;
use vstd::utf8;

verus! {

/// The lowest `k` bytes of `n` in two's complement, lowest first.
pub open spec fn digits(n: int, k: nat) -> Seq<u8>
    decreases k,
{
    if k == 0 {
        Seq::empty()
    } else {
        seq![(n % 256) as u8] + digits(n / 256, (k - 1) as nat)
    }
}

/// The bytes that write a value: an integer in the shortest form, and a text behind its length.
pub open spec fn written(v: PickleValue) -> Seq<u8>
    decreases v, 0nat,
{
    match v {
        PickleValue::Nil => seq![0x4eu8],
        PickleValue::Bool(b) => seq![if b { 0x88u8 } else { 0x89u8 }],
        PickleValue::Int(i) => if 0 <= i < 0x100 {
            seq![0x4bu8] + digits(i as int, 1)
        } else if 0 <= i < 0x1_0000 {
            seq![0x4du8] + digits(i as int, 2)
        } else if -0x8000_0000 <= i < 0x8000_0000 {
            seq![0x4au8] + digits(i as int, 4)
        } else {
            seq![0x8au8, 8u8] + digits(i as int, 8)
        },
        PickleValue::Float(bits) => seq![0x47u8] + digits(bits as int, 8).reverse(),
        PickleValue::Str(s) => (seq![0x58u8] + digits(utf8::encode_utf8(s).len() as int, 4))
            + utf8::encode_utf8(s),
        PickleValue::List(xs) => (seq![0x5du8, 0x28u8] + written_all(xs, xs.len())) + seq![0x65u8],
        PickleValue::Tuple(xs) => (seq![0x28u8] + written_all(xs, xs.len())) + seq![0x74u8],
        PickleValue::Dict(xs) => (seq![0x7du8, 0x28u8] + written_pairs(xs, xs.len()))
            + seq![0x75u8],
        _ => Seq::empty(),
    }
}

/// The first `n` of the values in a row.
pub open spec fn written_all(xs: Seq<PickleValue>, n: nat) -> Seq<u8>
    decreases xs, n,
{
    if n == 0 || n > xs.len() {
        Seq::empty()
    } else {
        written_all(xs, (n - 1) as nat) + written(xs[n - 1])
    }
}

/// The first `n` of the pairs in a row, each with its key first.
pub open spec fn written_pairs(xs: Seq<(PickleValue, PickleValue)>, n: nat) -> Seq<u8>
    decreases xs, n,
{
    if n == 0 || n > xs.len() {
        Seq::empty()
    } else {
        (written_pairs(xs, (n - 1) as nat) + written(xs[n - 1].0)) + written(xs[n - 1].1)
    }
}

/// Whether a value is plain data that can be written: texts have fewer than 2^32 bytes.
pub open spec fn writable(v: PickleValue) -> bool
    decreases v,
{
    match v {
        PickleValue::Nil => true,
        PickleValue::Bool(_) => true,
        PickleValue::Int(_) => true,
        PickleValue::Float(_) => true,
        PickleValue::Str(s) => utf8::encode_utf8(s).len() < 0x1_0000_0000,
        PickleValue::List(xs) => forall|i: int| 0 <= i < xs.len() ==> writable(#[trigger] xs[i]),
        PickleValue::Tuple(xs) => forall|i: int| 0 <= i < xs.len() ==> writable(#[trigger] xs[i]),
        PickleValue::Dict(xs) => forall|i: int|
            0 <= i < xs.len() ==> writable((#[trigger] xs[i]).0) && writable(xs[i].1),
        _ => false,
    }
}

/// Whether `bytes` stand at `pos`.
spec fn stand(data: Seq<u8>, pos: int, bytes: Seq<u8>) -> bool {
    &&& 0 <= pos
    &&& pos + bytes.len() <= data.len()
    &&& forall|i: int| 0 <= i < bytes.len() ==> data[pos + i] == #[trigger] bytes[i]
}

proof fn lemma_split(data: Seq<u8>, pos: int, a: Seq<u8>, b: Seq<u8>)
    requires
        stand(data, pos, a + b),
    ensures
        stand(data, pos, a),
        stand(data, pos + a.len(), b),
{
    assert forall|i: int| 0 <= i < a.len() implies data[pos + i] == #[trigger] a[i] by {
        assert((a + b)[i] == a[i]);
    }
    assert forall|i: int| 0 <= i < b.len() implies data[pos + a.len() + i] == #[trigger] b[i] by {
        assert((a + b)[a.len() + i] == b[i]);
    }
}

proof fn lemma_operand(data: Seq<u8>, pos: int, bytes: Seq<u8>)
    requires
        stand(data, pos, bytes),
    ensures
        operand(data, pos, bytes.len() as int) == Some(bytes),
{
    assert(data.subrange(pos, pos + bytes.len()) =~= bytes);
}

proof fn lemma_digits_len(n: int, k: nat)
    ensures
        digits(n, k).len() == k,
    decreases k,
{
    if k > 0 {
        lemma_digits_len(n / 256, (k - 1) as nat);
    }
}

/// Digits stand for the number that they were taken from, where it is not negative and has no more of them.
pub proof fn law_digits_read_back(n: int, k: nat)
    requires
        0 <= n < vstd::arithmetic::power::pow(256, k),
    ensures
        pickle::little_endian(digits(n, k)) == n,
        digits(n, k).len() == k,
    decreases k,
{
    lemma_digits_len(n, k);
    vstd::arithmetic::power::lemma_pow0(256);
    if k > 0 {
        reveal(vstd::arithmetic::power::pow);
        let rest = digits(n / 256, (k - 1) as nat);
        assert(vstd::arithmetic::power::pow(256, k) == 256 * vstd::arithmetic::power::pow(
            256,
            (k - 1) as nat,
        ));
        law_digits_read_back(n / 256, (k - 1) as nat);
        assert(digits(n, k).skip(1) =~= rest);
    }
}

/// Digits in two's complement stand for the number that they were taken from, of either sign.
pub proof fn law_signed_digits_read_back(n: int, k: nat)
    requires
        k >= 1,
        -128 * vstd::arithmetic::power::pow(256, (k - 1) as nat) <= n < 128
            * vstd::arithmetic::power::pow(256, (k - 1) as nat),
    ensures
        pickle::sign_extended(digits(n, k)) == n,
    decreases k,
{
    vstd::arithmetic::power::lemma_pow0(256);
    lemma_digits_len(n, k);
    let rest = digits(n / 256, (k - 1) as nat);
    assert(digits(n, k).skip(1) =~= rest);
    if k > 1 {
        lemma_digits_len(n / 256, (k - 1) as nat);
        reveal(vstd::arithmetic::power::pow);
        assert(vstd::arithmetic::power::pow(256, (k - 1) as nat) == 256
            * vstd::arithmetic::power::pow(256, (k - 2) as nat));
        law_signed_digits_read_back(n / 256, (k - 1) as nat);
    }
}

proof fn lemma_powers()
    ensures
        vstd::arithmetic::power::pow(256, 0) == 1,
        vstd::arithmetic::power::pow(256, 1) == 0x100,
        vstd::arithmetic::power::pow(256, 2) == 0x1_0000,
        vstd::arithmetic::power::pow(256, 3) == 0x100_0000,
        vstd::arithmetic::power::pow(256, 4) == 0x1_0000_0000,
        vstd::arithmetic::power::pow(256, 5) == 0x100_0000_0000,
        vstd::arithmetic::power::pow(256, 6) == 0x1_0000_0000_0000,
        vstd::arithmetic::power::pow(256, 7) == 0x100_0000_0000_0000,
        vstd::arithmetic::power::pow(256, 8) == 0x1_0000_0000_0000_0000,
{
    reveal(vstd::arithmetic::power::pow);
    reveal_with_fuel(vstd::arithmetic::power::pow, 9);
}

proof fn lemma_last_mark(below: Seq<PickleValue>, xs: Seq<PickleValue>)
    requires
        forall|i: int| 0 <= i < xs.len() ==> !((#[trigger] xs[i]) is Mark),
    ensures
        last_mark(below.push(PickleValue::Mark) + xs) == Some(below.len() as int),
    decreases xs.len(),
{
    let all = below.push(PickleValue::Mark) + xs;
    if xs.len() == 0 {
        assert(all.last() is Mark);
    } else {
        assert(all.last() == xs.last());
        assert(all.drop_last() =~= below.push(PickleValue::Mark) + xs.drop_last());
        lemma_last_mark(below, xs.drop_last());
    }
}

/// What a run comes to.
#[verifier::opaque]
spec fn outcome(data: Seq<u8>, pos: int, stack: Seq<PickleValue>, memo: Map<u32, PickleValue>) -> Result<
    PickleValue,
    Seq<char>,
> {
    run(data, pos, stack, memo)
}

proof fn lemma_one(data: Seq<u8>, pos: int, stack: Seq<PickleValue>, memo: Map<u32, PickleValue>, v: PickleValue, next: int)
    requires
        decode(data, pos) == Ok::<(Instruction<PickleValue>, int), Seq<char>>(
            (Instruction::Push(v), next),
        ),
    ensures
        outcome(data, pos, stack, memo) == outcome(data, next, stack.push(v), memo),
{
    reveal(outcome);
}

proof fn lemma_scalar(data: Seq<u8>, pos: int, v: PickleValue)
    requires
        writable(v),
        stand(data, pos, written(v)),
        !(v is List) && !(v is Tuple) && !(v is Dict),
    ensures
        decode(data, pos) == Ok::<(Instruction<PickleValue>, int), Seq<char>>(
            (Instruction::Push(v), pos + written(v).len()),
        ),
{
    lemma_powers();
    let w = written(v);
    assert(w.len() > 0 ==> data[pos] == w[0]);
    match v {
        PickleValue::Int(i) => {
            if 0 <= i < 0x100 {
                law_digits_read_back(i as int, 1);
                lemma_split(data, pos, seq![0x4bu8], digits(i as int, 1));
                lemma_operand(data, pos + 1, digits(i as int, 1));
            } else if 0 <= i < 0x1_0000 {
                law_digits_read_back(i as int, 2);
                lemma_split(data, pos, seq![0x4du8], digits(i as int, 2));
                lemma_operand(data, pos + 1, digits(i as int, 2));
            } else if -0x8000_0000 <= i < 0x8000_0000 {
                let n = if i < 0 { i + 0x1_0000_0000 } else { i as int };
                lemma_wraps(i as int, if i < 0 { 1int } else { 0 }, 4);
                law_digits_read_back(n, 4);
                lemma_split(data, pos, seq![0x4au8], digits(i as int, 4));
                lemma_operand(data, pos + 1, digits(i as int, 4));
            } else {
                lemma_digits_len(i as int, 8);
                law_signed_digits_read_back(i as int, 8);
                lemma_split(data, pos, seq![0x8au8, 8u8], digits(i as int, 8));
                lemma_operand(data, pos + 2, digits(i as int, 8));
                assert(data[pos + 1] == seq![0x8au8, 8u8][1]);
                assert(data.subrange(pos + 1, pos + 2) =~= seq![8u8]);
                reveal_with_fuel(pickle::little_endian, 2);
            }
        },
        PickleValue::Float(bits) => {
            let d = digits(bits as int, 8);
            law_digits_read_back(bits as int, 8);
            lemma_split(data, pos, seq![0x47u8], d.reverse());
            lemma_operand(data, pos + 1, d.reverse());
            assert(d.reverse().reverse() =~= d);
        },
        PickleValue::Str(s) => {
            let e = utf8::encode_utf8(s);
            let d = digits(e.len() as int, 4);
            law_digits_read_back(e.len() as int, 4);
            lemma_split(data, pos, seq![0x58u8] + d, e);
            lemma_split(data, pos, seq![0x58u8], d);
            lemma_operand(data, pos + 1, d);
            lemma_operand(data, pos + 5, e);
            utf8::encode_utf8_valid_utf8(s);
            utf8::encode_utf8_decode_utf8(s);
        },
        _ => {},
    }
}

/// Whole multiples of a power of 256 do not change the digits below it.
proof fn lemma_wraps(n: int, m: int, k: nat)
    ensures
        digits(n + m * vstd::arithmetic::power::pow(256, k), k) == digits(n, k),
    decreases k,
{
    if k > 0 {
        let p = vstd::arithmetic::power::pow(256, (k - 1) as nat);
        reveal(vstd::arithmetic::power::pow);
        assert(vstd::arithmetic::power::pow(256, k) == 256 * p);
        let q = m * p;
        assert(m * (256 * p) == 256 * q) by (nonlinear_arith)
            requires
                q == m * p,
        ;
        assert((n + 256 * q) % 256 == n % 256);
        assert((n + 256 * q) / 256 == n / 256 + q);
        lemma_wraps(n / 256, m, (k - 1) as nat);
    }
}

proof fn lemma_list_closes(
    data: Seq<u8>,
    end: int,
    xs: Seq<PickleValue>,
    stack: Seq<PickleValue>,
    memo: Map<u32, PickleValue>,
)
    requires
        0 <= end < data.len(),
        data[end] == 0x65,
        forall|i: int| 0 <= i < xs.len() ==> !((#[trigger] xs[i]) is Mark),
    ensures
        outcome(
            data,
            end,
            stack.push(PickleValue::List(Seq::empty())).push(PickleValue::Mark) + xs,
            memo,
        ) == outcome(data, end + 1, stack.push(PickleValue::List(xs)), memo),
{
    reveal(outcome);
    let empty = PickleValue::List(Seq::empty());
    lemma_last_mark(stack.push(empty), xs);
    let full = stack.push(empty).push(PickleValue::Mark) + xs;
    assert(full.take(stack.len() + 1int) =~= stack.push(empty));
    assert(full.skip(stack.len() + 2int) =~= xs);
    assert(Seq::<PickleValue>::empty() + xs =~= xs);
    assert(stack.push(empty).drop_last() =~= stack);
    assert(decode(data, end) == Ok::<(Instruction<PickleValue>, int), Seq<char>>(
        (Instruction::Appends, end + 1),
    ));
    assert(pickle::applied(Instruction::Appends, full, memo) == Ok::<
        (Seq<PickleValue>, Map<u32, PickleValue>),
        Seq<char>,
    >((stack.push(PickleValue::List(xs)), memo)));
}

proof fn lemma_tuple_closes(
    data: Seq<u8>,
    end: int,
    xs: Seq<PickleValue>,
    stack: Seq<PickleValue>,
    memo: Map<u32, PickleValue>,
)
    requires
        0 <= end < data.len(),
        data[end] == 0x74,
        forall|i: int| 0 <= i < xs.len() ==> !((#[trigger] xs[i]) is Mark),
    ensures
        outcome(data, end, stack.push(PickleValue::Mark) + xs, memo) == outcome(
            data,
            end + 1,
            stack.push(PickleValue::Tuple(xs)),
            memo,
        ),
{
    reveal(outcome);
    lemma_last_mark(stack, xs);
    let full = stack.push(PickleValue::Mark) + xs;
    assert(full.take(stack.len() as int) =~= stack);
    assert(full.skip(stack.len() + 1int) =~= xs);
    assert(decode(data, end) == Ok::<(Instruction<PickleValue>, int), Seq<char>>(
        (Instruction::TupleFromMark, end + 1),
    ));
    assert(pickle::applied(Instruction::TupleFromMark, full, memo) == Ok::<
        (Seq<PickleValue>, Map<u32, PickleValue>),
        Seq<char>,
    >((stack.push(PickleValue::Tuple(xs)), memo)));
}

proof fn lemma_dict_closes(
    data: Seq<u8>,
    end: int,
    xs: Seq<(PickleValue, PickleValue)>,
    stack: Seq<PickleValue>,
    memo: Map<u32, PickleValue>,
)
    requires
        0 <= end < data.len(),
        data[end] == 0x75,
        forall|i: int| 0 <= i < xs.len() ==> writable((#[trigger] xs[i]).0) && writable(xs[i].1),
    ensures
        outcome(
            data,
            end,
            stack.push(PickleValue::Dict(Seq::empty())).push(PickleValue::Mark) + flattened(
                xs,
                xs.len(),
            ),
            memo,
        ) == outcome(data, end + 1, stack.push(PickleValue::Dict(xs)), memo),
{
    reveal(outcome);
    let empty = PickleValue::Dict(Seq::empty());
    let flat = flattened(xs, xs.len());
    lemma_flattened(xs, xs.len());
    lemma_last_mark(stack.push(empty), flat);
    let full = stack.push(empty).push(PickleValue::Mark) + flat;
    assert(full.take(stack.len() + 1int) =~= stack.push(empty));
    assert(full.skip(stack.len() + 2int) =~= flat);
    assert(pickle::paired(flat) =~= xs);
    assert(Seq::<(PickleValue, PickleValue)>::empty() + xs =~= xs);
    assert(stack.push(empty).drop_last() =~= stack);
    assert(decode(data, end) == Ok::<(Instruction<PickleValue>, int), Seq<char>>(
        (Instruction::SetItems, end + 1),
    ));
    assert(pickle::applied(Instruction::SetItems, full, memo) == Ok::<
        (Seq<PickleValue>, Map<u32, PickleValue>),
        Seq<char>,
    >((stack.push(PickleValue::Dict(xs)), memo)));
}

/// One byte that pushes a value.
proof fn lemma_opens(
    data: Seq<u8>,
    pos: int,
    stack: Seq<PickleValue>,
    memo: Map<u32, PickleValue>,
)
    requires
        0 <= pos < data.len(),
    ensures
        data[pos] == 0x28 ==> outcome(data, pos, stack, memo) == outcome(
            data,
            pos + 1,
            stack.push(PickleValue::Mark),
            memo,
        ),
        data[pos] == 0x5d ==> outcome(data, pos, stack, memo) == outcome(
            data,
            pos + 1,
            stack.push(PickleValue::List(Seq::empty())),
            memo,
        ),
        data[pos] == 0x7d ==> outcome(data, pos, stack, memo) == outcome(
            data,
            pos + 1,
            stack.push(PickleValue::Dict(Seq::empty())),
            memo,
        ),
{
    reveal(outcome);
}

proof fn lemma_reads(data: Seq<u8>, pos: int, v: PickleValue, stack: Seq<PickleValue>, memo: Map<u32, PickleValue>)
    requires
        writable(v),
        stand(data, pos, written(v)),
    ensures
        outcome(data, pos, stack, memo) == outcome(data, pos + written(v).len(), stack.push(v), memo),
    decreases v, 0nat,
{
    match v {
        PickleValue::List(xs) => {
            let head = seq![0x5du8, 0x28u8];
            let body = written_all(xs, xs.len());
            lemma_split(data, pos, head + body, seq![0x65u8]);
            lemma_split(data, pos, head, body);
            assert(data[pos + 0] == head[0] && data[pos + 1] == head[1]);
            let empty = PickleValue::List(Seq::empty());
            lemma_opens(data, pos, stack, memo);
            lemma_opens(data, pos + 1, stack.push(empty), memo);
            let under = stack.push(empty).push(PickleValue::Mark);
            lemma_reads_all(data, pos + 2, xs, xs.len(), under, memo);
            let end = pos + 2 + body.len();
            assert(data[end + 0] == seq![0x65u8][0]);
            assert(xs.take(xs.len() as int) =~= xs);
            lemma_no_marks(xs);
            lemma_list_closes(data, end, xs, stack, memo);
        },
        PickleValue::Tuple(xs) => {
            let head = seq![0x28u8];
            let body = written_all(xs, xs.len());
            lemma_split(data, pos, head + body, seq![0x74u8]);
            lemma_split(data, pos, head, body);
            assert(data[pos + 0] == head[0]);
            lemma_opens(data, pos, stack, memo);
            lemma_reads_all(data, pos + 1, xs, xs.len(), stack.push(PickleValue::Mark), memo);
            let end = pos + 1 + body.len();
            assert(data[end + 0] == seq![0x74u8][0]);
            assert(xs.take(xs.len() as int) =~= xs);
            lemma_no_marks(xs);
            lemma_tuple_closes(data, end, xs, stack, memo);
        },
        PickleValue::Dict(xs) => {
            let head = seq![0x7du8, 0x28u8];
            let body = written_pairs(xs, xs.len());
            lemma_split(data, pos, head + body, seq![0x75u8]);
            lemma_split(data, pos, head, body);
            assert(data[pos + 0] == head[0] && data[pos + 1] == head[1]);
            let empty = PickleValue::Dict(Seq::empty());
            lemma_opens(data, pos, stack, memo);
            lemma_opens(data, pos + 1, stack.push(empty), memo);
            let under = stack.push(empty).push(PickleValue::Mark);
            lemma_reads_pairs(data, pos + 2, xs, xs.len(), under, memo);
            let end = pos + 2 + body.len();
            assert(data[end + 0] == seq![0x75u8][0]);
            lemma_dict_closes(data, end, xs, stack, memo);
        },
        _ => {
            lemma_scalar(data, pos, v);
            lemma_one(data, pos, stack, memo, v, pos + written(v).len());
        },
    }
}

proof fn lemma_no_marks(xs: Seq<PickleValue>)
    requires
        forall|i: int| 0 <= i < xs.len() ==> writable(#[trigger] xs[i]),
    ensures
        forall|i: int| 0 <= i < xs.len() ==> !((#[trigger] xs[i]) is Mark),
{
    assert forall|i: int| 0 <= i < xs.len() implies !((#[trigger] xs[i]) is Mark) by {
        assert(writable(xs[i]));
    }
}

/// The keys and values of the first `n` pairs in a row.
spec fn flattened(xs: Seq<(PickleValue, PickleValue)>, n: nat) -> Seq<PickleValue>
    decreases n,
{
    if n == 0 {
        Seq::empty()
    } else {
        flattened(xs, (n - 1) as nat).push(xs[n - 1].0).push(xs[n - 1].1)
    }
}

proof fn lemma_flattened(xs: Seq<(PickleValue, PickleValue)>, n: nat)
    requires
        n <= xs.len(),
        forall|i: int| 0 <= i < xs.len() ==> writable((#[trigger] xs[i]).0) && writable(xs[i].1),
    ensures
        flattened(xs, n).len() == 2 * n,
        forall|i: int|
            0 <= i < n ==> flattened(xs, n)[2 * i] == (#[trigger] xs[i]).0 && flattened(xs, n)[2 * i
                + 1] == xs[i].1,
        forall|i: int| 0 <= i < 2 * n ==> !((#[trigger] flattened(xs, n)[i]) is Mark),
    decreases n,
{
    if n > 0 {
        lemma_flattened(xs, (n - 1) as nat);
        assert(writable(xs[n - 1].0) && writable(xs[n - 1].1));
    }
}

proof fn lemma_reads_all(
    data: Seq<u8>,
    pos: int,
    xs: Seq<PickleValue>,
    n: nat,
    stack: Seq<PickleValue>,
    memo: Map<u32, PickleValue>,
)
    requires
        n <= xs.len(),
        forall|i: int| 0 <= i < xs.len() ==> writable(#[trigger] xs[i]),
        stand(data, pos, written_all(xs, n)),
    ensures
        outcome(data, pos, stack, memo) == outcome(
            data,
            pos + written_all(xs, n).len(),
            stack + xs.take(n as int),
            memo,
        ),
    decreases xs, n,
{
    if n == 0 {
        assert(stack + xs.take(0) =~= stack);
    } else {
        let before = written_all(xs, (n - 1) as nat);
        lemma_split(data, pos, before, written(xs[n - 1]));
        lemma_reads_all(data, pos, xs, (n - 1) as nat, stack, memo);
        assert(writable(xs[n - 1]));
        lemma_reads(data, pos + before.len(), xs[n - 1], stack + xs.take(n - 1), memo);
        assert((stack + xs.take(n - 1)).push(xs[n - 1]) =~= stack + xs.take(n as int));
    }
}

proof fn lemma_reads_pairs(
    data: Seq<u8>,
    pos: int,
    xs: Seq<(PickleValue, PickleValue)>,
    n: nat,
    stack: Seq<PickleValue>,
    memo: Map<u32, PickleValue>,
)
    requires
        n <= xs.len(),
        forall|i: int| 0 <= i < xs.len() ==> writable((#[trigger] xs[i]).0) && writable(xs[i].1),
        stand(data, pos, written_pairs(xs, n)),
    ensures
        outcome(data, pos, stack, memo) == outcome(
            data,
            pos + written_pairs(xs, n).len(),
            stack + flattened(xs, n),
            memo,
        ),
    decreases xs, n,
{
    if n == 0 {
        assert(stack + flattened(xs, 0) =~= stack);
    } else {
        let (k, v) = xs[n - 1];
        let before = written_pairs(xs, (n - 1) as nat);
        assert(writable(xs[n - 1].0) && writable(xs[n - 1].1));
        lemma_split(data, pos, before + written(k), written(v));
        lemma_split(data, pos, before, written(k));
        lemma_reads_pairs(data, pos, xs, (n - 1) as nat, stack, memo);
        let flat = flattened(xs, (n - 1) as nat);
        lemma_reads(data, pos + before.len(), k, stack + flat, memo);
        let middle = pos + before.len() + written(k).len();
        lemma_reads(data, middle, v, (stack + flat).push(k), memo);
        assert((stack + flat).push(k).push(v) =~= stack + flattened(xs, n));
    }
}

/// What is written reads back: the pickle of a value, whatever stands behind its stop, loads as that value.
pub proof fn law_written_values_read_back(v: PickleValue, more: Seq<u8>)
    requires
        writable(v),
    ensures
        loaded((written(v) + seq![0x2eu8]) + more) == Ok::<PickleValue, Seq<char>>(v),
{
    reveal(outcome);
    let w = written(v);
    let data = (w + seq![0x2eu8]) + more;
    assert(stand(data, 0, w));
    lemma_reads(data, 0, v, Seq::empty(), Map::empty());
    assert(data[w.len() as int] == 0x2e);
    assert(Seq::<PickleValue>::empty().push(v).last() == v);
}

/// An integer of one byte or two is not negative, and one of four has a sign: each stands for the number
/// whose bytes it has.
pub proof fn law_integers_by_their_bytes(a: u8, b: u8, c: u8, d: u8)
    ensures
        loaded(seq![0x4bu8, a, 0x2eu8]) == Ok::<PickleValue, Seq<char>>(PickleValue::Int(a as i64)),
        loaded(seq![0x4du8, a, b, 0x2eu8]) == Ok::<PickleValue, Seq<char>>(
            PickleValue::Int((a + 256 * b) as i64),
        ),
        loaded(seq![0x4au8, a, b, c, d, 0x2eu8]) == Ok::<PickleValue, Seq<char>>(
            PickleValue::Int(
                (a + 256 * b + 65536 * c + 16777216 * d - if d >= 128 { 0x1_0000_0000int } else { 0 }) as i64,
            ),
        ),
{
    reveal_with_fuel(pickle::little_endian, 5);
    reveal_with_fuel(run, 3);
    let one = seq![0x4bu8, a, 0x2eu8];
    assert(one.subrange(1, 2) =~= seq![a]);
    assert(decode(one, 0)->Ok_0.0 == Instruction::Push(PickleValue::Int(a as i64)));
    let two = seq![0x4du8, a, b, 0x2eu8];
    assert(two.subrange(1, 3) =~= seq![a, b]);
    assert(seq![a, b].skip(1) =~= seq![b]);
    assert(pickle::little_endian(seq![a, b]) == a + 256 * b);
    let four = seq![0x4au8, a, b, c, d, 0x2eu8];
    assert(four.subrange(1, 5) =~= seq![a, b, c, d]);
    assert(seq![a, b, c, d].skip(1) =~= seq![b, c, d]);
    assert(seq![b, c, d].skip(1) =~= seq![c, d]);
    assert(seq![c, d].skip(1) =~= seq![d]);
    assert(pickle::little_endian(seq![a, b, c, d]) == a + 256 * b + 65536 * c + 16777216 * d);
}

/// Frames and the version of the protocol say nothing: the bytes that they take are passed over.
pub proof fn law_frames_are_passed_over(data: Seq<u8>, pos: int, stack: Seq<PickleValue>, memo: Map<u32, PickleValue>)
    requires
        0 <= pos,
    ensures
        pos + 2 <= data.len() && data[pos] == 0x80 ==> run(data, pos, stack, memo) == run(
            data,
            pos + 2,
            stack,
            memo,
        ),
        pos + 9 <= data.len() && data[pos] == 0x95 ==> run(data, pos, stack, memo) == run(
            data,
            pos + 9,
            stack,
            memo,
        ),
{
}

/// What was noted comes back: a value that is noted under a number stays where it is, and recalling that
/// number later pushes it again.
pub proof fn law_noted_values_come_back(
    data: Seq<u8>,
    pos: int,
    stack: Seq<PickleValue>,
    v: PickleValue,
    memo: Map<u32, PickleValue>,
    k: u32,
)
    requires
        0 <= pos,
    ensures
        pos + 2 <= data.len() && data[pos] == 0x71 && data[pos + 1] == k ==> run(
            data,
            pos,
            stack.push(v),
            memo,
        ) == run(data, pos + 2, stack.push(v), memo.insert(k, v)),
        pos + 5 <= data.len() && data[pos] == 0x72 && data.subrange(pos + 1, pos + 5) == digits(
            k as int,
            4,
        ) ==> run(data, pos, stack.push(v), memo) == run(
            data,
            pos + 5,
            stack.push(v),
            memo.insert(k, v),
        ),
        pos + 1 <= data.len() && data[pos] == 0x94 && memo.dom().len() == k ==> run(
            data,
            pos,
            stack.push(v),
            memo,
        ) == run(data, pos + 1, stack.push(v), memo.insert(k, v)),
        pos + 2 <= data.len() && data[pos] == 0x68 && data[pos + 1] == k && memo.dom().contains(k)
            && memo[k] == v ==> run(data, pos, stack, memo) == run(
            data,
            pos + 2,
            stack.push(v),
            memo,
        ),
        pos + 5 <= data.len() && data[pos] == 0x6a && data.subrange(pos + 1, pos + 5) == digits(
            k as int,
            4,
        ) && memo.dom().contains(k) && memo[k] == v ==> run(data, pos, stack, memo) == run(
            data,
            pos + 5,
            stack.push(v),
            memo,
        ),
        pos + 2 <= data.len() && data[pos] == 0x68 && data[pos + 1] == k && !memo.dom().contains(k)
            ==> run(data, pos, stack, memo) is Err,
{
    lemma_powers();
    law_digits_read_back(k as int, 4);
    reveal_with_fuel(pickle::little_endian, 2);
    if pos + 2 <= data.len() {
        assert(data.subrange(pos + 1, pos + 2) =~= seq![data[pos + 1]]);
        assert(pickle::little_endian(seq![data[pos + 1]]) == data[pos + 1]);
    }
    assert(stack.push(v).last() == v);
}

/// Texts stand behind their length, in one byte, four or eight; the contents of bytes are passed over.
pub proof fn law_texts_stand_behind_their_length(
    data: Seq<u8>,
    pos: int,
    s: Seq<char>,
    stack: Seq<PickleValue>,
    memo: Map<u32, PickleValue>,
)
    requires
        0 <= pos,
    ensures
        ({
            let e = utf8::encode_utf8(s);
            let n = e.len() as int;
            let text = PickleValue::Str(s);
            &&& n < 0x100 && pos + 2 + n <= data.len() && data[pos] == 0x8c && data[pos + 1] == n
                && data.subrange(pos + 2, pos + 2 + n) == e ==> run(data, pos, stack, memo) == run(
                data,
                pos + 2 + n,
                stack.push(text),
                memo,
            )
            &&& n < 0x1_0000_0000 && pos + 5 + n <= data.len() && data[pos] == 0x58 && data.subrange(
                pos + 1,
                pos + 5,
            ) == digits(n, 4) && data.subrange(pos + 5, pos + 5 + n) == e ==> run(
                data,
                pos,
                stack,
                memo,
            ) == run(data, pos + 5 + n, stack.push(text), memo)
            &&& n < 0x1_0000_0000_0000_0000 && pos + 9 + n <= data.len() && data[pos] == 0x8d
                && data.subrange(pos + 1, pos + 9) == digits(n, 8) && data.subrange(
                pos + 9,
                pos + 9 + n,
            ) == e ==> run(data, pos, stack, memo) == run(data, pos + 9 + n, stack.push(text), memo)
            &&& n < 0x100 && pos + 2 + n <= data.len() && data[pos] == 0x43 && data[pos + 1] == n
                ==> run(data, pos, stack, memo) == run(
                data,
                pos + 2 + n,
                stack.push(PickleValue::Bytes),
                memo,
            )
            &&& n < 0x1_0000_0000 && pos + 5 + n <= data.len() && data[pos] == 0x42 && data.subrange(
                pos + 1,
                pos + 5,
            ) == digits(n, 4) ==> run(data, pos, stack, memo) == run(
                data,
                pos + 5 + n,
                stack.push(PickleValue::Bytes),
                memo,
            )
        }),
{
    let e = utf8::encode_utf8(s);
    let n = e.len() as int;
    lemma_powers();
    utf8::encode_utf8_valid_utf8(s);
    utf8::encode_utf8_decode_utf8(s);
    if n < 0x1_0000_0000 {
        law_digits_read_back(n, 4);
    }
    if n < 0x1_0000_0000_0000_0000 {
        law_digits_read_back(n, 8);
    }
    reveal_with_fuel(pickle::little_endian, 2);
    if pos + 2 <= data.len() {
        assert(data.subrange(pos + 1, pos + 2) =~= seq![data[pos + 1]]);
        assert(pickle::little_endian(seq![data[pos + 1]]) == data[pos + 1]);
    }
}

/// The values on top of the stack are taken in the order in which they were pushed: into a tuple of one, two
/// or three, as a key and a value into the dict below them, or into the list below.
pub proof fn law_values_are_taken_in_order(
    data: Seq<u8>,
    pos: int,
    below: Seq<PickleValue>,
    a: PickleValue,
    b: PickleValue,
    c: PickleValue,
    pairs: Seq<(PickleValue, PickleValue)>,
    items: Seq<PickleValue>,
    memo: Map<u32, PickleValue>,
)
    requires
        0 <= pos < data.len(),
    ensures
        data[pos] == 0x29 ==> run(data, pos, below, memo) == run(
            data,
            pos + 1,
            below.push(PickleValue::Tuple(Seq::empty())),
            memo,
        ),
        data[pos] == 0x85 ==> run(data, pos, below.push(a), memo) == run(
            data,
            pos + 1,
            below.push(PickleValue::Tuple(seq![a])),
            memo,
        ),
        data[pos] == 0x86 ==> run(data, pos, below.push(a).push(b), memo) == run(
            data,
            pos + 1,
            below.push(PickleValue::Tuple(seq![a, b])),
            memo,
        ),
        data[pos] == 0x87 ==> run(data, pos, below.push(a).push(b).push(c), memo) == run(
            data,
            pos + 1,
            below.push(PickleValue::Tuple(seq![a, b, c])),
            memo,
        ),
        data[pos] == 0x73 ==> run(
            data,
            pos,
            below.push(PickleValue::Dict(pairs)).push(a).push(b),
            memo,
        ) == run(data, pos + 1, below.push(PickleValue::Dict(pairs.push((a, b)))), memo),
        data[pos] == 0x61 ==> run(
            data,
            pos,
            below.push(PickleValue::List(items)).push(a),
            memo,
        ) == run(data, pos + 1, below.push(PickleValue::List(items.push(a))), memo),
        data[pos] == 0x62 ==> run(data, pos, below.push(a), memo) == run(data, pos + 1, below, memo),
        data[pos] == 0x2e ==> run(data, pos, below.push(a), memo) == Ok::<PickleValue, Seq<char>>(a),
{
    assert(below.push(a).last() == a);
    assert(below.push(a).drop_last() =~= below);
    assert(below.push(a).take(below.len() as int) =~= below);
    assert(below.push(a).skip(below.len() as int) =~= seq![a]);
    assert(below.push(a).push(b).take(below.len() as int) =~= below);
    assert(below.push(a).push(b).skip(below.len() as int) =~= seq![a, b]);
    assert(below.push(a).push(b).push(c).take(below.len() as int) =~= below);
    assert(below.push(a).push(b).push(c).skip(below.len() as int) =~= seq![a, b, c]);
    let dict = below.push(PickleValue::Dict(pairs));
    assert(dict.push(a).push(b).take(dict.len() as int) =~= dict);
    assert(dict.drop_last() =~= below);
    assert(pairs + seq![(a, b)] =~= pairs.push((a, b)));
    let list = below.push(PickleValue::List(items));
    assert(list.push(a).drop_last() =~= list);
    assert(list.drop_last() =~= below);
    assert(items + seq![a] =~= items.push(a));
}

proof fn lemma_global_decodes(data: Seq<u8>, pos: int, module: Seq<char>, name: Seq<char>)
    requires
        0 <= pos < data.len(),
        data[pos] == 0x63,
    ensures
        ({
            let m = utf8::encode_utf8(module);
            let n = utf8::encode_utf8(name);
            let at = pos + 1;
            let middle = at + m.len() + 1;
            let end = middle + n.len();
            &&& end < data.len()
            &&& data.subrange(at, at + m.len()) == m
            &&& data[middle - 1] == 10
            &&& data.subrange(middle, end) == n
            &&& data[end] == 10
            &&& forall|i: int| 0 <= i < m.len() ==> #[trigger] m[i] != 10
            &&& forall|i: int| 0 <= i < n.len() ==> #[trigger] n[i] != 10
        } ==> decode(data, pos) == Ok::<(Instruction<PickleValue>, int), Seq<char>>(
            (
                Instruction::Push(PickleValue::Global(module, name)),
                pos + 3 + utf8::encode_utf8(module).len() + utf8::encode_utf8(name).len(),
            ),
        )),
{
    let m = utf8::encode_utf8(module);
    let n = utf8::encode_utf8(name);
    let at = pos + 1;
    let middle = at + m.len() + 1;
    let end = middle + n.len();
    if end < data.len() && data.subrange(at, at + m.len()) == m && data[middle - 1] == 10 && data.subrange(
        middle,
        end,
    ) == n && data[end] == 10 && (forall|i: int| 0 <= i < m.len() ==> #[trigger] m[i] != 10) && (forall|
        i: int,
    |
        0 <= i < n.len() ==> #[trigger] n[i] != 10) {
        utf8::encode_utf8_valid_utf8(module);
        utf8::encode_utf8_decode_utf8(module);
        utf8::encode_utf8_valid_utf8(name);
        utf8::encode_utf8_decode_utf8(name);
        assert forall|i: int| at <= i < middle - 1 implies #[trigger] data[i] != 10 by {
            assert(data.subrange(at, at + m.len())[i - at] == data[i]);
        }
        assert forall|i: int| middle <= i < end implies #[trigger] data[i] != 10 by {
            assert(data.subrange(middle, end)[i - middle] == data[i]);
        }
        lemma_line_ends(data, at, middle - 1);
        lemma_line_ends(data, middle, end);
    }
}

/// A global is named by its module and its name, in this order, whether they are pushed as texts or written
/// in lines.
pub proof fn law_globals_are_named(
    data: Seq<u8>,
    pos: int,
    below: Seq<PickleValue>,
    module: Seq<char>,
    name: Seq<char>,
    memo: Map<u32, PickleValue>,
)
    requires
        0 <= pos < data.len(),
    ensures
        data[pos] == 0x93 ==> run(
            data,
            pos,
            below.push(PickleValue::Str(module)).push(PickleValue::Str(name)),
            memo,
        ) == run(data, pos + 1, below.push(PickleValue::Global(module, name)), memo),
        ({
            let m = utf8::encode_utf8(module);
            let n = utf8::encode_utf8(name);
            let at = pos + 1;
            let middle = at + m.len() + 1;
            let end = middle + n.len();
            &&& data[pos] == 0x63
            &&& end < data.len()
            &&& data.subrange(at, at + m.len()) == m
            &&& data[middle - 1] == 10
            &&& data.subrange(middle, end) == n
            &&& data[end] == 10
            &&& forall|i: int| 0 <= i < m.len() ==> #[trigger] m[i] != 10
            &&& forall|i: int| 0 <= i < n.len() ==> #[trigger] n[i] != 10
        } ==> run(data, pos, below, memo) == run(
            data,
            pos + 3 + utf8::encode_utf8(module).len() + utf8::encode_utf8(name).len(),
            below.push(PickleValue::Global(module, name)),
            memo,
        )),
{
    let both = below.push(PickleValue::Str(module)).push(PickleValue::Str(name));
    assert(both.take(below.len() as int) =~= below);
    if data[pos] == 0x63 {
        lemma_global_decodes(data, pos, module, name);
    }
}

proof fn lemma_line_ends(data: Seq<u8>, at: int, end: int)
    requires
        0 <= at <= end < data.len(),
        data[end] == 10,
        forall|i: int| at <= i < end ==> #[trigger] data[i] != 10,
    ensures
        pickle::line_end(data, at) == Some(end),
    decreases end - at,
{
    if at < end {
        lemma_line_ends(data, at + 1, end);
    }
}

/// A tensor is what torch's call names: the storage by its type and its key, the offset, the shape and the
/// stride, in this order. An ordered dict starts empty, and any other call is of no account.
pub proof fn law_tensors_are_what_calls_name(
    data: Seq<u8>,
    pos: int,
    below: Seq<PickleValue>,
    memo: Map<u32, PickleValue>,
    kind: PickleValue,
    module: Seq<char>,
    dtype: Seq<char>,
    key: Seq<char>,
    offset: usize,
    shape: Seq<usize>,
    stride: Seq<usize>,
    rest: Seq<PickleValue>,
)
    requires
        0 <= pos < data.len(),
        offset <= i64::MAX,
        forall|i: int| 0 <= i < shape.len() ==> #[trigger] shape[i] <= i64::MAX,
        forall|i: int| 0 <= i < stride.len() ==> #[trigger] stride[i] <= i64::MAX,
    ensures
        data[pos] == 0x51 ==> run(
            data,
            pos,
            below.push(
                PickleValue::Tuple(
                    seq![kind, PickleValue::Global(module, dtype), PickleValue::Str(key)] + rest,
                ),
            ),
            memo,
        ) == run(data, pos + 1, below.push(PickleValue::Storage { dtype, key }), memo),
        data[pos] == 0x52 || data[pos] == 0x81 ==> {
            &&& run(
                data,
                pos,
                below.push(PickleValue::Global("torch._utils"@, "_rebuild_tensor_v2"@)).push(
                    PickleValue::Tuple(
                        seq![
                            PickleValue::Storage { dtype, key },
                            PickleValue::Int(offset as i64),
                            PickleValue::Tuple(whole(shape)),
                            PickleValue::Tuple(whole(stride)),
                        ] + rest,
                    ),
                ),
                memo,
            ) == run(
                data,
                pos + 1,
                below.push(PickleValue::Tensor { dtype, key, offset, shape, stride }),
                memo,
            )
            &&& run(
                data,
                pos,
                below.push(PickleValue::Global("collections"@, "OrderedDict"@)).push(
                    PickleValue::Tuple(rest),
                ),
                memo,
            ) == run(data, pos + 1, below.push(PickleValue::Dict(Seq::empty())), memo)
            &&& module != "torch._utils"@ && module != "collections"@ ==> run(
                data,
                pos,
                below.push(PickleValue::Global(module, dtype)).push(PickleValue::Tuple(rest)),
                memo,
            ) == run(data, pos + 1, below.push(PickleValue::Other), memo)
        },
{
    let pid = seq![kind, PickleValue::Global(module, dtype), PickleValue::Str(key)] + rest;
    let args = seq![
        PickleValue::Storage { dtype, key },
        PickleValue::Int(offset as i64),
        PickleValue::Tuple(whole(shape)),
        PickleValue::Tuple(whole(stride)),
    ] + rest;
    assert(pid[1] == PickleValue::Global(module, dtype) && pid[2] == PickleValue::Str(key));
    assert(below.push(PickleValue::Tuple(pid)).drop_last() =~= below);
    lemma_whole(shape);
    lemma_whole(stride);
    let rebuild = PickleValue::Global("torch._utils"@, "_rebuild_tensor_v2"@);
    let dict = PickleValue::Global("collections"@, "OrderedDict"@);
    let other = PickleValue::Global(module, dtype);
    assert(below.push(rebuild).push(PickleValue::Tuple(args)).take(below.len() as int) =~= below);
    assert(below.push(dict).push(PickleValue::Tuple(rest)).take(below.len() as int) =~= below);
    assert(below.push(other).push(PickleValue::Tuple(rest)).take(below.len() as int) =~= below);
    reveal_strlit("torch._utils");
    reveal_strlit("collections");
    assert("torch._utils"@.len() != "collections"@.len());
    assert(pickle::call_of(rebuild, PickleValue::Tuple(args)) == PickleValue::Tensor {
        dtype,
        key,
        offset,
        shape,
        stride,
    });
    assert(pickle::call_of(dict, PickleValue::Tuple(rest)) == PickleValue::Dict(Seq::empty()));
}

/// Sizes as integers.
pub open spec fn whole(xs: Seq<usize>) -> Seq<PickleValue> {
    Seq::new(xs.len(), |i: int| PickleValue::Int(xs[i] as i64))
}

proof fn lemma_whole(xs: Seq<usize>)
    requires
        forall|i: int| 0 <= i < xs.len() ==> #[trigger] xs[i] <= i64::MAX,
    ensures
        pickle::sizes_of(PickleValue::Tuple(whole(xs))) == Some(xs),
{
    let w = whole(xs);
    assert forall|i: int| 0 <= i < w.len() implies pickle::is_size(#[trigger] w[i]) by {
        assert(xs[i] <= i64::MAX);
    }
    assert forall|i: int| 0 <= i < xs.len() implies (w[i]->Int_0 as usize) == #[trigger] xs[i] by {
        assert(w[i] == PickleValue::Int(xs[i] as i64));
    }
    assert(pickle::sizes_in(w)->Some_0 =~= xs);
}

proof fn lemma_no_mark(stack: Seq<PickleValue>)
    requires
        forall|i: int| 0 <= i < stack.len() ==> !(#[trigger] stack[i] is Mark),
    ensures
        last_mark(stack) is None,
    decreases stack.len(),
{
    if stack.len() > 0 {
        let rest = stack.drop_last();
        assert forall|i: int| 0 <= i < rest.len() implies !(#[trigger] rest[i] is Mark) by {
            assert(rest[i] == stack[i]);
        }
        lemma_no_mark(rest);
    }
}

/// What is no pickle is refused: one that ends before its stop, or within what an instruction takes along.
pub proof fn law_truncated_pickles_are_refused(
    data: Seq<u8>,
    pos: int,
    stack: Seq<PickleValue>,
    memo: Map<u32, PickleValue>,
)
    requires
        0 <= pos,
    ensures
        pos >= data.len() ==> run(data, pos, stack, memo) is Err,
        pos < data.len() && pos + 2 > data.len() && (data[pos] == 0x80 || data[pos] == 0x4b || data[pos]
            == 0x8a || data[pos] == 0x8c || data[pos] == 0x43 || data[pos] == 0x71 || data[pos] == 0x68)
            ==> run(data, pos, stack, memo) is Err,
        pos < data.len() && pos + 3 > data.len() && data[pos] == 0x4d ==> run(data, pos, stack, memo) is Err,
        pos < data.len() && pos + 5 > data.len() && (data[pos] == 0x4a || data[pos] == 0x58 || data[pos]
            == 0x42 || data[pos] == 0x72 || data[pos] == 0x6a) ==> run(data, pos, stack, memo) is Err,
        pos < data.len() && pos + 9 > data.len() && (data[pos] == 0x95 || data[pos] == 0x47 || data[pos]
            == 0x8d) ==> run(data, pos, stack, memo) is Err,
{
}

/// What is no instruction is refused, and so is one that needs more values than there are or a mark where there is
/// none.
pub proof fn law_unknown_instructions_are_refused(
    data: Seq<u8>,
    pos: int,
    stack: Seq<PickleValue>,
    memo: Map<u32, PickleValue>,
)
    requires
        0 <= pos < data.len(),
    ensures
        data[pos] <= 0x27 || 0x2a <= data[pos] <= 0x2d || 0x2f <= data[pos] <= 0x41 || 0x44 <= data[pos] <= 0x46
            || data[pos] == 0x48 || data[pos] == 0x49 || data[pos] == 0x4c || data[pos] == 0x4f || data[pos]
            == 0x50 || 0x53 <= data[pos] <= 0x57 || 0x59 <= data[pos] <= 0x5c || 0x5e <= data[pos] <= 0x60
            || data[pos] == 0x64 || data[pos] == 0x66 || data[pos] == 0x67 || data[pos] == 0x69 || 0x6b
            <= data[pos] <= 0x70 || 0x76 <= data[pos] <= 0x7c || data[pos] == 0x7e || data[pos] == 0x7f || 0x82
            <= data[pos] <= 0x84 || data[pos] == 0x8b || 0x8e <= data[pos] <= 0x92 || data[pos] >= 0x96
            ==> run(data, pos, stack, memo) is Err,
        stack.len() == 0 && (data[pos] == 0x2e || data[pos] == 0x94 || data[pos] == 0x85 || data[pos] == 0x51
            || data[pos] == 0x62 || data[pos] == 0x61) ==> run(data, pos, stack, memo) is Err,
        stack.len() < 2 && (data[pos] == 0x86 || data[pos] == 0x93 || data[pos] == 0x52 || data[pos] == 0x81
            || data[pos] == 0x73) ==> run(data, pos, stack, memo) is Err,
        stack.len() < 3 && data[pos] == 0x87 ==> run(data, pos, stack, memo) is Err,
        (forall|i: int| 0 <= i < stack.len() ==> !(#[trigger] stack[i] is Mark)) && (data[pos] == 0x74
            || data[pos] == 0x75 || data[pos] == 0x65) ==> run(data, pos, stack, memo) is Err,
        stack.len() >= 2 && data[pos] == 0x93 && !(stack[stack.len() - 2] is Str && stack[stack.len() - 1]
            is Str) ==> run(data, pos, stack, memo) is Err,
{
    if forall|i: int| 0 <= i < stack.len() ==> !(#[trigger] stack[i] is Mark) {
        lemma_no_mark(stack);
    }
}

} // verus!
