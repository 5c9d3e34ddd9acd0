//! Strings: comparison, joining and the number formats of the messages.
use vstd::prelude::*;
use vstd::string::*;
use vstd::utf8;

verus! {

broadcast use vstd::string::group_string_axioms;

/// What `String::from_utf8` says of bytes that are not UTF-8.
pub uninterp spec fn utf8_failure(bytes: Seq<u8>) -> Seq<char>;

/// `String::from_utf8`: the characters of valid UTF-8, and on any other bytes a message which
/// depends on the bytes alone.
#[verifier::external_body]
fn from_utf8(bytes: Vec<u8>) -> (r: Result<String, String>)
    ensures
        match r {
            Ok(s) => utf8::valid_utf8(bytes@) && s@ == utf8::decode_utf8(bytes@),
            Err(m) => !utf8::valid_utf8(bytes@) && m@ == utf8_failure(bytes@),
        },
{
    String::from_utf8(bytes).map_err(|e| e.to_string())
}

/// The text of `bytes`, or why there is none.
pub open spec fn text_of(bytes: Seq<u8>) -> Result<Seq<char>, Seq<char>> {
    if utf8::valid_utf8(bytes) {
        Ok(utf8::decode_utf8(bytes))
    } else {
        Err(utf8_failure(bytes))
    }
}

/// The text that the bytes `from..to` hold.
pub fn text_between(bytes: &[u8], from: usize, to: usize) -> (r: Result<String, String>)
    requires
        from <= to <= bytes@.len(),
    ensures
        match r {
            Ok(s) => text_of(bytes@.subrange(from as int, to as int)) == Ok::<Seq<char>, Seq<char>>(s@),
            Err(m) => text_of(bytes@.subrange(from as int, to as int)) == Err::<Seq<char>, Seq<char>>(m@),
        },
{
    from_utf8(bytes_between(bytes, from, to))
}

/// A copy of the bytes `from..to`.
pub fn bytes_between(bytes: &[u8], from: usize, to: usize) -> (r: Vec<u8>)
    requires
        from <= to <= bytes@.len(),
    ensures
        r@ == bytes@.subrange(from as int, to as int),
{
    let mut out: Vec<u8> = Vec::new();
    let mut i: usize = from;
    while i < to
        invariant
            from <= i <= to <= bytes@.len(),
            out@ == bytes@.subrange(from as int, i as int),
        decreases to - i,
    {
        out.push(bytes[i]);
        i += 1;
    }
    out
}

/// Whether the two strings hold the same characters.
pub fn same(a: &str, b: &str) -> (r: bool)
    ensures
        r == (a@ == b@),
{
    a.to_owned() == b.to_owned()
}

/// `a` followed by `b`.
pub fn join(a: &str, b: &str) -> (r: String)
    ensures
        r@ == a@ + b@,
{
    let mut out: String = a.to_owned();
    out.append(b);
    out
}

/// `a`, `b` and `c` in a row.
pub fn join3(a: &str, b: &str, c: &str) -> (r: String)
    ensures
        r@ == a@ + b@ + c@,
{
    let mut out: String = join(a, b);
    out.append(c);
    out
}

/// The lower-case hexadecimal digit of `n`.
pub open spec fn hex_digit_of(n: int) -> char {
    if n < 10 {
        (48 + n) as char
    } else {
        (87 + n) as char
    }
}

/// Two hexadecimal digits.
pub open spec fn hex_of_byte(b: u8) -> Seq<char> {
    seq![hex_digit_of(b as int / 16), hex_digit_of(b as int % 16)]
}

/// `String::push` puts one character behind the others.
pub assume_specification[ String::push ](s: &mut String, c: char)
    ensures
        final(s)@ == old(s)@.push(c),
;

/// `b` in hexadecimal.
pub fn hex_byte(b: u8) -> (r: String)
    ensures
        r@ == hex_of_byte(b),
{
    let mut out: String = String::new();
    let high: u8 = b / 16;
    let low: u8 = b % 16;
    out.push(if high < 10 { (48 + high) as char } else { (87 + high) as char });
    out.push(if low < 10 { (48 + low) as char } else { (87 + low) as char });
    out
}

/// The decimal digits of `n`.
pub open spec fn decimal_of(n: nat) -> Seq<char>
    decreases n,
{
    if n < 10 {
        seq![(48 + n) as char]
    } else {
        decimal_of(n / 10).push((48 + n % 10) as char)
    }
}

/// `n` in decimal.
pub fn decimal(n: usize) -> (r: String)
    ensures
        r@ == decimal_of(n as nat),
    decreases n,
{
    let digit: char = (48 + (n % 10) as u8) as char;
    let mut out: String = if n < 10 {
        String::new()
    } else {
        decimal(n / 10)
    };
    out.push(digit);
    assert(n < 10 ==> out@ =~= decimal_of(n as nat));
    out
}

/// The decimal digits of `n`, behind a minus sign where it is negative.
pub open spec fn signed_decimal_of(n: int) -> Seq<char> {
    if n < 0 {
        "-"@ + decimal_of((-n) as nat)
    } else {
        decimal_of(n as nat)
    }
}

/// `n` in decimal, behind a minus sign where it is negative.
pub fn signed_decimal(n: i32) -> (r: String)
    ensures
        r@ == signed_decimal_of(n as int),
{
    if n < 0 {
        join("-", decimal((-(n as i64)) as usize).as_str())
    } else {
        decimal(n as usize)
    }
}

/// The hexadecimal digits of bytes, two for each.
pub open spec fn hex_of(bytes: Seq<u8>) -> Seq<char>
    decreases bytes.len(),
{
    if bytes.len() == 0 {
        Seq::empty()
    } else {
        hex_of(bytes.drop_last()) + hex_of_byte(bytes.last())
    }
}

/// `bytes` in hexadecimal.
pub fn hex(bytes: &Vec<u8>) -> (r: String)
    ensures
        r@ == hex_of(bytes@),
{
    let mut out: String = String::new();
    let mut i: usize = 0;
    while i < bytes.len()
        invariant
            i <= bytes@.len(),
            out@ == hex_of(bytes@.take(i as int)),
        decreases bytes@.len() - i,
    {
        out.append(hex_byte(bytes[i]).as_str());
        i += 1;
        assert(bytes@.take(i as int).drop_last() =~= bytes@.take(i - 1));
    }
    assert(bytes@.take(bytes@.len() as int) =~= bytes@);
    out
}

pub proof fn lemma_hex_len(bytes: Seq<u8>)
    ensures
        hex_of(bytes).len() == 2 * bytes.len(),
    decreases bytes.len(),
{
    if bytes.len() > 0 {
        lemma_hex_len(bytes.drop_last());
    }
}

/// Different bytes are written differently in hexadecimal.
pub proof fn law_hex_is_injective(a: Seq<u8>, b: Seq<u8>)
    requires
        hex_of(a) == hex_of(b),
    ensures
        a == b,
    decreases a.len(),
{
    lemma_hex_len(a);
    lemma_hex_len(b);
    if a.len() > 0 {
        let n = a.len() - 1;
        lemma_hex_len(a.drop_last());
        lemma_hex_len(b.drop_last());
        assert(hex_of(a.drop_last()) =~= hex_of(a).take(2 * n));
        assert(hex_of(b.drop_last()) =~= hex_of(b).take(2 * n));
        law_hex_is_injective(a.drop_last(), b.drop_last());
        assert(hex_of(a)[2 * n] == hex_digit_of(a.last() as int / 16));
        assert(hex_of(b)[2 * n] == hex_digit_of(b.last() as int / 16));
        assert(hex_of(a)[2 * n + 1] == hex_digit_of(a.last() as int % 16));
        assert(hex_of(b)[2 * n + 1] == hex_digit_of(b.last() as int % 16));
        assert(a.last() == b.last());
        assert(a =~= a.drop_last().push(a.last()));
        assert(b =~= b.drop_last().push(b.last()));
    } else {
        assert(a =~= b);
    }
}

/// Whether `a` stands before `b` in the order of their characters, or is the same.
pub open spec fn in_order(a: Seq<char>, b: Seq<char>) -> bool
    decreases a.len(),
{
    if a.len() == 0 {
        true
    } else if b.len() == 0 {
        false
    } else if a[0] == b[0] {
        in_order(a.skip(1), b.skip(1))
    } else {
        (a[0] as int) < b[0] as int
    }
}

/// Whether every name stands in order with those behind it.
pub open spec fn sorted(names: Seq<Seq<char>>) -> bool {
    forall|i: int, j: int| 0 <= i <= j < names.len() ==> in_order(#[trigger] names[i], #[trigger] names[j])
}

/// The characters of names, one for one.
pub open spec fn texts(names: Seq<String>) -> Seq<Seq<char>> {
    Seq::new(names.len(), |i: int| names[i]@)
}

proof fn lemma_order_total(a: Seq<char>, b: Seq<char>)
    ensures
        in_order(a, b) || in_order(b, a),
    decreases a.len(),
{
    if a.len() > 0 && b.len() > 0 && a[0] == b[0] {
        lemma_order_total(a.skip(1), b.skip(1));
    }
}

proof fn lemma_order_transitive(a: Seq<char>, b: Seq<char>, c: Seq<char>)
    requires
        in_order(a, b),
        in_order(b, c),
    ensures
        in_order(a, c),
    decreases a.len(),
{
    if a.len() > 0 && a[0] == b[0] && b[0] == c[0] {
        lemma_order_transitive(a.skip(1), b.skip(1), c.skip(1));
    }
}

/// Whether `a` stands before `b`, or is the same.
pub fn is_in_order(a: &str, b: &str) -> (r: bool)
    ensures
        r == in_order(a@, b@),
{
    let n: usize = a.unicode_len();
    let m: usize = b.unicode_len();
    let mut i: usize = 0;
    assert(a@.skip(0) =~= a@);
    assert(b@.skip(0) =~= b@);
    while i < n
        invariant
            i <= n == a@.len(),
            i <= m == b@.len(),
            in_order(a@, b@) == in_order(a@.skip(i as int), b@.skip(i as int)),
        decreases n - i,
    {
        if i >= m {
            return false;
        }
        let x: char = a.get_char(i);
        let y: char = b.get_char(i);
        proof {
            assert(a@.skip(i as int).skip(1) =~= a@.skip(i + 1));
            assert(b@.skip(i as int).skip(1) =~= b@.skip(i + 1));
        }
        if x != y {
            return (x as u32) < (y as u32);
        }
        i += 1;
    }
    true
}

/// Puts names in order.
pub fn sort_names(names: Vec<String>) -> (r: Vec<String>)
    ensures
        sorted(texts(r@)),
        r@.to_multiset() == names@.to_multiset(),
{
    let ghost all = names@;
    let mut rest = names;
    let mut out: Vec<String> = Vec::new();
    proof {
        assert(out@.to_multiset() =~= vstd::multiset::Multiset::empty()) by {
            vstd::seq_lib::to_multiset_len(out@);
        }
        assert(out@.to_multiset().add(rest@.to_multiset()) =~= all.to_multiset());
    }
    while rest.len() > 0
        invariant
            sorted(texts(out@)),
            out@.to_multiset().add(rest@.to_multiset()) == all.to_multiset(),
        decreases rest@.len(),
    {
        let ghost before = rest@;
        if let Some(name) = rest.pop() {
            let mut at: usize = 0;
            while at < out.len() && is_in_order(out[at].as_str(), name.as_str())
                invariant
                    at <= out@.len(),
                    forall|j: int| 0 <= j < at ==> in_order(#[trigger] texts(out@)[j], name@),
                ensures
                    at <= out@.len(),
                    forall|j: int| 0 <= j < at ==> in_order(#[trigger] texts(out@)[j], name@),
                    at < out@.len() ==> !in_order(texts(out@)[at as int], name@),
                decreases out@.len() - at,
            {
                at += 1;
            }
            let ghost known = out@;
            out.insert(at, name);
            proof {
                assert forall|i: int, j: int| 0 <= i <= j < out@.len() implies in_order(
                    #[trigger] texts(out@)[i],
                    #[trigger] texts(out@)[j],
                ) by {
                    let s = texts(known);
                    lemma_order_total(name@, name@);
                    let i0 = if i < at { i } else { i - 1 };
                    let j0 = if j < at { j } else { j - 1 };
                    if i != at && j != at {
                        assert(texts(out@)[i] == s[i0] && texts(out@)[j] == s[j0]);
                    } else if i == at && j == at {
                    } else if j == at {
                        assert(texts(out@)[i] == s[i]);
                    } else {
                        assert(texts(out@)[j] == s[j - 1]);
                        lemma_order_total(s[at as int], name@);
                        assert(in_order(s[at as int], s[j - 1]));
                        lemma_order_transitive(name@, s[at as int], s[j - 1]);
                    }
                }
                assert(before =~= rest@.push(name));
                vstd::seq_lib::to_multiset_insert(known, at as int, name);
                vstd::seq_lib::to_multiset_insert(rest@, rest@.len() as int, name);
                assert(rest@.insert(rest@.len() as int, name) =~= before);
                assert(out@.to_multiset().add(rest@.to_multiset()) =~= known.to_multiset().add(
                    before.to_multiset(),
                ));
            }
        }
    }
    proof {
        assert(rest@.to_multiset() =~= vstd::multiset::Multiset::empty()) by {
            vstd::seq_lib::to_multiset_len(rest@);
        }
        assert(out@.to_multiset().add(rest@.to_multiset()) =~= out@.to_multiset());
    }
    out
}

/// The number that decimal digits stand for, read from the left.
pub open spec fn number_of(digits: Seq<char>) -> int
    decreases digits.len(),
{
    if digits.len() == 0 {
        0
    } else {
        10 * number_of(digits.drop_last()) + (digits.last() as int - '0' as int)
    }
}

/// A number in decimal reads back, holds digits alone and begins with none that could be left out.
pub proof fn law_decimals_read_back(n: nat)
    ensures
        number_of(decimal_of(n)) == n,
        decimal_of(n).len() >= 1,
        forall|i: int| 0 <= i < decimal_of(n).len() ==> '0' <= #[trigger] decimal_of(n)[i] <= '9',
        n >= 1 ==> decimal_of(n)[0] != '0',
    decreases n,
{
    reveal_with_fuel(number_of, 2);
    if n >= 10 {
        law_decimals_read_back(n / 10);
        assert(decimal_of(n).drop_last() =~= decimal_of(n / 10));
    } else {
        assert(decimal_of(n).drop_last() =~= Seq::<char>::empty());
    }
}

/// Below zero a minus sign comes first, and only there.
pub proof fn law_sign_comes_first(n: int)
    ensures
        n < 0 ==> signed_decimal_of(n)[0] == '-' && number_of(signed_decimal_of(n).skip(1)) == -n,
        n >= 0 ==> signed_decimal_of(n)[0] != '-' && number_of(signed_decimal_of(n)) == n,
{
    reveal_strlit("-");
    if n < 0 {
        law_decimals_read_back((-n) as nat);
        assert(signed_decimal_of(n).skip(1) =~= decimal_of((-n) as nat));
    } else {
        law_decimals_read_back(n as nat);
        assert('0' <= decimal_of(n as nat)[0]);
    }
}

/// What a hexadecimal digit in lower case stands for.
pub open spec fn digit_value(c: char) -> int {
    if '0' <= c <= '9' {
        c as int - '0' as int
    } else if 'a' <= c <= 'f' {
        c as int - 'a' as int + 10
    } else {
        -1
    }
}

/// Every byte is two digits in lower case, the higher one first, in the order of the bytes.
pub proof fn law_bytes_are_two_digits(bytes: Seq<u8>, i: int)
    requires
        0 <= i < bytes.len(),
    ensures
        hex_of(bytes).len() == 2 * bytes.len(),
        digit_value(hex_of(bytes)[2 * i]) >= 0,
        digit_value(hex_of(bytes)[2 * i + 1]) >= 0,
        16 * digit_value(hex_of(bytes)[2 * i]) + digit_value(hex_of(bytes)[2 * i + 1]) == bytes[i],
    decreases bytes.len(),
{
    lemma_hex_len(bytes);
    let rest = bytes.drop_last();
    lemma_hex_len(rest);
    if i < rest.len() {
        law_bytes_are_two_digits(rest, i);
        assert(hex_of(bytes)[2 * i] == hex_of(rest)[2 * i]);
        assert(hex_of(bytes)[2 * i + 1] == hex_of(rest)[2 * i + 1]);
    } else {
        assert(hex_of(bytes)[2 * i] == hex_digit_of(bytes[i] as int / 16));
        assert(hex_of(bytes)[2 * i + 1] == hex_digit_of(bytes[i] as int % 16));
    }
}

/// The order of names is that of the first characters in which they differ; a name that goes on stands behind
/// one that ends.
pub proof fn law_first_difference_decides(a: Seq<char>, b: Seq<char>, k: int)
    requires
        0 <= k <= a.len(),
        k <= b.len(),
        a.take(k) == b.take(k),
        k < a.len() && k < b.len() ==> a[k] != b[k],
    ensures
        k < a.len() && k < b.len() ==> in_order(a, b) == (a[k] < b[k]),
        k == a.len() ==> in_order(a, b),
        k == b.len() && k < a.len() ==> !in_order(a, b),
    decreases k,
{
    if k > 0 {
        assert(a[0] == a.take(k)[0]);
        assert(b[0] == b.take(k)[0]);
        assert(a.skip(1).take(k - 1) =~= a.take(k).skip(1));
        assert(b.skip(1).take(k - 1) =~= b.take(k).skip(1));
        law_first_difference_decides(a.skip(1), b.skip(1), k - 1);
    }
}

/// Names are sorted where each stands in order with every one behind it, and so does every part of them.
pub proof fn law_sorted_names_stand_in_order(names: Seq<Seq<char>>, i: int, j: int)
    requires
        0 <= i < j < names.len(),
    ensures
        sorted(names) ==> in_order(names[i], names[j]),
        !in_order(names[i], names[j]) ==> !sorted(names),
        names[i] == names[j] || !(in_order(names[i], names[j]) && in_order(names[j], names[i])),
{
    lemma_order_antisymmetric(names[i], names[j]);
}

proof fn lemma_order_antisymmetric(a: Seq<char>, b: Seq<char>)
    ensures
        in_order(a, b) && in_order(b, a) ==> a == b,
    decreases a.len(),
{
    if a.len() > 0 && b.len() > 0 && a[0] == b[0] {
        lemma_order_antisymmetric(a.skip(1), b.skip(1));
        if a.skip(1) == b.skip(1) {
            assert(a =~= seq![a[0]] + a.skip(1));
            assert(b =~= seq![b[0]] + b.skip(1));
        }
    } else if a.len() == 0 && b.len() == 0 {
        assert(a =~= b);
    }
}

} // verus!
