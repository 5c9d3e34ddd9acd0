//! The index arithmetic of the numeric building blocks: rates and lengths of resampling, padding,
//! the choice of the largest value, and the neighbours that a gap is interpolated from. Samples are
//! the bits of singles.
use crate::bits;
use vstd::prelude::*;

verus! {

/// The greatest common divisor by Euclid's rule.
pub open spec fn gcd_of(a: nat, b: nat) -> nat
    decreases b,
{
    if b == 0 {
        a
    } else {
        gcd_of(b, a % b)
    }
}

/// The greatest common divisor.
pub fn gcd(a: usize, b: usize) -> (r: usize)
    ensures
        r == gcd_of(a as nat, b as nat),
    decreases b,
{
    if b == 0 {
        a
    } else {
        gcd(b, a % b)
    }
}

/// What Euclid's rule gives divides both numbers, and no common divisor is greater.
pub proof fn law_gcd_is_greatest(a: nat, b: nat, d: nat)
    requires
        a > 0 || b > 0,
    ensures
        gcd_of(a, b) > 0,
        a % gcd_of(a, b) == 0,
        b % gcd_of(a, b) == 0,
        d > 0 && a % d == 0 && b % d == 0 ==> d <= gcd_of(a, b) && gcd_of(a, b) % d == 0,
    decreases b,
{
    let g = gcd_of(a, b);
    if b == 0 {
        assert(a % a == 0) by (nonlinear_arith)
            requires
                a > 0,
        ;
        if d > 0 && a % d == 0 {
            assert(d <= a) by (nonlinear_arith)
                requires
                    d > 0,
                    a > 0,
                    a % d == 0,
            ;
        }
        assert(0nat % g == 0) by (nonlinear_arith)
            requires
                g > 0,
        ;
    } else {
        law_gcd_is_greatest(b, a % b, d);
        let q = a / b;
        let r = a % b;
        vstd::arithmetic::div_mod::lemma_fundamental_div_mod(a as int, b as int);
        lemma_divides_sum(b, q, r, g);
        if d > 0 && a % d == 0 && b % d == 0 {
            lemma_divides_rest(a, b, d);
        }
    }
}

proof fn lemma_divides_sum(b: nat, q: nat, r: nat, g: nat)
    requires
        g > 0,
        b % g == 0,
        r % g == 0,
    ensures
        (b * q + r) % g == 0,
{
    vstd::arithmetic::div_mod::lemma_fundamental_div_mod(b as int, g as int);
    vstd::arithmetic::div_mod::lemma_fundamental_div_mod(r as int, g as int);
    let x = b / g;
    let y = r / g;
    assert(b * q + r == (x * q + y) * g) by (nonlinear_arith)
        requires
            b == g * x,
            r == g * y,
    ;
    vstd::arithmetic::div_mod::lemma_mod_multiples_basic((x * q + y) as int, g as int);
}

proof fn lemma_divides_rest(a: nat, b: nat, d: nat)
    requires
        b > 0,
        d > 0,
        a % d == 0,
        b % d == 0,
    ensures
        (a % b) % d == 0,
{
    vstd::arithmetic::div_mod::lemma_fundamental_div_mod(a as int, b as int);
    vstd::arithmetic::div_mod::lemma_fundamental_div_mod(a as int, d as int);
    vstd::arithmetic::div_mod::lemma_fundamental_div_mod(b as int, d as int);
    let q = a / b;
    let x = a / d;
    let y = b / d;
    let r = (a % b) as int;
    assert(b * q == d * (y * q)) by (nonlinear_arith)
        requires
            b == d * y,
    ;
    assert(d * x - d * (y * q) == (x - y * q) * d) by (nonlinear_arith);
    assert(r == (x - y * q) * d);
    vstd::arithmetic::div_mod::lemma_mod_multiples_basic(x - y * q, d as int);
}

/// A resampler: the two rates without their common divisor, and the taps on either side.
#[derive(Clone, Copy)]
pub struct Resampler {
    pub orig: usize,
    pub new: usize,
    pub width: usize,
}

/// Two rates without their common divisor.
pub fn reduced(orig_freq: usize, new_freq: usize) -> (r: (usize, usize))
    requires
        orig_freq > 0,
        new_freq > 0,
    ensures
        r.0 * gcd_of(orig_freq as nat, new_freq as nat) == orig_freq,
        r.1 * gcd_of(orig_freq as nat, new_freq as nat) == new_freq,
        r.0 > 0,
        r.1 > 0,
{
    let g: usize = gcd(orig_freq, new_freq);
    proof {
        law_gcd_is_greatest(orig_freq as nat, new_freq as nat, 1);
        vstd::arithmetic::div_mod::lemma_fundamental_div_mod(orig_freq as int, g as int);
        vstd::arithmetic::div_mod::lemma_fundamental_div_mod(new_freq as int, g as int);
        let x = orig_freq as int / g as int;
        let y = new_freq as int / g as int;
        assert(x * g == g * x) by (nonlinear_arith);
        assert(y * g == g * y) by (nonlinear_arith);
        if x == 0 {
            assert(g * x == 0) by (nonlinear_arith)
                requires
                    x == 0,
            ;
        }
        if y == 0 {
            assert(g * y == 0) by (nonlinear_arith)
                requires
                    y == 0,
            ;
        }
    }
    (orig_freq / g, new_freq / g)
}

/// The samples that `len` samples become.
pub open spec fn resampled_len(r: Resampler, len: int) -> int {
    (r.new * len + r.orig - 1) / r.orig as int
}

/// Where an output sample is taken from: the phase of the kernel, and the first place in the padded
/// input.
pub open spec fn output_place(r: Resampler, t: int) -> (int, int) {
    (t % r.new as int, t / r.new as int * r.orig)
}

impl Resampler {
    pub open spec fn wf(self) -> bool {
        self.orig > 0 && self.new > 0
    }

    /// The samples that `input_len` samples become: the ratio of the rates, rounded up.
    pub fn output_len(&self, input_len: usize) -> (r: usize)
        requires
            self.wf(),
            self.new * input_len + self.orig <= usize::MAX,
        ensures
            r == resampled_len(*self, input_len as int),
    {
        proof {
            assert(0 <= self.new * input_len) by (nonlinear_arith);
        }
        (self.new * input_len + (self.orig - 1)) / self.orig
    }

    /// The taps of the kernel.
    pub fn taps(&self) -> (r: usize)
        requires
            2 * self.width + self.orig <= usize::MAX,
        ensures
            r == 2 * self.width + self.orig,
    {
        2 * self.width + self.orig
    }

    /// Where an output sample is taken from.
    pub fn place(&self, t: usize) -> (r: (usize, usize))
        requires
            self.wf(),
            t * self.orig <= usize::MAX,
        ensures
            (r.0 as int, r.1 as int) == output_place(*self, t as int),
    {
        proof {
            let q = t as int / self.new as int;
            assert(0 <= q * self.orig <= t * self.orig) by (nonlinear_arith)
                requires
                    0 <= q <= t,
                    self.orig > 0,
            ;
        }
        (t % self.new, t / self.new * self.orig)
    }

    /// The input sample at a place of the padded input, or none in the padding.
    pub fn input_at(&self, len: usize, place: usize) -> (r: Option<usize>)
        requires
            self.width + len <= usize::MAX,
        ensures
            r == if self.width <= place < self.width + len {
                Some((place - self.width) as usize)
            } else {
                None
            },
    {
        if place < self.width || place >= self.width + len {
            None
        } else {
            Some(place - self.width)
        }
    }
}

/// Every output sample is taken from inside the padded input: the kernel ends within `width` samples
/// and one more stride behind the input.
pub proof fn law_resampling_stays_inside(r: Resampler, len: int, t: int)
    requires
        r.wf(),
        0 <= len,
        0 <= t < resampled_len(r, len),
    ensures
        0 <= output_place(r, t).0 < r.new,
        0 <= output_place(r, t).1,
        output_place(r, t).1 + 2 * r.width + r.orig <= len + 2 * r.width + r.orig,
{
    let n = r.new as int;
    let o = r.orig as int;
    let q = t / n;
    vstd::arithmetic::div_mod::lemma_fundamental_div_mod(t, n);
    vstd::arithmetic::div_mod::lemma_fundamental_div_mod(n * len + o - 1, o);
    let total = (n * len + o - 1) / o;
    assert(o * total <= n * len + o - 1);
    assert(n * q <= t <= total - 1);
    assert(o * (n * q) <= o * (total - 1)) by (nonlinear_arith)
        requires
            n * q <= total - 1,
            o > 0,
    ;
    assert(o * (total - 1) == o * total - o) by (nonlinear_arith);
    assert(o * (n * q) == n * (q * o)) by (nonlinear_arith);
    assert(n * (q * o) <= n * len - 1);
    assert(q * o <= len) by (nonlinear_arith)
        requires
            n * (q * o) <= n * len - 1,
            n > 0,
    ;
    assert(0 <= q * o) by (nonlinear_arith)
        requires
            q >= 0,
            o > 0,
    ;
}

/// `x` with its samples mirrored at both ends, without the end samples themselves.
pub open spec fn reflected(x: Seq<u32>, left: int, right: int) -> Seq<u32> {
    Seq::new(
        (left + x.len() + right) as nat,
        |i: int|
            if i < left {
                x[left - i]
            } else if i < left + x.len() {
                x[i - left]
            } else {
                x[x.len() - 2 - (i - left - x.len())]
            },
    )
}

/// Mirrors samples at both ends.
pub fn reflect_pad(x: &[u32], left: usize, right: usize) -> (r: Vec<u32>)
    requires
        left < x@.len(),
        right < x@.len(),
    ensures
        r@ == reflected(x@, left as int, right as int),
{
    let n: usize = x.len();
    let ghost want = reflected(x@, left as int, right as int);
    let mut out: Vec<u32> = Vec::new();
    let mut i: usize = left;
    while i > 0
        invariant
            i <= left < n == x@.len(),
            right < n,
            want == reflected(x@, left as int, right as int),
            out@ == want.take(left - i),
        decreases i,
    {
        out.push(x[i]);
        i -= 1;
        assert(out@ =~= want.take(left - i));
    }
    let mut j: usize = 0;
    while j < n
        invariant
            j <= n == x@.len(),
            left < n,
            right < n,
            want == reflected(x@, left as int, right as int),
            out@ == want.take(left + j),
        decreases n - j,
    {
        out.push(x[j]);
        j += 1;
        assert(out@ =~= want.take(left + j));
    }
    let mut k: usize = 0;
    while k < right
        invariant
            k <= right < n == x@.len(),
            left < n,
            want == reflected(x@, left as int, right as int),
            out@ == want.take(left + n + k),
        decreases right - k,
    {
        out.push(x[n - 2 - k]);
        k += 1;
        assert(out@ =~= want.take(left + n + k));
    }
    assert(want.take(want.len() as int) =~= want);
    out
}

/// Whether a value can be the largest: a number above negative infinity.
pub open spec fn countable(bits: u32) -> bool {
    !bits::single_is_nan(bits) && bits::single_rank(bits) > bits::single_rank(0xff80_0000)
}

/// Whether `at` is the first place of the largest value; where no value counts, it is the first
/// place.
pub open spec fn is_first_largest(row: Seq<u32>, at: int) -> bool {
    if exists|i: int| 0 <= i < row.len() && countable(#[trigger] row[i]) {
        &&& 0 <= at < row.len()
        &&& countable(row[at])
        &&& forall|i: int|
            0 <= i < row.len() && countable(#[trigger] row[i]) ==> if i < at {
                bits::single_rank(row[i]) < bits::single_rank(row[at])
            } else {
                bits::single_rank(row[i]) <= bits::single_rank(row[at])
            }
    } else {
        at == 0
    }
}

/// The first place of the largest value.
pub fn first_largest(row: &[u32]) -> (r: usize)
    ensures
        is_first_largest(row@, r as int),
{
    let mut at: usize = 0;
    let mut largest: u32 = 0xff80_0000;
    let mut i: usize = 0;
    while i < row.len()
        invariant
            i <= row@.len(),
            !bits::single_is_nan(largest),
            bits::single_rank(largest) >= bits::single_rank(0xff80_0000),
            is_first_largest(row@.take(i as int), at as int),
            if exists|j: int| 0 <= j < i && countable(#[trigger] row@[j]) {
                at < i && row@[at as int] == largest && countable(largest)
            } else {
                at == 0 && largest == 0xff80_0000
            },
        decreases row@.len() - i,
    {
        let ghost before = row@.take(i as int);
        let ghost after = row@.take(i + 1);
        let v: u32 = row[i];
        proof {
            assert(after =~= before.push(v));
            assert forall|j: int| 0 <= j < i implies after[j] == before[j] by {}
        }
        if bits::is_above(v, largest) {
            proof {
                assert(countable(v));
                assert(after[i as int] == v);
                assert(countable(row@[i as int]));
                assert forall|j: int| 0 <= j < after.len() && countable(#[trigger] after[j]) implies if j < i {
                    bits::single_rank(after[j]) < bits::single_rank(v)
                } else {
                    bits::single_rank(after[j]) <= bits::single_rank(v)
                } by {
                    if j < i {
                        assert(countable(row@[j]));
                        assert(countable(before[j]));
                    }
                }
            }
            at = i;
            largest = v;
        } else {
            proof {
                if countable(v) {
                    assert(exists|j: int| 0 <= j < i && countable(#[trigger] row@[j]));
                    let j = choose|j: int| 0 <= j < i && countable(#[trigger] row@[j]);
                    assert(countable(before[j]));
                    assert(countable(after[j]));
                }
                if exists|j: int| 0 <= j < i && countable(#[trigger] row@[j]) {
                    let j = choose|j: int| 0 <= j < i && countable(#[trigger] row@[j]);
                    assert(countable(before[j]));
                    assert(countable(after[j]));
                    assert(after[at as int] == largest);
                    assert forall|k: int| 0 <= k < after.len() && countable(#[trigger] after[k]) implies if k < at {
                        bits::single_rank(after[k]) < bits::single_rank(after[at as int])
                    } else {
                        bits::single_rank(after[k]) <= bits::single_rank(after[at as int])
                    } by {
                        if k < i {
                            assert(countable(before[k]));
                        }
                    }
                    assert(row@[j] == after[j]);
                } else {
                    assert(!exists|k: int| 0 <= k < after.len() && countable(#[trigger] after[k])) by {
                        if exists|k: int| 0 <= k < after.len() && countable(#[trigger] after[k]) {
                            let k = choose|k: int| 0 <= k < after.len() && countable(#[trigger] after[k]);
                            assert(countable(row@[k]));
                        }
                    }
                }
            }
        }
        i += 1;
    }
    assert(row@.take(row@.len() as int) =~= row@);
    at
}

/// Whether a frame has a pitch: anything but a zero of either sign.
pub open spec fn voiced(bits: u32) -> bool {
    bits as int % 0x8000_0000 != 0
}

/// The last frame with a pitch before `i`.
pub open spec fn voiced_before(f0: Seq<u32>, i: int) -> Option<int>
    decreases i,
{
    if i <= 0 {
        None
    } else if voiced(f0[i - 1]) {
        Some(i - 1)
    } else {
        voiced_before(f0, i - 1)
    }
}

/// The first frame with a pitch from `i` on.
pub open spec fn voiced_from(f0: Seq<u32>, i: int) -> Option<int>
    decreases f0.len() - i,
{
    if i < 0 || i >= f0.len() {
        None
    } else if voiced(f0[i]) {
        Some(i)
    } else {
        voiced_from(f0, i + 1)
    }
}

/// Where the pitch of a frame comes from.
#[derive(Clone, Copy, PartialEq, Eq, Structural)]
pub enum Fill {
    /// Its own, which may be none.
    Own,
    /// That of the nearest frame with one, where there is one on one side only.
    Copy(usize),
    /// A line between the nearest frames on both sides.
    Between(usize, usize),
}

/// Where the pitch of frame `i` comes from.
pub open spec fn fill_of(f0: Seq<u32>, i: int) -> Fill {
    if voiced(f0[i]) {
        Fill::Own
    } else {
        match (voiced_before(f0, i), voiced_from(f0, i)) {
            (None, None) => Fill::Own,
            (Some(a), None) => Fill::Copy(a as usize),
            (None, Some(b)) => Fill::Copy(b as usize),
            (Some(a), Some(b)) => Fill::Between(a as usize, b as usize),
        }
    }
}

proof fn lemma_voiced_before(f0: Seq<u32>, i: int)
    requires
        i <= f0.len(),
    ensures
        voiced_before(f0, i) matches Some(a) ==> 0 <= a < i && voiced(f0[a]),
    decreases i,
{
    if i > 0 && !voiced(f0[i - 1]) {
        lemma_voiced_before(f0, i - 1);
    }
}

proof fn lemma_voiced_from(f0: Seq<u32>, i: int)
    ensures
        voiced_from(f0, i) matches Some(b) ==> i <= b < f0.len() && voiced(f0[b]),
    decreases f0.len() - i,
{
    if 0 <= i < f0.len() && !voiced(f0[i]) {
        lemma_voiced_from(f0, i + 1);
    }
}

/// Where the pitch of every frame comes from.
pub fn fills(f0: &[u32]) -> (r: Vec<Fill>)
    ensures
        r@ == Seq::new(f0@.len(), |i: int| fill_of(f0@, i)),
{
    let n: usize = f0.len();
    let mut after: Vec<Option<usize>> = Vec::new();
    let mut i: usize = n;
    let mut next: Option<usize> = None;
    while i > 0
        invariant
            i <= n == f0@.len(),
            after@.len() == n - i,
            match voiced_from(f0@, i as int) {
                Some(b) => next matches Some(c) && b == c,
                None => next is None,
            },
            forall|j: int|
                i <= j < n ==> match voiced_from(f0@, j) {
                    Some(b) => #[trigger] after@[n - 1 - j] matches Some(c) && b == c,
                    None => after@[n - 1 - j] is None,
                },
        decreases i,
    {
        i -= 1;
        if f0[i] % 0x8000_0000 != 0 {
            next = Some(i);
        }
        let ghost before = after@;
        after.push(next);
        assert forall|j: int| i <= j < n implies match voiced_from(f0@, j) {
            Some(b) => #[trigger] after@[n - 1 - j] matches Some(c) && b == c,
            None => after@[n - 1 - j] is None,
        } by {
            if j > i {
                assert(before[n - 1 - j] == after@[n - 1 - j]);
            }
        }
    }
    let mut out: Vec<Fill> = Vec::new();
    let mut last: Option<usize> = None;
    let mut k: usize = 0;
    while k < n
        invariant
            k <= n == f0@.len(),
            after@.len() == n,
            match voiced_before(f0@, k as int) {
                Some(a) => last matches Some(b) && a == b,
                None => last is None,
            },
            forall|j: int|
                0 <= j < n ==> match voiced_from(f0@, j) {
                    Some(b) => #[trigger] after@[n - 1 - j] matches Some(c) && b == c,
                    None => after@[n - 1 - j] is None,
                },
            out@ == Seq::new(k as nat, |j: int| fill_of(f0@, j)),
        decreases n - k,
    {
        let following: Option<usize> = after[n - 1 - k];
        assert(after@[n - 1 - k] == following);
        let fill: Fill = if f0[k] % 0x8000_0000 != 0 {
            Fill::Own
        } else {
            match (last, following) {
                (None, None) => Fill::Own,
                (Some(a), None) => Fill::Copy(a),
                (None, Some(b)) => Fill::Copy(b),
                (Some(a), Some(b)) => Fill::Between(a, b),
            }
        };
        if f0[k] % 0x8000_0000 != 0 {
            last = Some(k);
        }
        out.push(fill);
        k += 1;
        assert(out@ =~= Seq::new(k as nat, |j: int| fill_of(f0@, j)));
    }
    out
}

/// Gaps are filled from voiced frames only, and a line goes from a frame before the gap to one
/// behind it.
pub proof fn law_fills_are_voiced(f0: Seq<u32>, i: int)
    requires
        0 <= i < f0.len(),
        f0.len() <= usize::MAX,
    ensures
        match fill_of(f0, i) {
            Fill::Own => voiced(f0[i]) || forall|j: int| 0 <= j < f0.len() ==> !voiced(#[trigger] f0[j]),
            Fill::Copy(a) => a < f0.len() && voiced(f0[a as int]),
            Fill::Between(a, b) => a < i < b < f0.len() && voiced(f0[a as int]) && voiced(
                f0[b as int],
            ),
        },
{
    lemma_voiced_before(f0, i);
    lemma_voiced_from(f0, i);
    if !voiced(f0[i]) && fill_of(f0, i) == Fill::Own {
        assert forall|j: int| 0 <= j < f0.len() implies !voiced(#[trigger] f0[j]) by {
            lemma_unvoiced_before(f0, i, j);
            lemma_unvoiced_from(f0, i, j);
        }
    }
}

proof fn lemma_unvoiced_before(f0: Seq<u32>, i: int, j: int)
    requires
        i <= f0.len(),
        voiced_before(f0, i) is None,
    ensures
        0 <= j < i ==> !voiced(f0[j]),
    decreases i,
{
    if i > 0 {
        lemma_unvoiced_before(f0, i - 1, j);
    }
}

proof fn lemma_unvoiced_from(f0: Seq<u32>, i: int, j: int)
    requires
        0 <= i,
        voiced_from(f0, i) is None,
    ensures
        i <= j < f0.len() ==> !voiced(f0[j]),
    decreases f0.len() - i,
{
    if i < f0.len() {
        lemma_unvoiced_from(f0, i + 1, j);
    }
}

/// The window of the transform, the step between windows, and the bins of a window.
pub const N_FFT: usize = 1024;

pub const HOP: usize = 160;

pub const BINS: usize = 513;

/// How samples are padded and cut into windows for one of the pitch methods.
#[derive(Clone, Copy, PartialEq, Eq, Structural)]
pub struct FcpeLayout {
    pub pad_left: usize,
    pub pad_right: usize,
    /// Whether the padding mirrors the samples; otherwise it is silent.
    pub mirrored: bool,
    /// The windows of the padded samples.
    pub frames: usize,
    /// The frames that are wanted, one for every step and one more.
    pub wanted: usize,
}

/// The windows of `padded` samples.
pub open spec fn windows(padded: int) -> int {
    1 + (padded - N_FFT) / (HOP as int)
}

/// How `len` samples are padded: so many that there is a window, mirrored where there are enough.
pub fn fcpe_layout(len: usize) -> (r: FcpeLayout)
    requires
        len + 2 * N_FFT <= usize::MAX,
    ensures
        laid_out(len as int, r),
{
    let pad_right: usize = if len >= 160 {
        432
    } else {
        592 - len
    };
    FcpeLayout {
        pad_left: 432,
        pad_right,
        mirrored: pad_right < len,
        frames: 1 + (432 + len + pad_right - N_FFT) / HOP,
        wanted: len / HOP + 1,
    }
}

/// The windows over which the loudness of `len` samples is taken: windows of `frame` samples every
/// `hop` samples, the samples being padded by half a window on both sides.
pub fn rms_frames(len: usize, frame: usize, hop: usize) -> (r: usize)
    requires
        hop > 0,
        len + frame < usize::MAX,
        frame <= len + 2 * (frame as int / 2),
    ensures
        r == 1 + (len + 2 * (frame as int / 2) - frame) / hop as int,
{
    let padded: usize = len + 2 * (frame / 2);
    let steps: usize = (padded - frame) / hop;
    proof {
        assert(steps <= padded - frame) by (nonlinear_arith)
            requires
                steps == (padded - frame) / hop as int,
                hop > 0,
                padded >= frame,
        ;
    }
    1 + steps
}

/// Resampling keeps the duration: as many samples come out as cover the input at the new rate, and one fewer
/// would not.
pub proof fn law_resampling_keeps_the_duration(r: Resampler, len: int)
    requires
        r.wf(),
        0 < len,
    ensures
        r.orig * resampled_len(r, len) >= r.new * len,
        r.orig * (resampled_len(r, len) - 1) < r.new * len,
        r.orig == r.new ==> resampled_len(r, len) == len,
{
    let o = r.orig as int;
    let n = r.new as int;
    let x = n * len + o - 1;
    vstd::arithmetic::div_mod::lemma_fundamental_div_mod(x, o);
    let q = x / o;
    assert(o * (q - 1) == o * q - o) by (nonlinear_arith);
    if o == n {
        assert(q == len) by (nonlinear_arith)
            requires
                o * q >= o * len,
                o * q - o < o * len,
                o > 0,
        ;
    }
}

/// An output sample is taken at its own time: its place moves on by the old rate for every turn of the phases,
/// of which there are as many as the new rate has.
pub proof fn law_outputs_are_taken_in_turn(r: Resampler, t: int, turn: int, phase: int)
    requires
        r.wf(),
        0 <= turn,
        0 <= phase < r.new,
        t == turn * r.new + phase,
    ensures
        output_place(r, t) == (phase, turn * r.orig),
{
    vstd::arithmetic::div_mod::lemma_fundamental_div_mod_converse(t, r.new as int, turn, phase);
}

/// Mirrored samples keep the samples in the middle and repeat them backwards from the ends, without the end
/// samples themselves.
pub proof fn law_mirrored_at_the_ends(x: Seq<u32>, left: int, right: int, k: int)
    requires
        0 <= left < x.len(),
        0 <= right < x.len(),
    ensures
        reflected(x, left, right).len() == left + x.len() + right,
        0 <= k < x.len() ==> reflected(x, left, right)[left + k] == x[k],
        1 <= k <= left ==> reflected(x, left, right)[left - k] == x[k],
        1 <= k <= right ==> reflected(x, left, right)[left + x.len() - 1 + k] == x[x.len() - 1 - k],
{
}

/// A gap is filled from the nearest frames with a pitch: none lies between a frame and those that it is
/// filled from, a line is drawn where there is one on both sides, and a frame with a pitch keeps it.
pub proof fn law_fills_are_nearest(f0: Seq<u32>, i: int, j: int)
    requires
        0 <= i < f0.len(),
        0 <= j < f0.len(),
        f0.len() <= usize::MAX,
    ensures
        f0[i] as int % 0x8000_0000 != 0 ==> fill_of(f0, i) == Fill::Own,
        match fill_of(f0, i) {
            Fill::Own => true,
            Fill::Copy(a) => {
                &&& a < i ==> (a < j ==> f0[j] as int % 0x8000_0000 == 0)
                &&& a > i ==> (j < a ==> f0[j] as int % 0x8000_0000 == 0)
                &&& a != i
                &&& f0[a as int] as int % 0x8000_0000 != 0
            },
            Fill::Between(a, b) => {
                &&& a < i < b
                &&& a < j < b ==> f0[j] as int % 0x8000_0000 == 0
                &&& f0[a as int] as int % 0x8000_0000 != 0
                &&& f0[b as int] as int % 0x8000_0000 != 0
            },
        },
{
    law_fills_are_voiced(f0, i);
    lemma_nearest_before(f0, i, j);
    lemma_nearest_from(f0, i, j);
    if voiced_before(f0, i) is None {
        lemma_unvoiced_before(f0, i, j);
    }
    if voiced_from(f0, i) is None {
        lemma_unvoiced_from(f0, i, j);
    }
}

proof fn lemma_nearest_before(f0: Seq<u32>, i: int, j: int)
    requires
        i <= f0.len(),
    ensures
        voiced_before(f0, i) matches Some(a) ==> a < i && (a < j < i ==> !voiced(f0[j])),
    decreases i,
{
    if i > 0 && !voiced(f0[i - 1]) {
        lemma_nearest_before(f0, i - 1, j);
    }
}

proof fn lemma_nearest_from(f0: Seq<u32>, i: int, j: int)
    requires
        0 <= i,
    ensures
        voiced_from(f0, i) matches Some(b) ==> i <= b && (i <= j < b ==> !voiced(f0[j])),
    decreases f0.len() - i,
{
    if i < f0.len() && !voiced(f0[i]) {
        lemma_nearest_from(f0, i + 1, j);
    }
}

/// Whether so many samples are padded and cut so.
pub open spec fn laid_out(len: int, r: FcpeLayout) -> bool {
    &&& r.pad_left == 432
    &&& r.pad_right == if len >= 160 {
        432
    } else {
        592 - len
    }
    &&& r.mirrored == (r.pad_right < len)
    &&& r.frames == windows(r.pad_left + len + r.pad_right)
    &&& r.frames >= 1
    &&& r.wanted == len / HOP as int + 1
}

/// The padding makes room for at least one window of 1024 samples and centres hops of 160 in their windows; the
/// windows are as many as fit, and a pitch is wanted at the beginning and every hop.
pub proof fn law_windows_fit_the_padding(len: int, r: FcpeLayout)
    requires
        0 <= len,
        laid_out(len, r),
    ensures
        2 * r.pad_left + 160 == 1024,
        len >= 160 ==> r.pad_right == r.pad_left,
        len < 160 ==> r.pad_left + len + r.pad_right == 1024,
        160 * (r.frames - 1) + 1024 <= r.pad_left + len + r.pad_right < 160 * r.frames + 1024,
        160 * (r.wanted - 1) <= len < 160 * r.wanted,
        r.mirrored <==> r.pad_right < len,
{
}

/// The place of the largest value has no larger one anywhere and no equal one before it.
pub proof fn law_largest_is_the_first(row: Seq<u32>, at: int, i: int)
    requires
        is_first_largest(row, at),
        0 <= i < row.len(),
        bits::single_is_finite(row[i]),
    ensures
        0 <= at < row.len(),
        bits::single_is_finite(row[at]) || row[at] == 0x7f80_0000,
        bits::single_is_finite(row[at]) ==> bits::single_value(row[i]) <= bits::single_value(row[at]),
        bits::single_is_finite(row[at]) && i < at ==> bits::single_value(row[i]) < bits::single_value(
            row[at],
        ),
{
    assert(countable(row[i]));
    if bits::single_is_finite(row[at]) {
        bits::law_singles_are_in_order(row[i], row[at]);
        bits::law_singles_are_in_order(row[at], row[i]);
    }
}

} // verus!
