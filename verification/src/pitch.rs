//! The pitch of the low-latency path: which bins of a salience frame make its pitch, and the caches
//! that hold the pitch of the context. Halves and singles are their bits.
use crate::bits;
use crate::bits::{is_between, is_finite_half, is_natural_half, is_natural_single, rank_of_half};
use vstd::prelude::*;
use vstd::string::*;

verus! {

broadcast use vstd::string::group_string_axioms;

/// The bins of a salience frame.
pub const SALIENCE_BINS: usize = 360;

/// What a salience frame says of its pitch.
#[derive(Clone, Copy, PartialEq, Eq, Structural)]
pub enum FramePitch {
    Unvoiced,
    /// The weighted mean of the bins `from..to` round the largest one.
    Voiced { center: usize, from: usize, to: usize },
}

/// The first bin of the largest salience among the bins before `n`.
pub open spec fn first_peak(frame: Seq<u16>, n: int) -> int
    decreases n,
{
    if n <= 1 {
        0
    } else {
        let before = first_peak(frame, n - 1);
        if bits::half_rank(frame[n - 1]) > bits::half_rank(frame[before]) {
            n - 1
        } else {
            before
        }
    }
}

/// What a salience frame says of its pitch: nothing where the largest salience is below the
/// threshold, and otherwise the bins up to four away from it.
pub open spec fn frame_pitch(frame: Seq<u16>, threshold: u16) -> FramePitch {
    let center = first_peak(frame, SALIENCE_BINS as int);
    if bits::half_rank(frame[center]) < bits::half_rank(threshold) {
        FramePitch::Unvoiced
    } else {
        FramePitch::Voiced {
            center: center as usize,
            from: if center < 4 {
                0
            } else {
                (center - 4) as usize
            },
            to: if center + 5 > SALIENCE_BINS {
                SALIENCE_BINS
            } else {
                (center + 5) as usize
            },
        }
    }
}

/// The frames of a salience map, one after the other.
pub open spec fn frame_at(hidden: Seq<u16>, i: int) -> Seq<u16> {
    hidden.subrange(i * SALIENCE_BINS, (i + 1) * SALIENCE_BINS)
}

/// What is wrong with a salience map or a threshold.
pub open spec fn decode_fault(hidden: Seq<u16>, threshold: u32) -> Option<Seq<char>> {
    if hidden.len() % 360 != 0 || !bits::single_is_natural(threshold) || bits::single_rank(threshold)
        > 0x3f80_0000 {
        Some("invalid salience shape or threshold"@)
    } else if exists|i: int| 0 <= i < hidden.len() && !bits::half_is_natural(#[trigger] hidden[i]) {
        Some("non-finite or negative salience"@)
    } else {
        None
    }
}

fn find_peak(hidden: &[u16], from: usize) -> (r: usize)
    requires
        from + SALIENCE_BINS <= hidden@.len(),
    ensures
        r == first_peak(hidden@.subrange(from as int, from + SALIENCE_BINS), SALIENCE_BINS as int),
        r < SALIENCE_BINS,
{
    let ghost frame = hidden@.subrange(from as int, from + SALIENCE_BINS);
    let len: usize = hidden.len();
    let mut center: usize = 0;
    let mut i: usize = 1;
    while i < SALIENCE_BINS
        invariant
            1 <= i <= SALIENCE_BINS,
            center < SALIENCE_BINS,
            from + SALIENCE_BINS <= len == hidden@.len(),
            frame == hidden@.subrange(from as int, from + SALIENCE_BINS),
            center == first_peak(frame, i as int),
        decreases SALIENCE_BINS - i,
    {
        if rank_of_half(hidden[from + i]) > rank_of_half(hidden[from + center]) {
            center = i;
        }
        i += 1;
    }
    center
}

/// Which bins make the pitch of each frame. `threshold` is the bits of a single between zero and one,
/// and `narrowed` those of the half that it becomes.
pub fn decode(hidden: &[u16], threshold: u32, narrowed: u16) -> (r: Result<Vec<FramePitch>, String>)
    ensures
        match decode_fault(hidden@, threshold) {
            Some(text) => r matches Err(e) && e@ == text,
            None => r matches Ok(out) && out@ == Seq::new(
                hidden@.len() / 360,
                |i: int| frame_pitch(frame_at(hidden@, i), narrowed),
            ),
        },
{
    let len: usize = hidden.len();
    if len % 360 != 0 || !is_natural_single(threshold) || (threshold > 0x3f80_0000 && threshold
        != 0x8000_0000) {
        return Err("invalid salience shape or threshold".to_owned());
    }
    let mut i: usize = 0;
    while i < len
        invariant
            i <= len == hidden@.len(),
            len % 360 == 0,
            bits::single_is_natural(threshold),
            bits::single_rank(threshold) <= 0x3f80_0000,
            forall|j: int| 0 <= j < i ==> bits::half_is_natural(#[trigger] hidden@[j]),
        decreases len - i,
    {
        if !is_natural_half(hidden[i]) {
            assert(!bits::half_is_natural(hidden@[i as int]));
            return Err("non-finite or negative salience".to_owned());
        }
        i += 1;
    }
    let frames: usize = len / 360;
    let mut out: Vec<FramePitch> = Vec::new();
    let mut k: usize = 0;
    while k < frames
        invariant
            k <= frames == len / 360,
            len == hidden@.len(),
            len % 360 == 0,
            out@ == Seq::new(k as nat, |j: int| frame_pitch(frame_at(hidden@, j), narrowed)),
        decreases frames - k,
    {
        let from: usize = k * 360;
        let center: usize = find_peak(hidden, from);
        let pitch: FramePitch = if rank_of_half(hidden[from + center]) < rank_of_half(narrowed) {
            FramePitch::Unvoiced
        } else {
            FramePitch::Voiced {
                center,
                from: if center < 4 {
                    0
                } else {
                    center - 4
                },
                to: if center + 5 > SALIENCE_BINS {
                    SALIENCE_BINS
                } else {
                    center + 5
                },
            }
        };
        assert(frame_at(hidden@, k as int) =~= hidden@.subrange(from as int, from + SALIENCE_BINS));
        out.push(pitch);
        k += 1;
        assert(out@ =~= Seq::new(k as nat, |j: int| frame_pitch(frame_at(hidden@, j), narrowed)));
    }
    Ok(out)
}

proof fn lemma_first_peak(frame: Seq<u16>, n: int)
    requires
        1 <= n <= frame.len(),
    ensures
        0 <= first_peak(frame, n) < n,
        forall|i: int|
            0 <= i < n ==> bits::half_rank(#[trigger] frame[i]) <= bits::half_rank(
                frame[first_peak(frame, n)],
            ),
        forall|i: int|
            0 <= i < first_peak(frame, n) ==> bits::half_rank(#[trigger] frame[i])
                < bits::half_rank(frame[first_peak(frame, n)]),
    decreases n,
{
    if n > 1 {
        lemma_first_peak(frame, n - 1);
    }
}

/// The pitch of a frame is taken round its largest salience, and of equal ones round the first.
pub proof fn law_first_largest_salience(frame: Seq<u16>, threshold: u16)
    requires
        frame.len() == SALIENCE_BINS,
    ensures
        frame_pitch(frame, threshold) matches FramePitch::Voiced { center, from, to } ==> {
            &&& from <= center < to <= SALIENCE_BINS
            &&& bits::half_rank(frame[center as int]) >= bits::half_rank(threshold)
            &&& forall|i: int|
                0 <= i < center ==> bits::half_rank(#[trigger] frame[i]) < bits::half_rank(
                    frame[center as int],
                )
            &&& forall|i: int|
                0 <= i < SALIENCE_BINS ==> bits::half_rank(#[trigger] frame[i]) <= bits::half_rank(
                    frame[center as int],
                )
        },
        frame_pitch(frame, threshold) is Unvoiced ==> forall|i: int|
            0 <= i < SALIENCE_BINS ==> bits::half_rank(#[trigger] frame[i]) < bits::half_rank(
                threshold,
            ),
{
    lemma_first_peak(frame, SALIENCE_BINS as int);
}

/// The pitch of the context: one coarse and one continuous value for each frame. A new window of
/// estimates is appended as a whole.
pub struct PitchState {
    coarse: Vec<i64>,
    continuous: Vec<u16>,
}

/// What a [`PitchState`] holds.
pub struct PitchValue {
    pub coarse: Seq<i64>,
    pub continuous: Seq<u16>,
}

/// A cache after estimates came in: it moves on by `shift`, and as many values at its end as fit are
/// the last estimates.
pub open spec fn renewed<T>(cache: Seq<T>, estimates: Seq<T>, shift: int) -> Seq<T> {
    let count = if estimates.len() < cache.len() {
        estimates.len() as int
    } else {
        cache.len() as int
    };
    if count == 0 {
        cache
    } else {
        let moved = cache.skip(shift) + cache.skip(cache.len() - shift);
        moved.take(cache.len() - count) + estimates.skip(estimates.len() - count)
    }
}

/// Whether values are those of a cache.
pub open spec fn cache_values(coarse: Seq<i64>, continuous: Seq<u16>) -> bool {
    &&& forall|i: int| 0 <= i < coarse.len() ==> 0 <= #[trigger] coarse[i] <= 255
    &&& forall|i: int|
        0 <= i < continuous.len() ==> bits::half_is_natural(#[trigger] continuous[i])
}

/// What is wrong with values for a cache.
pub open spec fn cache_fault(coarse: Seq<i64>, continuous: Seq<u16>) -> Option<Seq<char>> {
    if coarse.len() == 0 || coarse.len() != continuous.len() {
        Some("invalid pitch cache dimensions"@)
    } else if !cache_values(coarse, continuous) {
        Some("invalid pitch cache values"@)
    } else {
        None
    }
}

/// What the estimates of a window are: the raw pitch, the shifted pitch as halves, and the coarse
/// pitch from 1 to 255.
pub struct Estimates {
    pub raw: Vec<u32>,
    pub shifted: Vec<u16>,
    pub coarse: Vec<i64>,
}

impl Estimates {
    /// Whether there are as many of each, and the coarse ones are in range.
    pub open spec fn wf(self) -> bool {
        &&& self.raw@.len() == self.shifted@.len()
        &&& self.raw@.len() == self.coarse@.len()
        &&& forall|i: int| 0 <= i < self.coarse@.len() ==> 1 <= #[trigger] self.coarse@[i] <= 255
    }

    /// Whether there are as many of each, and the coarse ones are in range.
    pub fn is_wf(&self) -> (r: bool)
        ensures
            r == self.wf(),
    {
        if self.raw.len() != self.shifted.len() || self.raw.len() != self.coarse.len() {
            return false;
        }
        let mut i: usize = 0;
        while i < self.coarse.len()
            invariant
                i <= self.coarse@.len(),
                forall|j: int| 0 <= j < i ==> 1 <= #[trigger] self.coarse@[j] <= 255,
            decreases self.coarse@.len() - i,
        {
            if self.coarse[i] < 1 || self.coarse[i] > 255 {
                return false;
            }
            i += 1;
        }
        true
    }
}

/// Whether the raw and the shifted pitch are finite and not below zero throughout.
pub open spec fn natural_pitch(raw: Seq<u32>, shifted: Seq<u16>) -> bool {
    &&& forall|i: int| 0 <= i < raw.len() ==> bits::single_is_natural(#[trigger] raw[i])
    &&& forall|i: int| 0 <= i < shifted.len() ==> bits::half_is_natural(#[trigger] shifted[i])
}

/// What is wrong with shifts or estimates.
pub open spec fn update_fault(e: Estimates, tune: u64, formant: u64) -> Option<Seq<char>> {
    if !bits::double_between(tune, -48, 48) || !bits::double_between(formant, -12, 12) {
        Some("invalid pitch shift"@)
    } else if !natural_pitch(e.raw@, e.shifted@) {
        Some("invalid raw F0"@)
    } else {
        None
    }
}

/// The bounds of the shifts as doubles.
proof fn lemma_bounds()
    ensures
        bits::exact_double(48) == 0x4048_0000_0000_0000,
        bits::exact_double(-48) == 0xc048_0000_0000_0000,
        bits::exact_double(12) == 0x4028_0000_0000_0000,
        bits::exact_double(-12) == 0xc028_0000_0000_0000,
{
    reveal_with_fuel(bits::highest_bit, 8);
    vstd::arithmetic::power2::lemma2_to64();
    vstd::arithmetic::power2::lemma2_to64_rest();
}

impl View for PitchState {
    type V = PitchValue;

    closed spec fn view(&self) -> PitchValue {
        PitchValue { coarse: self.coarse@, continuous: self.continuous@ }
    }
}

/// A cache of zeros.
pub open spec fn empty_cache(len: nat) -> PitchValue {
    PitchValue { coarse: Seq::new(len, |i: int| 0i64), continuous: Seq::new(len, |i: int| 0u16) }
}

impl PitchState {
    /// Whether the caches are as long as each other and hold values of a cache.
    pub open spec fn wf(&self) -> bool {
        cache_fault(self@.coarse, self@.continuous) is None
    }

    /// Caches of zeros for `features` frames and one more.
    pub fn new(features: usize) -> (r: Result<PitchState, String>)
        ensures
            if 1 <= features < 100_000 {
                r matches Ok(p) && p.wf() && p@ == empty_cache((features + 1) as nat)
            } else {
                r matches Err(e) && e@ == "invalid pitch feature length"@
            },
    {
        if features < 1 || features >= 100_000 {
            return Err("invalid pitch feature length".to_owned());
        }
        let coarse: Vec<i64> = vec![0i64; features + 1];
        let continuous: Vec<u16> = vec![0u16; features + 1];
        proof {
            let want = empty_cache((features + 1) as nat);
            assert(coarse@ =~= want.coarse);
            assert(continuous@ =~= want.continuous);
        }
        Ok(PitchState { coarse, continuous })
    }

    /// Caches with given values.
    pub fn from_cache(coarse: Vec<i64>, continuous: Vec<u16>) -> (r: Result<PitchState, String>)
        ensures
            match cache_fault(coarse@, continuous@) {
                Some(text) => r matches Err(e) && e@ == text,
                None => r matches Ok(p) && p.wf() && p@ == (PitchValue {
                    coarse: coarse@,
                    continuous: continuous@,
                }),
            },
    {
        if coarse.len() == 0 || coarse.len() != continuous.len() {
            return Err("invalid pitch cache dimensions".to_owned());
        }
        let mut i: usize = 0;
        while i < coarse.len()
            invariant
                i <= coarse@.len() == continuous@.len(),
                forall|j: int| 0 <= j < i ==> 0 <= #[trigger] coarse@[j] <= 255,
                forall|j: int| 0 <= j < i ==> bits::half_is_natural(#[trigger] continuous@[j]),
            decreases coarse@.len() - i,
        {
            if coarse[i] < 0 || coarse[i] > 255 || !is_natural_half(continuous[i]) {
                assert(!cache_values(coarse@, continuous@)) by {
                    assert(!(0 <= coarse@[i as int] <= 255) || !bits::half_is_natural(
                        continuous@[i as int],
                    ));
                }
                return Err("invalid pitch cache values".to_owned());
            }
            i += 1;
        }
        Ok(PitchState { coarse, continuous })
    }

    pub fn coarse(&self) -> (r: &Vec<i64>)
        ensures
            r@ == self@.coarse,
    {
        &self.coarse
    }

    pub fn continuous(&self) -> (r: &Vec<u16>)
        ensures
            r@ == self@.continuous,
    {
        &self.continuous
    }

    /// Fills the caches with zeros.
    pub fn reset(&mut self)
        requires
            old(self).wf(),
        ensures
            final(self).wf(),
            final(self)@ == empty_cache(old(self)@.coarse.len()),
    {
        let n: usize = self.coarse.len();
        self.coarse = vec![0i64; n];
        self.continuous = vec![0u16; n];
        proof {
            let want = empty_cache(n as nat);
            assert(self.coarse@ =~= want.coarse);
            assert(self.continuous@ =~= want.continuous);
        }
    }

    /// Appends a window of estimates. Anything wrong leaves the caches as they are.
    pub fn update(&mut self, e: &Estimates, tune: u64, formant: u64) -> (r: Result<(), String>)
        requires
            old(self).wf(),
            e.wf(),
        ensures
            final(self).wf(),
            updates(
                old(self)@,
                *e,
                tune,
                formant,
                if e.raw@.len() < old(self)@.coarse.len() {
                    e.raw@.len() as int
                } else {
                    old(self)@.coarse.len() as int
                },
                final(self)@,
                r,
            ),
    {
        let n: usize = self.coarse.len();
        let count: usize = if e.raw.len() < n {
            e.raw.len()
        } else {
            n
        };
        self.update_inner(e, tune, formant, count)
    }

    /// Appends a window of estimates that overlaps what is known: the history moves on by the `hop`
    /// frames that have passed, and the whole window is written over its end.
    pub fn update_aligned(&mut self, e: &Estimates, tune: u64, formant: u64, hop: usize) -> (r: Result<
        (),
        String,
    >)
        requires
            old(self).wf(),
            e.wf(),
        ensures
            final(self).wf(),
            if hop == 0 || hop > e.raw@.len() || hop > old(self)@.coarse.len() {
                &&& r matches Err(m)
                &&& m@ == "invalid pitch history hop"@
                &&& final(self)@ == old(self)@
            } else {
                updates(old(self)@, *e, tune, formant, hop as int, final(self)@, r)
            },
    {
        if hop == 0 || hop > e.raw.len() || hop > self.coarse.len() {
            return Err("invalid pitch history hop".to_owned());
        }
        self.update_inner(e, tune, formant, hop)
    }

    fn update_inner(&mut self, e: &Estimates, tune: u64, formant: u64, shift: usize) -> (r: Result<
        (),
        String,
    >)
        requires
            old(self).wf(),
            e.wf(),
            shift <= old(self)@.coarse.len(),
            shift <= e.raw@.len(),
        ensures
            final(self).wf(),
            updates(old(self)@, *e, tune, formant, shift as int, final(self)@, r),
    {
        proof {
            lemma_bounds();
        }
        if !is_between(tune, 0xc048_0000_0000_0000, 0x4048_0000_0000_0000) || !is_between(
            formant,
            0xc028_0000_0000_0000,
            0x4028_0000_0000_0000,
        ) {
            return Err("invalid pitch shift".to_owned());
        }
        if !are_natural(&e.raw, &e.shifted) {
            return Err("invalid raw F0".to_owned());
        }
        let ghost before = self@;
        renew(&mut self.coarse, &e.coarse, shift);
        renew(&mut self.continuous, &e.shifted, shift);
        proof {
            assert forall|j: int| 0 <= j < self@.coarse.len() implies 0 <= #[trigger] self@.coarse[j] <= 255 by {
                lemma_renewed_at(before.coarse, e.coarse@, shift as int, j);
            }
            assert forall|j: int| 0 <= j < self@.continuous.len() implies bits::half_is_natural(
                #[trigger] self@.continuous[j],
            ) by {
                lemma_renewed_at(before.continuous, e.shifted@, shift as int, j);
            }
        }
        Ok(())
    }

    /// The pitch of the last `features` frames, before the formant ratio is applied to it.
    pub fn generator_pitch(&self, features: usize, ratio: u32) -> (r: Result<
        (Vec<i64>, Vec<u16>),
        String,
    >)
        requires
            self.wf(),
        ensures
            sliced(self@, features as int, ratio, r),
    {
        let n: usize = self.coarse.len();
        if features == 0 || features >= n || ratio == 0 || ratio >= 0x7f80_0000 {
            return Err("invalid generator pitch slice".to_owned());
        }
        let mut coarse: Vec<i64> = Vec::new();
        let mut continuous: Vec<u16> = Vec::new();
        let mut i: usize = n - features;
        while i < n
            invariant
                n - features <= i <= n,
                features < n,
                n == self.coarse@.len() == self.continuous@.len(),
                coarse@ == self.coarse@.subrange(n - features, i as int),
                continuous@ == self.continuous@.subrange(n - features, i as int),
            decreases n - i,
        {
            coarse.push(self.coarse[i]);
            continuous.push(self.continuous[i]);
            i += 1;
            assert(coarse@ =~= self.coarse@.subrange(n - features, i as int));
            assert(continuous@ =~= self.continuous@.subrange(n - features, i as int));
        }
        assert(coarse@ =~= self.coarse@.skip(n - features));
        assert(continuous@ =~= self.continuous@.skip(n - features));
        Ok((coarse, continuous))
    }
}

/// The pitch under the formant ratio has to stay finite.
pub fn check_scaled(pitchf: &[u16]) -> (r: Result<(), String>)
    ensures
        if forall|i: int| 0 <= i < pitchf@.len() ==> bits::half_is_finite(#[trigger] pitchf@[i]) {
            r is Ok
        } else {
            r matches Err(e) && e@ == "formant pitch overflow"@
        },
{
    let mut i: usize = 0;
    while i < pitchf.len()
        invariant
            i <= pitchf@.len(),
            forall|j: int| 0 <= j < i ==> bits::half_is_finite(#[trigger] pitchf@[j]),
        decreases pitchf@.len() - i,
    {
        if !is_finite_half(pitchf[i]) {
            assert(!bits::half_is_finite(pitchf@[i as int]));
            return Err("formant pitch overflow".to_owned());
        }
        i += 1;
    }
    Ok(())
}

/// Whether the raw and the shifted pitch are finite and not below zero throughout.
fn are_natural(raw: &Vec<u32>, shifted: &Vec<u16>) -> (r: bool)
    requires
        raw@.len() == shifted@.len(),
    ensures
        r == natural_pitch(raw@, shifted@),
{
    let mut i: usize = 0;
    while i < raw.len()
        invariant
            i <= raw@.len() == shifted@.len(),
            forall|j: int| 0 <= j < i ==> bits::single_is_natural(#[trigger] raw@[j]),
            forall|j: int| 0 <= j < i ==> bits::half_is_natural(#[trigger] shifted@[j]),
        decreases raw@.len() - i,
    {
        if !is_natural_single(raw[i]) || !is_natural_half(shifted[i]) {
            assert(!bits::single_is_natural(raw@[i as int]) || !bits::half_is_natural(
                shifted@[i as int],
            ));
            return false;
        }
        i += 1;
    }
    true
}

proof fn lemma_renewed_at<T>(cache: Seq<T>, estimates: Seq<T>, shift: int, j: int)
    requires
        0 <= shift <= cache.len(),
        shift <= estimates.len(),
        0 <= j < cache.len(),
    ensures
        renewed(cache, estimates, shift).len() == cache.len(),
        ({
            let at = estimates.len() - (cache.len() - j);
            renewed(cache, estimates, shift)[j] == if 0 <= at {
                estimates[at]
            } else if j + shift < cache.len() {
                cache[j + shift]
            } else {
                cache[j]
            }
        }),
{
}

fn renew<T: Copy>(cache: &mut Vec<T>, estimates: &Vec<T>, shift: usize)
    requires
        shift <= old(cache)@.len(),
        shift <= estimates@.len(),
    ensures
        final(cache)@ == renewed(old(cache)@, estimates@, shift as int),
        final(cache)@.len() == old(cache)@.len(),
{
    let n: usize = cache.len();
    let m: usize = estimates.len();
    let ghost before = cache@;
    let count: usize = if m < n {
        m
    } else {
        n
    };
    if count == 0 {
        return;
    }
    let mut i: usize = 0;
    while i < n - shift
        invariant
            i <= n - shift,
            shift <= n == before.len(),
            cache@.len() == n,
            forall|j: int| 0 <= j < i ==> cache@[j] == before[j + shift],
            forall|j: int| i <= j < n ==> cache@[j] == before[j],
        decreases n - shift - i,
    {
        let v: T = cache[i + shift];
        cache.set(i, v);
        i += 1;
    }
    let ghost moved = cache@;
    assert(moved =~= before.skip(shift as int) + before.skip(n - shift));
    let mut k: usize = 0;
    while k < count
        invariant
            k <= count <= n,
            count <= m == estimates@.len(),
            moved.len() == n,
            cache@.len() == n,
            forall|j: int| 0 <= j < n - count ==> cache@[j] == moved[j],
            forall|j: int|
                n - count <= j < n - count + k ==> #[trigger] cache@[j] == estimates@[m - count + (j
                    - (n - count))],
        decreases count - k,
    {
        cache.set(n - count + k, estimates[m - count + k]);
        k += 1;
    }
    assert(cache@ =~= renewed(before, estimates@, shift as int));
}

/// An aligned history keeps its times: where the cache holds the values of the frames up to `end`
/// and the estimates those of the frames up to `hop` later, the cache then holds the values of the
/// frames up to `hop` later, each at its place.
pub proof fn law_aligned_history_keeps_its_times<T>(
    cache: Seq<T>,
    estimates: Seq<T>,
    hop: int,
    end: int,
    value: spec_fn(int) -> T,
)
    requires
        0 < hop <= cache.len(),
        hop <= estimates.len(),
        forall|i: int| 0 <= i < cache.len() ==> #[trigger] cache[i] == value(end - cache.len() + i),
        forall|i: int|
            0 <= i < estimates.len() ==> #[trigger] estimates[i] == value(
                end + hop - estimates.len() + i,
            ),
    ensures
        renewed(cache, estimates, hop).len() == cache.len(),
        forall|i: int|
            0 <= i < cache.len() ==> #[trigger] renewed(cache, estimates, hop)[i] == value(
                end + hop - cache.len() + i,
            ),
{
    assert forall|i: int| 0 <= i < cache.len() implies #[trigger] renewed(cache, estimates, hop)[i]
        == value(end + hop - cache.len() + i) by {
        lemma_renewed_at(cache, estimates, hop, i);
        let at = estimates.len() - (cache.len() - i);
        if 0 <= at {
            assert(estimates[at] == value(end + hop - estimates.len() + at));
        } else {
            assert(i + hop < cache.len());
            assert(cache[i + hop] == value(end - cache.len() + (i + hop)));
        }
    }
    lemma_renewed_at(cache, estimates, hop, 0);
}

/// The newest window is the same either way: aligned or not, the end of the cache holds the last
/// estimates.
pub proof fn law_newest_window_is_whole<T>(cache: Seq<T>, estimates: Seq<T>, shift: int)
    requires
        0 <= shift <= cache.len(),
        0 < shift <= estimates.len(),
        estimates.len() <= cache.len(),
    ensures
        renewed(cache, estimates, shift).skip(cache.len() - estimates.len()) == estimates,
{
    assert(renewed(cache, estimates, shift).skip(cache.len() - estimates.len()) =~= estimates);
}

/// A voiced frame takes the nine bins round its peak, four on either side as far as there are bins; it is
/// voiced where its peak reaches the threshold.
pub proof fn law_nine_bins_round_the_peak(frame: Seq<u16>, threshold: u16, at: int)
    requires
        frame.len() == 360,
        0 <= at < 360,
        forall|i: int| 0 <= i < at ==> bits::half_rank(#[trigger] frame[i]) < bits::half_rank(frame[at]),
        forall|i: int| at <= i < 360 ==> bits::half_rank(#[trigger] frame[i]) <= bits::half_rank(frame[at]),
    ensures
        bits::half_rank(frame[at]) < bits::half_rank(threshold) ==> frame_pitch(frame, threshold)
            == FramePitch::Unvoiced,
        bits::half_rank(frame[at]) >= bits::half_rank(threshold) ==> {
            &&& frame_pitch(frame, threshold) matches FramePitch::Voiced { center, from, to }
            &&& center == at
            &&& at >= 4 ==> from == at - 4
            &&& at < 4 ==> from == 0
            &&& at <= 355 ==> to == at + 5
            &&& at > 355 ==> to == 360
        },
{
    lemma_first_peak(frame, 360);
    let peak = first_peak(frame, 360);
    if peak < at {
        assert(bits::half_rank(frame[at]) <= bits::half_rank(frame[peak]));
    }
    if peak > at {
        assert(bits::half_rank(frame[at]) < bits::half_rank(frame[peak]));
    }
}

/// The frames of a salience map stand one after the other, 360 bins each.
pub proof fn law_frames_stand_in_a_row(hidden: Seq<u16>, i: int, bin: int)
    requires
        0 <= i,
        360 * (i + 1) <= hidden.len(),
        0 <= bin < 360,
    ensures
        frame_at(hidden, i).len() == 360,
        frame_at(hidden, i)[bin] == hidden[360 * i + bin],
{
}

/// A salience map is taken where it has whole frames, no salience is negative or without end, and the threshold
/// lies between zero and one.
pub proof fn law_salience_is_taken(hidden: Seq<u16>, threshold: u32)
    ensures
        decode_fault(hidden, threshold) is None <==> {
            &&& hidden.len() as int % 360 == 0
            &&& threshold <= 0x3f80_0000 || threshold == 0x8000_0000
            &&& forall|i: int|
                0 <= i < hidden.len() ==> (#[trigger] hidden[i]) < 0x7c00 || hidden[i] == 0x8000
        },
{
    assert forall|i: int| 0 <= i < hidden.len() implies bits::half_is_natural(#[trigger] hidden[i]) == (
    hidden[i] < 0x7c00 || hidden[i] == 0x8000) by {}
}

/// A cache is taken where its two sides are as long, and not empty, with coarse pitches from 0 to 255 and
/// continuous ones that are finite and not below zero.
pub proof fn law_caches_are_taken(coarse: Seq<i64>, continuous: Seq<u16>)
    ensures
        cache_fault(coarse, continuous) is None <==> {
            &&& coarse.len() == continuous.len() > 0
            &&& forall|i: int| 0 <= i < coarse.len() ==> 0 <= #[trigger] coarse[i] <= 255
            &&& forall|i: int|
                0 <= i < continuous.len() ==> (#[trigger] continuous[i]) < 0x7c00 || continuous[i]
                    == 0x8000
        },
{
    assert forall|i: int| 0 <= i < continuous.len() implies bits::half_is_natural(
        #[trigger] continuous[i],
    ) == (continuous[i] < 0x7c00 || continuous[i] == 0x8000) by {}
}

/// Whole shifts are taken up to 48 semitones for the pitch and 12 for the formants, with estimates that are
/// finite and not below zero.
pub proof fn law_shifts_are_taken(e: Estimates, tune: int, formant: int)
    requires
        -0x10_0000_0000 < tune < 0x10_0000_0000,
        -0x10_0000_0000 < formant < 0x10_0000_0000,
    ensures
        update_fault(e, bits::exact_double(tune) as u64, bits::exact_double(formant) as u64) is None <==> {
            &&& -48 <= tune <= 48
            &&& -12 <= formant <= 12
            &&& forall|i: int|
                0 <= i < e.raw@.len() ==> (#[trigger] e.raw@[i]) < 0x7f80_0000 || e.raw@[i] == 0x8000_0000
            &&& forall|i: int|
                0 <= i < e.shifted@.len() ==> (#[trigger] e.shifted@[i]) < 0x7c00 || e.shifted@[i]
                    == 0x8000
        },
{
    bits::law_integers_lie_between(tune, -48, 48);
    bits::law_integers_lie_between(formant, -12, 12);
    assert forall|i: int| 0 <= i < e.raw@.len() implies bits::single_is_natural(#[trigger] e.raw@[i]) == (
    e.raw@[i] < 0x7f80_0000 || e.raw@[i] == 0x8000_0000) by {}
    assert forall|i: int| 0 <= i < e.shifted@.len() implies bits::half_is_natural(
        #[trigger] e.shifted@[i],
    ) == (e.shifted@[i] < 0x7c00 || e.shifted@[i] == 0x8000) by {}
}

/// Estimates of more frames than a cache has fill it with the newest of them.
pub proof fn law_long_windows_fill_the_cache<T>(cache: Seq<T>, estimates: Seq<T>, shift: int, i: int)
    requires
        0 < cache.len() <= estimates.len(),
        0 <= shift <= cache.len(),
        0 <= i < cache.len(),
    ensures
        renewed(cache, estimates, shift).len() == cache.len(),
        renewed(cache, estimates, shift)[i] == estimates[estimates.len() - cache.len() + i],
{
}

/// Whether a window of estimates is appended so, the caches having moved on by `shift` frames. Anything wrong leaves
/// them as they are.
pub open spec fn updates(
    before: PitchValue,
    e: Estimates,
    tune: u64,
    formant: u64,
    shift: int,
    after: PitchValue,
    r: Result<(), String>,
) -> bool {
    match update_fault(e, tune, formant) {
        Some(text) => {
            &&& r matches Err(m)
            &&& m@ == text
            &&& after == before
        },
        None => {
            &&& r is Ok
            &&& after == (PitchValue {
                coarse: renewed(before.coarse, e.coarse@, shift),
                continuous: renewed(before.continuous, e.shifted@, shift),
            })
        },
    }
}

/// Whether the pitch of the last frames is given so.
pub open spec fn sliced(
    p: PitchValue,
    features: int,
    ratio: u32,
    r: Result<(Vec<i64>, Vec<u16>), String>,
) -> bool {
    if 0 < features < p.coarse.len() && bits::single_is_finite(ratio) && bits::single_rank(ratio) > 0 {
        &&& r matches Ok((coarse, continuous))
        &&& coarse@ == p.coarse.skip(p.coarse.len() - features)
        &&& continuous@ == p.continuous.skip(p.continuous.len() - features)
    } else {
        r matches Err(e) && e@ == "invalid generator pitch slice"@
    }
}

/// The newest estimates become the end of the caches, both forms at the same places; what was known before moves on
/// by the shift. Estimates that are refused change nothing.
pub proof fn law_newest_estimates_come_last(
    before: PitchValue,
    e: Estimates,
    tune: u64,
    formant: u64,
    shift: int,
    after: PitchValue,
    r: Result<(), String>,
    i: int,
)
    requires
        updates(before, e, tune, formant, shift, after, r),
        before.continuous.len() == before.coarse.len(),
        0 < e.raw@.len() <= before.coarse.len(),
        e.coarse@.len() == e.raw@.len(),
        e.shifted@.len() == e.raw@.len(),
        0 <= shift <= before.coarse.len(),
        0 <= i < before.coarse.len(),
    ensures
        r is Err ==> after == before && update_fault(e, tune, formant) == Some(r->Err_0@),
        r is Ok ==> {
            let n = before.coarse.len();
            let m = e.raw@.len();
            &&& after.coarse.len() == n && after.continuous.len() == n
            &&& i >= n - m ==> after.coarse[i] == e.coarse@[i - (n - m)] && after.continuous[i]
                == e.shifted@[i - (n - m)]
            &&& i < n - m && i + shift < n ==> after.coarse[i] == before.coarse[i + shift]
                && after.continuous[i] == before.continuous[i + shift]
        },
{
}

/// The generator is given the pitch of the newest frames, in both forms, where there are more in the caches and the
/// ratio is finite and greater than zero.
pub proof fn law_newest_pitch_is_given(
    p: PitchValue,
    features: int,
    ratio: u32,
    r: Result<(Vec<i64>, Vec<u16>), String>,
    i: int,
)
    requires
        p.continuous.len() == p.coarse.len(),
        sliced(p, features, ratio, r),
    ensures
        r is Ok <==> 1 <= features < p.coarse.len() && 0 < ratio < 0x7f80_0000,
        r is Ok ==> {
            let (c, f) = r->Ok_0;
            &&& c@.len() == features && f@.len() == features
            &&& 0 < i <= features ==> c@[features - i] == p.coarse[p.coarse.len() - i] && f@[features - i]
                == p.continuous[p.coarse.len() - i]
        },
{
}

/// Estimates are taken where none of them is below zero and all are finite, and the shifts lie within 48 and 12
/// semitones.
pub proof fn law_natural_estimates_are_taken(e: Estimates, tune: int, formant: int)
    requires
        -1000 <= tune <= 1000,
        -1000 <= formant <= 1000,
    ensures
        update_fault(e, bits::exact_double(tune) as u64, bits::exact_double(formant) as u64) is None <==> {
            &&& -48 <= tune <= 48
            &&& -12 <= formant <= 12
            &&& forall|i: int|
                0 <= i < e.raw@.len() ==> #[trigger] e.raw@[i] < 0x7f80_0000 || e.raw@[i] == 0x8000_0000
            &&& forall|i: int|
                0 <= i < e.shifted@.len() ==> #[trigger] e.shifted@[i] < 0x7c00 || e.shifted@[i] == 0x8000
        },
{
    bits::law_integers_lie_between(tune, -48, 48);
    bits::law_integers_lie_between(formant, -12, 12);
    assert forall|x: u32| #[trigger] bits::single_is_natural(x) == (x < 0x7f80_0000 || x == 0x8000_0000) by {}
    assert forall|x: u16| #[trigger] bits::half_is_natural(x) == (x < 0x7c00 || x == 0x8000) by {}
    if natural_pitch(e.raw@, e.shifted@) {
        assert forall|i: int| 0 <= i < e.raw@.len() implies #[trigger] e.raw@[i] < 0x7f80_0000 || e.raw@[i]
            == 0x8000_0000 by {
            assert(bits::single_is_natural(e.raw@[i]));
        }
        assert forall|i: int| 0 <= i < e.shifted@.len() implies #[trigger] e.shifted@[i] < 0x7c00 || e.shifted@[i]
            == 0x8000 by {
            assert(bits::half_is_natural(e.shifted@[i]));
        }
    }
}

} // verus!
