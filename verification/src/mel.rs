//! The frames that a pitch is estimated from: windows of 1024 samples around every 160th sample, the
//! signal mirrored at both ends, and the spectrogram mirrored to a whole number of blocks of frames.
use crate::bits;
use crate::bits::is_finite_single;
use crate::model;
use crate::text::join;
use vstd::prelude::*;
use vstd::string::*;

verus! {

broadcast use vstd::string::group_string_axioms;

/// The samples of a window.
pub const WINDOW: usize = 1024;

/// The channels of a spectrogram.
pub const CHANNELS: usize = 128;

/// The least that a pitch is estimated from, in samples.
pub const LEAST: usize = 3040;

/// The singles in bytes, lowest byte first.
pub open spec fn singles(bytes: Seq<u8>) -> Seq<u32> {
    Seq::new(bytes.len() / 4, |i: int| model::quad_at(bytes, 4 * i))
}

/// Whether all of them are finite.
pub open spec fn finite_singles(xs: Seq<u32>) -> bool {
    forall|i: int| 0 <= i < xs.len() ==> bits::single_is_finite(#[trigger] xs[i])
}

/// Reads `count` coefficients out of the bytes of the file `path`.
pub fn coefficients(bytes: &[u8], count: usize, path: &str) -> (r: Result<Vec<u32>, String>)
    ensures
        if bytes@.len() != count * 4 {
            r matches Err(e) && e@ == "invalid coefficient length: "@ + path@
        } else if !finite_singles(singles(bytes@)) {
            r matches Err(e) && e@ == "nonfinite coefficients"@
        } else {
            r matches Ok(xs) && xs@ == singles(bytes@)
        },
{
    let len: usize = bytes.len();
    if len % 4 != 0 || len / 4 != count {
        return Err(join("invalid coefficient length: ", path));
    }
    let ghost want = singles(bytes@);
    let mut out: Vec<u32> = Vec::new();
    let mut i: usize = 0;
    while i < count
        invariant
            i <= count,
            len == bytes@.len() == count * 4,
            want == singles(bytes@),
            out@ == want.take(i as int),
        decreases count - i,
    {
        let at: usize = 4 * i;
        let value: u32 = bytes[at] as u32 + 0x100 * bytes[at + 1] as u32 + 0x1_0000 * bytes[at
            + 2] as u32 + 0x100_0000 * bytes[at + 3] as u32;
        out.push(value);
        i += 1;
        assert(out@ =~= want.take(i as int));
    }
    assert(want.take(count as int) =~= want);
    let mut k: usize = 0;
    while k < out.len()
        invariant
            k <= out@.len(),
            out@ == want,
            want == singles(bytes@),
            bytes@.len() == count * 4,
            forall|j: int| 0 <= j < k ==> bits::single_is_finite(#[trigger] want[j]),
        decreases out@.len() - k,
    {
        if !is_finite_single(out[k]) {
            assert(!bits::single_is_finite(want[k as int]));
            return Err("nonfinite coefficients".to_owned());
        }
        k += 1;
    }
    Ok(out)
}

/// The frames of `length` samples.
pub open spec fn frames_of(length: int) -> int {
    length / 160 + 1
}

/// The smallest multiple of 32 that is no smaller than `frames`.
pub open spec fn padded_of(frames: int) -> int {
    (frames + 31) / 32 * 32
}

/// The frames of a signal, and as how many they are handed on.
pub fn layout(length: usize) -> (r: Result<(usize, usize), String>)
    ensures
        if length < LEAST {
            r matches Err(e) && e@ == "RMVPE needs at least 190ms"@
        } else {
            r matches Ok(n) && n.0 == frames_of(length as int) && n.1 == padded_of(
                frames_of(length as int),
            )
        },
{
    if length < LEAST {
        return Err("RMVPE needs at least 190ms".to_owned());
    }
    let frames: usize = length / 160 + 1;
    Ok((frames, (frames + 31) / 32 * 32))
}

/// The sample that stands at a place of a signal that is mirrored at its ends.
pub open spec fn mirrored(place: int, length: int) -> int {
    if place < 0 {
        -place
    } else if place >= length {
        2 * length - 2 - place
    } else {
        place
    }
}

/// The sample that the `n`th place of a window takes.
pub open spec fn window_index(length: int, frame: int, n: int) -> int {
    mirrored(frame * 160 + n - 512, length)
}

/// Every place of every window is a sample of the signal.
pub proof fn law_windows_stay_inside(length: int, frame: int, n: int)
    requires
        LEAST <= length,
        0 <= frame < frames_of(length),
        0 <= n < WINDOW,
    ensures
        0 <= window_index(length, frame, n) < length,
{
}

/// The sample that a place of a window takes.
pub fn sample_index(length: usize, frame: usize, n: usize) -> (r: usize)
    requires
        LEAST <= length,
        frame < frames_of(length as int),
        n < WINDOW,
    ensures
        r == window_index(length as int, frame as int, n as int),
        r < length,
{
    let base: usize = frame * 160;
    if n < 512 {
        if base < 512 - n {
            512 - n - base
        } else {
            base - (512 - n)
        }
    } else {
        let ahead: usize = n - 512;
        if ahead >= length - base {
            length - 2 - (ahead - (length - base))
        } else {
            base + ahead
        }
    }
}

/// The samples of a window.
pub open spec fn window_of(audio: Seq<u16>, frame: int) -> Seq<u16> {
    Seq::new(WINDOW as nat, |n: int| audio[window_index(audio.len() as int, frame, n)])
}

/// The samples of a window.
pub fn window(audio: &[u16], frame: usize) -> (r: Vec<u16>)
    requires
        LEAST <= audio@.len(),
        frame < frames_of(audio@.len() as int),
    ensures
        r@ == window_of(audio@, frame as int),
{
    let mut out: Vec<u16> = Vec::new();
    let mut n: usize = 0;
    while n < WINDOW
        invariant
            n <= WINDOW,
            LEAST <= audio@.len(),
            frame < frames_of(audio@.len() as int),
            out@ == window_of(audio@, frame as int).take(n as int),
        decreases WINDOW - n,
    {
        let at: usize = sample_index(audio.len(), frame, n);
        out.push(audio[at]);
        n += 1;
        assert(out@ =~= window_of(audio@, frame as int).take(n as int));
    }
    assert(window_of(audio@, frame as int).take(WINDOW as int) =~= window_of(audio@, frame as int));
    out
}

/// The frame that a padded one repeats.
pub open spec fn pad_index(frame: int, frames: int) -> int {
    if frame < frames {
        frame
    } else {
        2 * frames - 2 - frame
    }
}

/// The padding repeats frames of the signal: there are enough of them.
pub proof fn law_padding_stays_inside(length: int, frame: int)
    requires
        LEAST <= length,
        0 <= frame < padded_of(frames_of(length)),
    ensures
        0 <= pad_index(frame, frames_of(length)) < frames_of(length),
        frames_of(length) <= padded_of(frames_of(length)),
{
}

/// A spectrogram with its padding: every channel goes on with its own frames, backwards.
pub open spec fn padded_rows(rows: Seq<u16>, frames: int, padded: int) -> Seq<u16> {
    Seq::new(
        (CHANNELS * padded) as nat,
        |i: int| rows[i / padded * padded + pad_index(i % padded, frames)],
    )
}

/// Fills the padding of a spectrogram whose frames are there.
pub fn pad(rows: Vec<u16>, frames: usize, padded: usize) -> (r: Vec<u16>)
    requires
        0 < frames <= padded < 2 * frames,
        rows@.len() == CHANNELS * padded,
    ensures
        r@ == padded_rows(rows@, frames as int, padded as int),
{
    let len: usize = rows.len();
    let ghost want = padded_rows(rows@, frames as int, padded as int);
    let mut out: Vec<u16> = Vec::new();
    let mut i: usize = 0;
    while i < len
        invariant
            i <= len,
            len == rows@.len() == CHANNELS * padded,
            0 < frames <= padded < 2 * frames,
            want == padded_rows(rows@, frames as int, padded as int),
            out@ == want.take(i as int),
        decreases len - i,
    {
        proof {
            vstd::arithmetic::div_mod::lemma_fundamental_div_mod(i as int, padded as int);
            vstd::arithmetic::mul::lemma_mul_is_commutative(i as int / padded as int, padded as int);
            vstd::arithmetic::div_mod::lemma_mod_decreases(i as nat, padded as nat);
        }
        let frame: usize = i % padded;
        let first: usize = i - frame;
        proof {
            let q = i as int / padded as int;
            assert(q * padded == first);
            assert(q < CHANNELS) by (nonlinear_arith)
                requires
                    q * padded <= i,
                    i < CHANNELS * padded,
                    padded > 0,
            ;
            assert((q + 1) * padded <= CHANNELS * padded) by (nonlinear_arith)
                requires
                    q + 1 <= CHANNELS,
                    padded > 0,
            ;
            assert((q + 1) * padded == first + padded) by (nonlinear_arith)
                requires
                    q * padded == first,
            ;
        }
        let source: usize = if frame < frames {
            frame
        } else {
            frames - 2 - (frame - frames)
        };
        out.push(rows[first + source]);
        i += 1;
        assert(out@ =~= want.take(i as int));
    }
    assert(want.take(len as int) =~= want);
    out
}

/// Coefficients are four bytes each, lowest first.
pub proof fn law_coefficients_are_their_bytes(bytes: Seq<u8>, i: int)
    requires
        0 <= i < singles(bytes).len(),
    ensures
        4 * singles(bytes).len() <= bytes.len() < 4 * singles(bytes).len() + 4,
        singles(bytes)[i] as int == bytes[4 * i] + 256 * bytes[4 * i + 1] + 65536 * bytes[4 * i + 2]
            + 16777216 * bytes[4 * i + 3],
{
}

/// There is a frame for every 160 samples and one more, and they are handed on in whole blocks of 32, with
/// less than a block of padding.
pub proof fn law_frames_cover_the_signal(length: int)
    requires
        0 <= length,
    ensures
        160 * (frames_of(length) - 1) <= length < 160 * frames_of(length),
        padded_of(frames_of(length)) % 32 == 0,
        frames_of(length) <= padded_of(frames_of(length)) < frames_of(length) + 32,
{
}

/// A window is centred on its frame: from its middle on it has the samples from the frame's own on, and before
/// its middle those before it. Beyond the ends of the signal it goes back from them.
pub proof fn law_windows_are_centred(audio: Seq<u16>, frame: int, i: int)
    requires
        3040 <= audio.len(),
        0 <= frame,
        160 * frame <= audio.len(),
        -512 <= i < 512,
    ensures
        ({
            let w = window_of(audio, frame);
            let at = 160 * frame + i;
            let n = audio.len();
            &&& w.len() == 1024
            &&& 0 <= at < n ==> w[512 + i] == audio[at]
            &&& at < 0 ==> w[512 + i] == audio[-at]
            &&& at >= n ==> w[512 + i] == audio[(n - 1) - (at - (n - 1))]
        }),
{
}

/// The padding of a spectrogram goes back from its last frame, in every channel by itself, and its frames
/// stay as they are.
pub proof fn law_padding_goes_back(rows: Seq<u16>, frames: int, padded: int, channel: int, frame: int)
    requires
        0 < frames <= padded < 2 * frames,
        rows.len() == 128 * padded,
        0 <= channel < 128,
        0 <= frame < padded,
    ensures
        ({
            let r = padded_rows(rows, frames, padded);
            &&& r.len() == rows.len()
            &&& frame < frames ==> r[channel * padded + frame] == rows[channel * padded + frame]
            &&& frame >= frames ==> r[channel * padded + frame] == rows[channel * padded + (frames - 1) - (
            frame - (frames - 1))]
        }),
{
    vstd::arithmetic::div_mod::lemma_fundamental_div_mod_converse(
        channel * padded + frame,
        padded,
        channel,
        frame,
    );
    assert(0 <= channel * padded && channel * padded + padded <= 128 * padded) by (nonlinear_arith)
        requires
            0 <= channel < 128,
            padded > 0,
    ;
}

} // verus!
