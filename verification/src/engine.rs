//! The streaming state of an engine: sliding windows over the input at two rates, the pitch caches,
//! and the overlap that the next block is joined to. Samples are the bits of singles; what fills the
//! windows is computed elsewhere.
use crate::config::Dims;
use crate::error::{Error, ErrorValue};
use vstd::prelude::*;

verus! {

/// A window after `block` came in: as long as before, with the block at its end.
pub open spec fn slid<T>(window: Seq<T>, block: Seq<T>) -> Seq<T> {
    (window + block).skip(block.len() as int)
}

/// A window of zeros.
pub open spec fn silent<T>(len: nat, zero: T) -> Seq<T> {
    Seq::new(len, |i: int| zero)
}

/// Slides a window.
fn slide<T: Copy>(window: &mut Vec<T>, block: &[T])
    requires
        block@.len() <= old(window)@.len(),
    ensures
        final(window)@ == slid(old(window)@, block@),
{
    let n: usize = window.len();
    let k: usize = block.len();
    let ghost before = window@;
    let ghost after = slid(before, block@);
    let mut i: usize = 0;
    while i < n - k
        invariant
            i <= n - k,
            k == block@.len() <= n == before.len(),
            window@.len() == n,
            after == slid(before, block@),
            forall|j: int| 0 <= j < i ==> window@[j] == after[j],
            forall|j: int| i <= j < n ==> window@[j] == before[j],
        decreases n - k - i,
    {
        let v: T = window[i + k];
        window.set(i, v);
        i += 1;
    }
    let mut j: usize = 0;
    while j < k
        invariant
            j <= k == block@.len() <= n == before.len(),
            window@.len() == n,
            after == slid(before, block@),
            forall|l: int| 0 <= l < n - k + j ==> window@[l] == after[l],
        decreases k - j,
    {
        window.set(n - k + j, block[j]);
        j += 1;
    }
    assert(window@ =~= after);
}

/// The last `n` values of a window.
fn tail<T: Copy>(window: &Vec<T>, n: usize) -> (r: Vec<T>)
    requires
        n <= window@.len(),
    ensures
        r@ == window@.skip(window@.len() - n),
{
    let len: usize = window.len();
    let mut out: Vec<T> = Vec::new();
    let mut i: usize = len - n;
    while i < len
        invariant
            n <= len == window@.len(),
            len - n <= i <= len,
            out@ == window@.subrange(len - n, i as int),
        decreases len - i,
    {
        out.push(window[i]);
        i += 1;
        assert(out@ =~= window@.subrange(len - n, i as int));
    }
    assert(window@.subrange(len - n, len as int) =~= window@.skip(len - n));
    out
}

fn zeros(n: usize) -> (r: Vec<u32>)
    ensures
        r@ == silent(n as nat, 0u32),
{
    let r: Vec<u32> = vec![0u32; n];
    assert(r@ =~= silent(n as nat, 0u32));
    r
}

/// The streaming state.
pub struct Stream {
    dims: Dims,
    input_wav: Vec<u32>,
    input_wav_res: Vec<u32>,
    sola_buffer: Vec<u32>,
    cache_pitch: Vec<i64>,
    cache_pitchf: Vec<u32>,
}

/// What a [`Stream`] holds.
pub struct StreamValue {
    pub input: Seq<u32>,
    pub input16: Seq<u32>,
    pub overlap: Seq<u32>,
    pub pitch: Seq<i64>,
    pub pitchf: Seq<u32>,
}

/// A stream before anything came in.
pub open spec fn quiet(d: Dims) -> StreamValue {
    StreamValue {
        input: silent(d.input_wav_len as nat, 0u32),
        input16: silent(d.n16 as nat, 0u32),
        overlap: silent(d.sola_buffer_frame as nat, 0u32),
        pitch: silent(d.pitch_cache_len as nat, 0i64),
        pitchf: silent(d.pitch_cache_len as nat, 0u32),
    }
}

/// A cache after the estimates of a window came in: it moves on by the hops of a block, and its end
/// is overwritten with the estimates but for the first three and the last.
pub open spec fn cached<T>(cache: Seq<T>, shift: int, estimates: Seq<T>) -> Seq<T> {
    let moved = cache.skip(shift) + cache.skip(cache.len() - shift);
    let inner = estimates.subrange(3, estimates.len() - 1);
    moved.take(cache.len() - inner.len()) + inner
}

/// Whether sizes fit together as those of a computed layout do.
pub open spec fn dims_fit(d: Dims) -> bool {
    &&& d.block_frame <= d.input_wav_len
    &&& d.block_frame + 2 * d.zc <= d.input_wav_len
    &&& d.block_frame_16k <= d.n16
    &&& d.block_frame_16k as int / 160 <= d.pitch_cache_len
    &&& d.f0_extractor_frame <= d.n16
    &&& d.p_len <= d.pitch_cache_len
    &&& d.f0_frames <= d.pitch_cache_len + 4
    &&& d.f0_frames >= 4
}

impl View for Stream {
    type V = StreamValue;

    closed spec fn view(&self) -> StreamValue {
        StreamValue {
            input: self.input_wav@,
            input16: self.input_wav_res@,
            overlap: self.sola_buffer@,
            pitch: self.cache_pitch@,
            pitchf: self.cache_pitchf@,
        }
    }
}

impl Stream {
    pub closed spec fn layout(&self) -> Dims {
        self.dims
    }

    pub open spec fn wf(&self) -> bool {
        let d = self.layout();
        &&& dims_fit(d)
        &&& self@.input.len() == d.input_wav_len
        &&& self@.input16.len() == d.n16
        &&& self@.overlap.len() == d.sola_buffer_frame
        &&& self@.pitch.len() == d.pitch_cache_len
        &&& self@.pitchf.len() == d.pitch_cache_len
    }

    /// A stream before anything came in.
    pub fn new(dims: Dims) -> (r: Stream)
        requires
            dims_fit(dims),
        ensures
            r.wf(),
            r.layout() == dims,
            r@ == quiet(dims),
    {
        let cache_pitch: Vec<i64> = vec![0i64; dims.pitch_cache_len];
        assert(cache_pitch@ =~= silent(dims.pitch_cache_len as nat, 0i64));
        Stream {
            dims,
            input_wav: zeros(dims.input_wav_len),
            input_wav_res: zeros(dims.n16),
            sola_buffer: zeros(dims.sola_buffer_frame),
            cache_pitch,
            cache_pitchf: zeros(dims.pitch_cache_len),
        }
    }

    /// Forgets everything that came in.
    pub fn reset(&mut self)
        requires
            old(self).wf(),
        ensures
            final(self).wf(),
            final(self).layout() == old(self).layout(),
            final(self)@ == quiet(old(self).layout()),
    {
        *self = Stream::new(self.dims);
    }

    /// The samples of a block.
    pub fn block_frames(&self) -> (r: usize)
        ensures
            r == self.layout().block_frame,
    {
        self.dims.block_frame
    }

    /// Takes a block of input. One of another size is refused and changes nothing.
    pub fn accept(&mut self, block: &[u32]) -> (r: Result<(), Error>)
        requires
            old(self).wf(),
        ensures
            final(self).wf(),
            final(self).layout() == old(self).layout(),
            accepts(old(self)@, old(self).layout(), block@, final(self)@, r),
    {
        if block.len() != self.dims.block_frame {
            return Err(Error::BlockSize { expected: self.dims.block_frame, got: block.len() });
        }
        slide(&mut self.input_wav, block);
        Ok(())
    }

    /// What is resampled for a block: the block and two hops before it.
    pub fn recent(&self) -> (r: Vec<u32>)
        requires
            self.wf(),
        ensures
            r@ == recent_of(self@, self.layout()),
    {
        let n: usize = self.input_wav.len();
        tail(&self.input_wav, self.dims.block_frame + 2 * self.dims.zc)
    }

    /// Takes the resampled block: the end of what [`Stream::recent`] becomes at 16 kHz. Its first hop
    /// is not used.
    pub fn accept_resampled(&mut self, resampled: &[u32])
        requires
            old(self).wf(),
            resampled@.len() >= old(self).layout().block_frame_16k + 160,
        ensures
            final(self).wf(),
            final(self).layout() == old(self).layout(),
            final(self)@ == with_resampled(old(self)@, old(self).layout(), resampled@),
    {
        let n: usize = resampled.len();
        let k: usize = self.dims.block_frame_16k;
        let mut block: Vec<u32> = Vec::new();
        let mut i: usize = n - k;
        while i < n
            invariant
                k <= n == resampled@.len(),
                n - k <= i <= n,
                block@ == resampled@.subrange(n - k, i as int),
            decreases n - i,
        {
            block.push(resampled[i]);
            i += 1;
            assert(block@ =~= resampled@.subrange(n - k, i as int));
        }
        assert(block@ =~= resampled@.skip(n - k));
        slide(&mut self.input_wav_res, block.as_slice());
    }

    /// What the pitch is taken from: the end of the input at 16 kHz.
    pub fn pitch_input(&self) -> (r: Vec<u32>)
        requires
            self.wf(),
        ensures
            r@ == pitch_input_of(self@, self.layout()),
    {
        tail(&self.input_wav_res, self.dims.f0_extractor_frame)
    }

    /// Takes the pitch estimates of a window.
    pub fn accept_pitch(&mut self, pitch: &[i64], pitchf: &[u32])
        requires
            old(self).wf(),
            pitch@.len() == old(self).layout().f0_frames,
            pitchf@.len() == old(self).layout().f0_frames,
        ensures
            final(self).wf(),
            final(self).layout() == old(self).layout(),
            final(self)@ == with_pitch(old(self)@, old(self).layout(), pitch@, pitchf@),
    {
        let shift: usize = self.dims.block_frame_16k / 160;
        renew(&mut self.cache_pitch, shift, pitch);
        renew(&mut self.cache_pitchf, shift, pitchf);
    }

    /// The pitch of the context: the ends of the caches.
    pub fn context_pitch(&self) -> (r: (Vec<i64>, Vec<u32>))
        requires
            self.wf(),
        ensures
            (r.0@, r.1@) == context_of(self@, self.layout()),
    {
        (tail(&self.cache_pitch, self.dims.p_len), tail(&self.cache_pitchf, self.dims.p_len))
    }

    /// The whole input, the newest samples last.
    pub fn input(&self) -> (r: &Vec<u32>)
        ensures
            r@ == self@.input,
    {
        &self.input_wav
    }

    /// The whole input at 16 kHz, the newest samples last.
    pub fn resampled(&self) -> (r: &Vec<u32>)
        ensures
            r@ == self@.input16,
    {
        &self.input_wav_res
    }

    /// The features of the context out of the rows of the whole input.
    pub fn features(&self, rows: &[u32]) -> (r: Vec<u32>)
        requires
            self.wf(),
            rows@.len() > 0,
            rows@.len() % ROW_SIZE as nat == 0,
            (self.layout().p_len - 1) / 2 <= rows@.len() / ROW_SIZE as nat,
        ensures
            r@ == spread(rows@, self.layout().p_len as int),
    {
        let len: usize = rows.len();
        let count: usize = len / ROW_SIZE;
        let frames: usize = self.dims.p_len;
        let ghost all = spread(rows@, frames as int);
        let mut out: Vec<u32> = Vec::new();
        let mut i: usize = 0;
        while i < frames
            invariant
                i <= frames,
                frames == self.dims.p_len,
                0 < count,
                count * ROW_SIZE == len,
                len == rows@.len(),
                (frames - 1) / 2 <= count,
                all == spread(rows@, frames as int),
                out@ == all.take(i * ROW_SIZE),
            decreases frames - i,
        {
            let from: usize = feature_row(i, count) * ROW_SIZE;
            let mut j: usize = 0;
            while j < ROW_SIZE
                invariant
                    i < frames,
                    j <= ROW_SIZE,
                    count * ROW_SIZE == len,
                    len == rows@.len(),
                    from == row_of(i as int, count as int) * ROW_SIZE,
                    from + ROW_SIZE <= len,
                    all == spread(rows@, frames as int),
                    out@ == all.take(i * ROW_SIZE + j),
                decreases ROW_SIZE - j,
            {
                out.push(rows[from + j]);
                assert((i * ROW_SIZE + j) / ROW_SIZE as int == i && (i * ROW_SIZE + j)
                    % ROW_SIZE as int == j);
                assert(all.take(i * ROW_SIZE + j + 1) =~= all.take(i * ROW_SIZE + j).push(
                    all[i * ROW_SIZE + j],
                ));
                j += 1;
            }
            i += 1;
        }
        assert(all.take(frames * ROW_SIZE) =~= all);
        out
    }

    /// The samples that a block is joined to.
    pub fn overlap(&self) -> (r: &Vec<u32>)
        ensures
            r@ == self@.overlap,
    {
        &self.sola_buffer
    }

    /// Ends a block: of what was generated, already joined from `from` on, the block goes out and
    /// what follows it is kept to join the next one to.
    pub fn emit(&mut self, joined: &[u32], from: usize) -> (r: Vec<u32>)
        requires
            old(self).wf(),
            from + old(self).layout().block_frame + old(self).layout().sola_buffer_frame
                <= joined@.len(),
        ensures
            final(self).wf(),
            final(self).layout() == old(self).layout(),
            (final(self)@, r@) == emitted(old(self)@, old(self).layout(), joined@, from as int),
    {
        let n: usize = joined.len();
        let middle: usize = from + self.dims.block_frame;
        let end: usize = middle + self.dims.sola_buffer_frame;
        let out = copy_range(joined, from, middle);
        self.sola_buffer = copy_range(joined, middle, end);
        out
    }
}

fn copy_range(xs: &[u32], from: usize, to: usize) -> (r: Vec<u32>)
    requires
        from <= to <= xs@.len(),
    ensures
        r@ == xs@.subrange(from as int, to as int),
{
    let mut out: Vec<u32> = Vec::new();
    let mut i: usize = from;
    while i < to
        invariant
            from <= i <= to <= xs@.len(),
            out@ == xs@.subrange(from as int, i as int),
        decreases to - i,
    {
        out.push(xs[i]);
        i += 1;
        assert(out@ =~= xs@.subrange(from as int, i as int));
    }
    out
}

/// Moves a cache on and overwrites its end.
fn renew<T: Copy>(cache: &mut Vec<T>, shift: usize, estimates: &[T])
    requires
        shift <= old(cache)@.len(),
        4 <= estimates@.len() <= old(cache)@.len() + 4,
    ensures
        final(cache)@ == cached(old(cache)@, shift as int, estimates@),
        final(cache)@.len() == old(cache)@.len(),
{
    let n: usize = cache.len();
    let total: usize = estimates.len();
    let m: usize = total - 4;
    let ghost before = cache@;
    let ghost moved = before.skip(shift as int) + before.skip(n - shift);
    let mut i: usize = 0;
    while i < n - shift
        invariant
            i <= n - shift,
            shift <= n == before.len(),
            cache@.len() == n,
            forall|j: int| 0 <= j < i ==> cache@[j] == before[j + shift],
            forall|j: int| i <= j < n ==> cache@[j] == before[j],
        decreases n - shift - i,
    {
        let v: T = cache[i + shift];
        cache.set(i, v);
        i += 1;
    }
    assert(cache@ =~= moved);
    let mut k: usize = 0;
    while k < m
        invariant
            k <= m <= n,
            m + 4 == total == estimates@.len(),
            moved.len() == n,
            cache@.len() == n,
            forall|j: int| 0 <= j < n - m ==> cache@[j] == moved[j],
            forall|j: int| 0 <= j < k ==> cache@[n - m + j] == #[trigger] estimates@[3 + j],
        decreases m - k,
    {
        cache.set(n - m + k, estimates[3 + k]);
        k += 1;
    }
    let ghost want = cached(before, shift as int, estimates@);
    assert forall|j: int| 0 <= j < n implies cache@[j] == want[j] by {
        if j >= n - m {
            let l = j - (n - m);
            assert(cache@[n - m + l] == estimates@[3 + l]);
        }
    }
    assert(cache@ =~= want);
}

/// The window always holds the last samples of what came in, after as much silence as it is long.
pub proof fn law_window_is_the_end_of_the_stream<T>(zero: T, len: nat, stream: Seq<T>, block: Seq<T>)
    requires
        block.len() <= len,
    ensures
        slid((silent(len, zero) + stream).skip(stream.len() as int), block) == (silent(len, zero) + (
        stream + block)).skip((stream + block).len() as int),
{
    assert(slid((silent(len, zero) + stream).skip(stream.len() as int), block) =~= (silent(
        len,
        zero,
    ) + (stream + block)).skip((stream + block).len() as int));
}

/// A computed layout makes a stream.
pub proof fn law_layout_makes_a_stream(
    model: crate::config::Model,
    s: crate::config::Startup,
    h: crate::config::Hops,
    return_length2: usize,
    upp_res: usize,
)
    requires
        s.fault() is None,
        crate::config::countable(s, h),
        h.extra >= 50,
        crate::config::refused(model, s, h) is None,
    ensures
        dims_fit(crate::config::layout(model, s, h, return_length2, upp_res)),
{
    let zc = crate::config::hop(s.sample_rate as int);
    let c = crate::config::context(h);
    crate::config::law_layout_fits(model, s, h, return_length2, upp_res);
    assert(h.block * zc + 2 * zc <= c * zc) by (nonlinear_arith)
        requires
            h.block + 2 <= c,
            zc >= 0,
    ;
    assert(0 <= h.block * zc) by (nonlinear_arith)
        requires
            zc >= 0,
    ;
}

/// The feature row of a frame of the context: each row serves two frames, and the last row is there
/// once more.
pub open spec fn row_of(frame: int, rows: int) -> int {
    if frame / 2 < rows {
        frame / 2
    } else {
        rows - 1
    }
}

/// The feature row of a frame of the context.
pub fn feature_row(frame: usize, rows: usize) -> (r: usize)
    requires
        rows > 0,
        frame as int / 2 <= rows,
    ensures
        r == row_of(frame as int, rows as int),
        r < rows,
{
    let row: usize = frame / 2;
    if row < rows {
        row
    } else {
        rows - 1
    }
}

/// The values of a feature row.
pub const ROW_SIZE: usize = 768;

/// The features of the frames of a context.
pub open spec fn spread(rows: Seq<u32>, frames: int) -> Seq<u32> {
    Seq::new(
        (frames * ROW_SIZE) as nat,
        |k: int|
            rows[row_of(k / ROW_SIZE as int, rows.len() as int / ROW_SIZE as int) * ROW_SIZE + k
                % ROW_SIZE as int],
    )
}

/// A window keeps its length; the block stands at its end, and what was there moves ahead of it.
pub proof fn law_block_comes_last<T>(window: Seq<T>, block: Seq<T>, i: int)
    requires
        block.len() <= window.len(),
    ensures
        slid(window, block).len() == window.len(),
        0 <= i < block.len() ==> slid(window, block)[window.len() - block.len() + i] == block[i],
        block.len() <= i < window.len() ==> slid(window, block)[i - block.len()] == window[i],
{
}

/// The newest estimates stand at the end of a cache, without the first three and the last of their window, and
/// what was estimated before moves ahead by the hops of the block.
pub proof fn law_estimates_are_kept<T>(cache: Seq<T>, shift: int, estimates: Seq<T>, k: int)
    requires
        0 <= shift <= cache.len(),
        4 <= estimates.len() <= cache.len() + 4,
    ensures
        ({
            let after = cached(cache, shift, estimates);
            let inner = estimates.len() - 4;
            &&& after.len() == cache.len()
            &&& 3 <= k < estimates.len() - 1 ==> after[cache.len() - inner + (k - 3)] == estimates[k]
            &&& shift <= k < cache.len() && k - shift < cache.len() - inner ==> after[k - shift]
                == cache[k]
        }),
{
}

/// Every feature row serves two frames in a row, and the last one all that are left.
pub proof fn law_rows_serve_two_frames(row: int, frame: int, rows: int)
    requires
        0 <= row < rows,
        0 <= frame,
    ensures
        row_of(2 * row, rows) == row,
        row_of(2 * row + 1, rows) == row,
        frame >= 2 * rows ==> row_of(frame, rows) == rows - 1,
{
}

/// The features of a frame are the values of its row, in their order.
pub proof fn law_frames_take_whole_rows(rows: Seq<u32>, frames: int, frame: int, value: int)
    requires
        0 <= frame < frames,
        0 <= value < 768,
        rows.len() as int % 768 == 0,
        2 * (rows.len() as int / 768) > frame,
    ensures
        spread(rows, frames).len() == 768 * frames,
        spread(rows, frames)[768 * frame + value] == rows[768 * (frame / 2) + value],
{
    assert((768 * frame + value) / 768 == frame && (768 * frame + value) % 768 == value);
}

/// Before anything came in, and after a reset, every window and cache is silent and of its size.
pub proof fn law_quiet_is_silent(d: Dims, i: int)
    requires
        0 <= i,
    ensures
        ({
            let q = quiet(d);
            &&& q.input.len() == d.input_wav_len && q.input16.len() == d.n16
            &&& q.overlap.len() == d.sola_buffer_frame
            &&& q.pitch.len() == d.pitch_cache_len && q.pitchf.len() == d.pitch_cache_len
            &&& i < q.input.len() ==> q.input[i] == 0
            &&& i < q.input16.len() ==> q.input16[i] == 0
            &&& i < q.overlap.len() ==> q.overlap[i] == 0
            &&& i < q.pitch.len() ==> q.pitch[i] == 0 && q.pitchf[i] == 0
        }),
{
}

/// Whether a block is taken so: one of the right size moves the input on, and any other changes nothing.
pub open spec fn accepts(
    before: StreamValue,
    d: Dims,
    block: Seq<u32>,
    after: StreamValue,
    r: Result<(), Error>,
) -> bool {
    if block.len() == d.block_frame {
        &&& r is Ok
        &&& after == (StreamValue { input: slid(before.input, block), ..before })
    } else {
        &&& r matches Err(e)
        &&& e@ == (ErrorValue::BlockSize { expected: d.block_frame, got: block.len() as usize })
        &&& after == before
    }
}

/// The newest block and two hops before it.
pub open spec fn recent_of(s: StreamValue, d: Dims) -> Seq<u32> {
    s.input.skip(s.input.len() - d.block_frame - 2 * d.zc)
}

/// The stream after the end of a resampled block.
pub open spec fn with_resampled(s: StreamValue, d: Dims, resampled: Seq<u32>) -> StreamValue {
    StreamValue {
        input16: slid(s.input16, resampled.skip(resampled.len() - d.block_frame_16k)),
        ..s
    }
}

/// The end of the input at 16 kHz that the pitch is taken from.
pub open spec fn pitch_input_of(s: StreamValue, d: Dims) -> Seq<u32> {
    s.input16.skip(s.input16.len() - d.f0_extractor_frame)
}

/// The stream after the estimates of a window.
pub open spec fn with_pitch(s: StreamValue, d: Dims, pitch: Seq<i64>, pitchf: Seq<u32>) -> StreamValue {
    StreamValue {
        pitch: cached(s.pitch, d.block_frame_16k as int / 160, pitch),
        pitchf: cached(s.pitchf, d.block_frame_16k as int / 160, pitchf),
        ..s
    }
}

/// The pitch of the context, in both forms.
pub open spec fn context_of(s: StreamValue, d: Dims) -> (Seq<i64>, Seq<u32>) {
    (s.pitch.skip(s.pitch.len() - d.p_len), s.pitchf.skip(s.pitchf.len() - d.p_len))
}

/// The stream after a block that goes out, and the block.
pub open spec fn emitted(s: StreamValue, d: Dims, joined: Seq<u32>, from: int) -> (StreamValue, Seq<u32>) {
    (
        StreamValue {
            overlap: joined.subrange(
                from + d.block_frame,
                from + d.block_frame + d.sola_buffer_frame,
            ),
            ..s
        },
        joined.subrange(from, from + d.block_frame),
    )
}

/// Only a block of the right size is taken; what is resampled for it ends with the block, behind two hops of what
/// came before it.
pub proof fn law_taken_blocks_are_resampled(
    before: StreamValue,
    d: Dims,
    block: Seq<u32>,
    after: StreamValue,
    r: Result<(), Error>,
    i: int,
)
    requires
        accepts(before, d, block, after, r),
        d.block_frame + 2 * d.zc <= before.input.len(),
    ensures
        r is Ok <==> block.len() == d.block_frame,
        r is Err ==> after == before,
        r is Ok ==> {
            let recent = recent_of(after, d);
            let n = before.input.len();
            &&& recent.len() == d.block_frame + 2 * d.zc
            &&& 0 <= i < d.block_frame ==> recent[2 * d.zc + i] == block[i]
            &&& 0 <= i < 2 * d.zc ==> recent[i] == before.input[n - 2 * d.zc + i]
            &&& after.input16 == before.input16 && after.pitch == before.pitch && after.pitchf
                == before.pitchf && after.overlap == before.overlap
        },
{
}

/// The pitch is taken from the newest samples at 16 kHz, which end with the end of what was resampled.
pub proof fn law_pitch_is_of_the_newest(s: StreamValue, d: Dims, resampled: Seq<u32>, i: int)
    requires
        d.block_frame_16k <= d.f0_extractor_frame <= s.input16.len(),
        d.block_frame_16k <= resampled.len(),
    ensures
        ({
            let t = with_resampled(s, d, resampled);
            let x = pitch_input_of(t, d);
            &&& t.input16.len() == s.input16.len() && x.len() == d.f0_extractor_frame
            &&& 0 < i <= d.block_frame_16k ==> x[x.len() - i] == resampled[resampled.len() - i]
            &&& d.block_frame_16k < i <= d.f0_extractor_frame ==> x[x.len() - i]
                == s.input16[s.input16.len() - (i - d.block_frame_16k)]
            &&& t.input == s.input && t.overlap == s.overlap && t.pitch == s.pitch
        }),
{
}

/// The pitch of the context ends with the last estimate but one; what was known moves on by one frame for every
/// 160 samples of a block.
pub proof fn law_context_ends_with_the_newest_pitch(
    s: StreamValue,
    d: Dims,
    pitch: Seq<i64>,
    pitchf: Seq<u32>,
    hops: int,
    k: int,
)
    requires
        d.block_frame_16k == 160 * hops,
        0 <= hops <= s.pitch.len(),
        s.pitchf.len() == s.pitch.len(),
        5 <= pitch.len() <= s.pitch.len() + 4,
        pitchf.len() == pitch.len(),
        0 < d.p_len <= s.pitch.len(),
    ensures
        ({
            let t = with_pitch(s, d, pitch, pitchf);
            let (c, f) = context_of(t, d);
            let n = s.pitch.len();
            &&& c.len() == d.p_len && f.len() == d.p_len
            &&& c.last() == pitch[pitch.len() - 2] && f.last() == pitchf[pitchf.len() - 2]
            &&& hops <= k < n && k - hops < n - (pitch.len() - 4) ==> t.pitch[k - hops] == s.pitch[k]
                && t.pitchf[k - hops] == s.pitchf[k]
            &&& t.input == s.input && t.input16 == s.input16 && t.overlap == s.overlap
        }),
{
    law_estimates_are_kept(s.pitch, hops, pitch, pitch.len() - 2);
    law_estimates_are_kept(s.pitchf, hops, pitchf, pitchf.len() - 2);
    law_estimates_are_kept(s.pitch, hops, pitch, k);
    law_estimates_are_kept(s.pitchf, hops, pitchf, k);
}

/// No sample is lost between a block and the next: what is kept to join the next one to follows the block that goes
/// out.
pub proof fn law_overlap_follows_the_block(s: StreamValue, d: Dims, joined: Seq<u32>, from: int)
    requires
        0 <= from,
        from + d.block_frame + d.sola_buffer_frame <= joined.len(),
    ensures
        ({
            let (t, block) = emitted(s, d, joined, from);
            &&& block.len() == d.block_frame && t.overlap.len() == d.sola_buffer_frame
            &&& block + t.overlap == joined.skip(from).take(d.block_frame + d.sola_buffer_frame)
            &&& t == (StreamValue { overlap: t.overlap, ..s })
        }),
{
    let (t, block) = emitted(s, d, joined, from);
    assert(block + t.overlap =~= joined.skip(from).take(d.block_frame + d.sola_buffer_frame));
}

} // verus!
