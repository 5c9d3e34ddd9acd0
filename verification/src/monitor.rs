//! The hand-off from the conversion callback to the monitor stream.
//!
//! The two run on different devices with their own clocks, so their callbacks never line up: one
//! asks for samples while the other has not produced them yet, or produces two blocks between two
//! asks. A queue of samples absorbs that. The delay it may add is bounded by its target, and what it
//! cannot deliver is to be faded out.
use vstd::prelude::*;

verus! {

/// The samples that an underrun fades over: about 2 ms at 48 kHz.
pub const FADE: usize = 96;

/// A bounded queue of samples, as their bits.
pub struct MonitorBuffer {
    data: Vec<u32>,
    /// The place of the oldest sample, and the number of samples.
    start: usize,
    len: usize,
    /// The samples kept at most after a write.
    target: usize,
    missing: u64,
    dropped: u64,
}

/// What a read delivers.
pub struct Delivery {
    /// The samples that were waiting.
    pub samples: Vec<u32>,
    /// The frames behind them that fade from the last sample.
    pub faded: usize,
    /// The frames behind those, which are silent.
    pub silent: usize,
}

/// The newest `target` samples, or all where there are no more.
pub open spec fn newest(samples: Seq<u32>, target: int) -> Seq<u32> {
    if samples.len() > target {
        samples.skip(samples.len() - target)
    } else {
        samples
    }
}

/// The smaller of two numbers.
pub open spec fn least(a: int, b: int) -> int {
    if a <= b {
        a
    } else {
        b
    }
}

impl View for MonitorBuffer {
    type V = Seq<u32>;

    /// The samples that wait to be played, oldest first.
    closed spec fn view(&self) -> Seq<u32> {
        Seq::new(self.len as nat, |i: int| self.data@[(self.start + i) % self.data@.len() as int])
    }
}

impl MonitorBuffer {
    pub closed spec fn wf(&self) -> bool {
        &&& self.data@.len() > 0
        &&& self.start < self.data@.len()
        &&& self.len <= self.target
        &&& 2 * self.target <= self.data@.len()
    }

    /// The samples kept at most after a write.
    pub closed spec fn limit(&self) -> int {
        self.target as int
    }

    /// The samples that reads had to do without.
    pub closed spec fn missed(&self) -> u64 {
        self.missing
    }

    /// The samples that writes dropped.
    pub closed spec fn lost(&self) -> u64 {
        self.dropped
    }

    /// A queue for conversion callbacks of `block` samples: it keeps two blocks.
    pub fn new(block: usize) -> (r: MonitorBuffer)
        requires
            4 * block <= usize::MAX,
        ensures
            r.wf(),
            r@ == Seq::<u32>::empty(),
            r.limit() == 2 * block,
            r.missed() == 0,
            r.lost() == 0,
    {
        let size: usize = if block == 0 {
            4
        } else {
            4 * block
        };
        let r = MonitorBuffer {
            data: vec![0u32; size],
            start: 0,
            len: 0,
            target: 2 * block,
            missing: 0,
            dropped: 0,
        };
        assert(r@ =~= Seq::empty());
        r
    }

    /// The samples that wait to be played.
    pub fn stored(&self) -> (r: usize)
        requires
            self.wf(),
        ensures
            r == self@.len(),
            r <= self.limit(),
    {
        self.len
    }

    /// The samples that reads had to do without, and those that writes dropped.
    pub fn counts(&self) -> (r: (u64, u64))
        ensures
            r == (self.missed(), self.lost()),
    {
        (self.missing, self.dropped)
    }

    /// Puts one sample behind the others, dropping the oldest where there is no room for it.
    fn put(&mut self, v: u32) -> (dropped: bool)
        requires
            old(self).wf(),
            old(self).limit() > 0,
        ensures
            final(self).wf(),
            final(self)@ == newest(old(self)@.push(v), old(self).limit()),
            dropped == (old(self)@.len() == old(self).limit()),
            final(self).limit() == old(self).limit(),
            final(self).missed() == old(self).missed(),
            final(self).lost() == old(self).lost(),
    {
        let ghost before = self@;
        let size: usize = self.data.len();
        let dropped: bool = self.len == self.target;
        proof {
            lemma_ring_places(size as int, self.start as int, self.len as int);
        }
        let end: usize = if self.start < size - self.len {
            self.start + self.len
        } else {
            self.start - (size - self.len)
        };
        assert(end == (self.start + self.len) % size as int) by {
            lemma_ring_place(size as int, self.start as int, self.len as int);
        }
        self.data.set(end, v);
        if dropped {
            self.start = if self.start + 1 == size {
                0
            } else {
                self.start + 1
            };
        } else {
            self.len = self.len + 1;
        }
        proof {
            let all = before.push(v);
            let shift: int = if dropped { 1 } else { 0 };
            assert forall|i: int| 0 <= i < self.len implies #[trigger] self@[i] == all[i + shift] by {
                lemma_ring_place(size as int, old(self).start as int, i + shift);
                lemma_ring_place(size as int, self.start as int, i);
            }
            assert(self@ =~= newest(all, self.limit()));
        }
        dropped
    }

    /// Conversion side: appends one converted block. What is older than the newest `limit` samples
    /// is dropped, so that the monitor stays close to the conversion.
    pub fn push(&mut self, block: &[u32])
        requires
            old(self).wf(),
        ensures
            final(self).wf(),
            final(self)@ == newest(old(self)@ + block@, old(self).limit()),
            final(self)@.len() <= final(self).limit(),
            final(self).limit() == old(self).limit(),
            final(self).missed() == old(self).missed(),
            final(self).lost() as int == (old(self).lost() + (old(self)@.len() + block@.len()
                - final(self)@.len())) % 0x1_0000_0000_0000_0000,
    {
        let ghost before = self@;
        let ghost limit = self.limit();
        let mut drops: usize = 0;
        let n: usize = block.len();
        if self.target == 0 {
            proof {
                assert(newest(before + block@, 0) =~= Seq::empty());
                assert(before =~= Seq::empty());
                assert(self@ =~= Seq::empty());
            }
            drops = n;
        } else {
            let mut i: usize = 0;
            assert(before + block@.take(0) =~= before);
            while i < n
                invariant
                    i <= n == block@.len(),
                    self.wf(),
                    self.limit() == limit > 0,
                    limit == old(self).limit(),
                    before == old(self)@,
                    self@ == newest(before + block@.take(i as int), limit),
                    drops <= i,
                    drops == before.len() + i - self@.len(),
                    self.missed() == old(self).missed(),
                    self.lost() == old(self).lost(),
                decreases n - i,
            {
                let ghost kept = self@;
                if self.put(block[i]) {
                    drops = drops + 1;
                }
                i += 1;
                proof {
                    let v = block@[i - 1];
                    let all = before + block@.take(i - 1);
                    assert(before + block@.take(i as int) =~= all.push(v));
                    assert(newest(kept.push(v), limit) =~= newest(all.push(v), limit));
                }
            }
            assert(block@.take(n as int) =~= block@);
        }
        let ghost mark = *self;
        self.dropped = self.dropped.wrapping_add(drops as u64);
        assert(self@ =~= mark@);
    }

    /// Monitor side: takes what there is of `wanted` samples. The frames that are missing fade, and
    /// are silent beyond the fade.
    pub fn read(&mut self, wanted: usize) -> (r: Delivery)
        requires
            old(self).wf(),
        ensures
            final(self).wf(),
            r.samples@ == old(self)@.take(least(wanted as int, old(self)@.len() as int)),
            final(self)@ == old(self)@.skip(least(wanted as int, old(self)@.len() as int)),
            r.samples@.len() + r.faded + r.silent == wanted,
            r.faded == least(wanted - r.samples@.len(), FADE as int),
            final(self).limit() == old(self).limit(),
            final(self).lost() == old(self).lost(),
            final(self).missed() as int == (old(self).missed() + (wanted - r.samples@.len()))
                % 0x1_0000_0000_0000_0000,
    {
        let ghost before = self@;
        let size: usize = self.data.len();
        let have: usize = if wanted < self.len {
            wanted
        } else {
            self.len
        };
        let mut samples: Vec<u32> = Vec::new();
        let mut place: usize = self.start;
        let mut i: usize = 0;
        assert(place == (self.start + 0) % size as int) by {
            lemma_ring_place(size as int, self.start as int, 0);
        }
        while i < have
            invariant
                i <= have <= self.len,
                size == self.data@.len(),
                self.wf(),
                before == self@,
                place == (self.start + i) % size as int,
                samples@ == before.take(i as int),
            decreases have - i,
        {
            proof {
                lemma_ring_place(size as int, self.start as int, i as int);
                lemma_ring_place(size as int, self.start as int, i + 1);
            }
            samples.push(self.data[place]);
            place = if place + 1 == size {
                0
            } else {
                place + 1
            };
            i += 1;
            assert(samples@ =~= before.take(i as int));
        }
        self.start = place;
        self.len = self.len - have;
        let rest: usize = wanted - have;
        proof {
            assert forall|j: int| 0 <= j < self.len implies #[trigger] self@[j] == before[j + have] by {
                lemma_ring_place(size as int, old(self).start as int, have as int);
                lemma_ring_place(size as int, old(self).start as int, j + have);
                lemma_ring_place(size as int, self.start as int, j);
            }
            assert(self@ =~= before.skip(have as int));
        }
        let ghost mark = *self;
        self.missing = self.missing.wrapping_add(rest as u64);
        assert(self@ =~= mark@);
        let faded: usize = if rest < FADE {
            rest
        } else {
            FADE
        };
        Delivery { samples, faded, silent: rest - faded }
    }
}

/// The place `i` behind `start` in a ring of `size`.
proof fn lemma_ring_place(size: int, start: int, i: int)
    requires
        0 <= start < size,
        0 <= i <= size,
    ensures
        (start + i) % size == if start + i < size { start + i } else { start + i - size },
{
    if start + i < size {
        vstd::arithmetic::div_mod::lemma_small_mod((start + i) as nat, size as nat);
    } else {
        vstd::arithmetic::div_mod::lemma_mod_sub_multiples_vanish(start + i, size);
        vstd::arithmetic::div_mod::lemma_small_mod((start + i - size) as nat, size as nat);
    }
}

/// Different places of a ring that is not full are different.
proof fn lemma_ring_places(size: int, start: int, len: int)
    requires
        0 <= start < size,
        0 <= len < size,
    ensures
        forall|i: int| 0 <= i < len ==> #[trigger] ((start + i) % size) != (start + len) % size,
{
    assert forall|i: int| 0 <= i < len implies #[trigger] ((start + i) % size) != (start + len)
        % size by {
        lemma_ring_place(size, start, i);
        lemma_ring_place(size, start, len);
    }
}

/// Nothing is lost while the queue has room: with `played` what reads delivered and `waiting` the
/// queue, played and waiting together stay the whole stream through a write that fits and through
/// any read.
pub proof fn law_nothing_is_lost(
    stream: Seq<u32>,
    played: Seq<u32>,
    waiting: Seq<u32>,
    block: Seq<u32>,
    limit: int,
    wanted: int,
)
    requires
        played + waiting == stream,
        0 <= wanted,
    ensures
        waiting.len() + block.len() <= limit ==> played + newest(waiting + block, limit) == stream
            + block,
        (played + waiting.take(least(wanted, waiting.len() as int))) + waiting.skip(
            least(wanted, waiting.len() as int),
        ) == stream,
{
    if waiting.len() + block.len() <= limit {
        assert(played + (waiting + block) =~= stream + block);
    }
    let k = least(wanted, waiting.len() as int);
    assert((played + waiting.take(k)) + waiting.skip(k) =~= stream);
}

/// What is played stays close to what was written last: of all samples that were written, those that
/// wait are the last ones, and no more than the limit.
pub proof fn law_delay_is_bounded(stream: Seq<u32>, waiting: Seq<u32>, block: Seq<u32>, limit: int)
    requires
        0 <= limit,
        waiting.len() <= stream.len(),
        waiting == stream.skip(stream.len() - waiting.len()),
    ensures
        newest(waiting + block, limit).len() <= limit,
        newest(waiting + block, limit) == (stream + block).skip(
            stream.len() + block.len() - newest(waiting + block, limit).len(),
        ),
{
    let kept = newest(waiting + block, limit);
    assert(kept =~= (stream + block).skip(stream.len() + block.len() - kept.len()));
}

/// A queue drops no sample that it has room for: after a write it holds all that waited and came, or as many
/// of the last ones as it keeps.
pub proof fn law_queue_keeps_what_it_can(waiting: Seq<u32>, block: Seq<u32>, limit: int, i: int)
    requires
        0 <= limit,
    ensures
        ({
            let kept = newest(waiting + block, limit);
            let all = waiting.len() + block.len();
            &&& all <= limit ==> kept.len() == all
            &&& all > limit ==> kept.len() == limit
            &&& 0 <= i < kept.len() && i < block.len() ==> kept[kept.len() - 1 - i]
                == block[block.len() - 1 - i]
        }),
{
}

/// A read takes what it wants or what there is.
pub proof fn law_read_takes_what_there_is(wanted: int, waiting: int)
    ensures
        least(wanted, waiting) <= wanted,
        least(wanted, waiting) <= waiting,
        least(wanted, waiting) == wanted || least(wanted, waiting) == waiting,
{
}

} // verus!
