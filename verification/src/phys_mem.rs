//! A model of physical memory as the engine sees it: an array of 64-bit
//! words, grouped into 4 KiB frames of 512 words and addressed by physical
//! byte address.

use vstd::prelude::*;

use crate::mmu::PhysAddr;

verus! {

/// Number of 64-bit words in one frame.
pub const WORDS_PER_FRAME: usize = 512;

/// Index of the word `idx` of the frame or table at byte address `base`.
pub open spec fn word_index(base: u64, idx: int) -> int {
    base as int / 8 + idx
}

/// Whether the whole frame at byte address `p` lies in memory `m` and `p` is
/// frame-aligned.
pub open spec fn frame_in(m: Seq<u64>, p: u64) -> bool {
    p % 4096 == 0 && p as int / 8 + 512 <= m.len()
}

/// The word `idx` of the table at `table`.
pub open spec fn entry(m: Seq<u64>, table: u64, idx: int) -> u64 {
    m[word_index(table, idx)]
}

/// Memory `m` with the frame at `p` filled with zeroes.
pub open spec fn zeroed(m: Seq<u64>, p: u64) -> Seq<u64> {
    Seq::new(
        m.len(),
        |w: int|
            if word_index(p, 0) <= w < word_index(p, 512) {
                0u64
            } else {
                m[w]
            },
    )
}

/// Memory `m` after copying `count` entries from index `first` on from the
/// table at `src` to the same indices of the table at `dst`.
pub open spec fn copied(m: Seq<u64>, src: u64, dst: u64, first: int, count: int) -> Seq<u64> {
    Seq::new(
        m.len(),
        |w: int|
            if word_index(dst, first) <= w < word_index(dst, first + count) {
                m[w - word_index(dst, 0) + word_index(src, 0)]
            } else {
                m[w]
            },
    )
}

/// Whether the frame at `p` holds only zeroes.
pub open spec fn frame_is_zero(m: Seq<u64>, p: u64) -> bool {
    forall|i: int| 0 <= i < 512 ==> #[trigger] entry(m, p, i) == 0
}

/// Two different slots of frame-aligned tables are different words.
pub proof fn lemma_slots_distinct(a: u64, i: int, b: u64, j: int)
    requires
        a % 4096 == 0,
        b % 4096 == 0,
        0 <= i < 512,
        0 <= j < 512,
        a != b || i != j,
    ensures
        word_index(a, i) != word_index(b, j),
{
}

/// The writes that fill the frame at `p` with zeroes, word by word from the
/// first, up to word `n`.
pub open spec fn zero_writes(p: u64, n: int) -> Seq<(usize, u64)> {
    Seq::new(n as nat, |i: int| (word_index(p, i) as usize, 0u64))
}

/// The writes that copy `n` entries from index `first` on from the table at
/// `src` in memory `m` to the table at `dst`.
pub open spec fn copy_writes(m: Seq<u64>, src: u64, dst: u64, first: int, n: int) -> Seq<
    (usize, u64),
> {
    Seq::new(
        n as nat,
        |i: int| (word_index(dst, first + i) as usize, m[word_index(src, first + i)]),
    )
}

/// Memory `m` after the writes `writes` were made to it in their order. A
/// write to a word that `m` does not have changes nothing.
pub open spec fn replay(m: Seq<u64>, writes: Seq<(usize, u64)>) -> Seq<u64>
    decreases writes.len(),
{
    if writes.len() == 0 {
        m
    } else if writes.last().0 < m.len() {
        replay(m, writes.drop_last()).update(writes.last().0 as int, writes.last().1)
    } else {
        replay(m, writes.drop_last())
    }
}

/// Replaying keeps the size of memory, and one more write is one more
/// update.
pub proof fn lemma_replay_push(m: Seq<u64>, writes: Seq<(usize, u64)>, w: (usize, u64))
    ensures
        replay(m, writes).len() == m.len(),
        replay(m, writes.push(w)) == if w.0 < m.len() {
            replay(m, writes).update(w.0 as int, w.1)
        } else {
            replay(m, writes)
        },
    decreases writes.len(),
{
    if writes.len() > 0 {
        lemma_replay_push(m, writes.drop_last(), writes.last());
    }
    assert(writes.push(w).drop_last() =~= writes);
}

/// Physical memory: whole frames of 64-bit words, all of them accessible.
///
/// The memory remembers every write as the index of the word and its new
/// value, in order, until the writes are taken. Whoever keeps another copy
/// of the memory can bring it up to date from them.
pub struct PhysMemory {
    words: Vec<u64>,
    log: Vec<(usize, u64)>,
    base: Ghost<Seq<u64>>,
}

impl View for PhysMemory {
    type V = Seq<u64>;

    closed spec fn view(&self) -> Seq<u64> {
        self.words@
    }
}

impl PhysMemory {
    /// Memory always holds a whole number of frames.
    pub closed spec fn wf(&self) -> bool {
        self.words@.len() % 512 == 0
    }

    /// The writes that were made and not yet taken, oldest first: the index
    /// of the word and its new value.
    pub closed spec fn pending(&self) -> Seq<(usize, u64)> {
        self.log@
    }

    /// The memory as it was when the writes were taken last, or when it was
    /// made.
    pub closed spec fn flushed(&self) -> Seq<u64> {
        self.base@
    }

    /// Whether the pending writes account for everything that changed since
    /// the writes were taken last: replayed on the memory of that time they
    /// give the memory of now.
    pub open spec fn coherent(&self) -> bool {
        self@ == replay(self.flushed(), self.pending())
    }

    /// Whether this memory is `before` after some writes that were all
    /// recorded: the writes were not taken in between, and if the pending
    /// writes accounted for every change they still do.
    pub open spec fn follows(&self, before: &PhysMemory) -> bool {
        &&& self.flushed() == before.flushed()
        &&& before.coherent() ==> self.coherent()
    }

    /// Whether the frame at `p` lies in this memory.
    pub open spec fn spec_contains_frame(&self, p: u64) -> bool {
        frame_in(self@, p)
    }

    /// Memory of `frames` frames, every word zero.
    pub fn new(frames: usize) -> (r: PhysMemory)
        requires
            frames * 512 <= usize::MAX,
        ensures
            r.wf(),
            r@.len() == frames * 512,
            forall|w: int| 0 <= w < r@.len() ==> r@[w] == 0,
            r.pending() == Seq::<(usize, u64)>::empty(),
            r.flushed() == r@,
            r.coherent(),
    {
        let mut words: Vec<u64> = Vec::new();
        let total: usize = frames * 512;
        let mut n: usize = 0;
        while n < total
            invariant
                n <= total,
                words@.len() == n,
                forall|w: int| 0 <= w < n ==> words@[w] == 0,
            decreases total - n,
        {
            words.push(0);
            n = n + 1;
        }
        PhysMemory { words, log: Vec::new(), base: Ghost(words@) }
    }

    /// Takes the writes that were made since the last time, oldest first.
    /// The memory itself stays as it is, and counts as the memory of the
    /// last taking from now on. If the pending writes accounted for every
    /// change, then whoever replays the writes that were taken on a copy of
    /// the memory of the taking before has a copy of this memory.
    pub fn take_writes(&mut self) -> (r: Vec<(usize, u64)>)
        ensures
            r@ == old(self).pending(),
            final(self).pending() == Seq::<(usize, u64)>::empty(),
            final(self).flushed() == old(self)@,
            final(self).coherent(),
            old(self).coherent() ==> replay(old(self).flushed(), r@) == old(self)@,
            final(self)@ == old(self)@,
            final(self).wf() == old(self).wf(),
    {
        let mut out: Vec<(usize, u64)> = Vec::new();
        std::mem::swap(&mut out, &mut self.log);
        self.base = Ghost(self.words@);
        out
    }

    /// Number of words in this memory.
    pub fn len(&self) -> (r: usize)
        ensures
            r == self@.len(),
    {
        self.words.len()
    }

    /// Number of whole frames in this memory.
    pub fn frame_count(&self) -> (r: usize)
        ensures
            r == self@.len() / 512,
    {
        self.words.len() / 512
    }

    /// Whether the frame at `p` lies in this memory.
    #[verifier::when_used_as_spec(spec_contains_frame)]
    pub fn contains_frame(&self, p: u64) -> (r: bool)
        ensures
            r == frame_in(self@, p),
    {
        let len: usize = self.words.len();
        p % 4096 == 0 && len >= 512 && p / 8 <= (len - 512) as u64
    }

    /// Reads entry `idx` of the table at `table`.
    pub fn read_entry(&self, table: PhysAddr, idx: usize) -> (r: u64)
        requires
            frame_in(self@, table.0),
            idx < 512,
        ensures
            r == entry(self@, table.0, idx as int),
    {
        let len: usize = self.words.len();
        assert(table.0 as int / 8 + 512 <= len);
        let base: usize = (table.0 / 8) as usize;
        self.words[base + idx]
    }

    /// Writes `value` to entry `idx` of the table at `table`; nothing else
    /// changes.
    pub fn write_entry(&mut self, table: PhysAddr, idx: usize, value: u64)
        requires
            frame_in(old(self)@, table.0),
            idx < 512,
        ensures
            final(self)@ == old(self)@.update(word_index(table.0, idx as int), value),
            final(self).wf() == old(self).wf(),
            final(self).pending() == old(self).pending().push(
                (word_index(table.0, idx as int) as usize, value),
            ),
            final(self).follows(old(self)),
    {
        let len: usize = self.words.len();
        assert(table.0 as int / 8 + 512 <= len);
        let base: usize = (table.0 / 8) as usize;
        self.words[base + idx] = value;
        self.log.push((base + idx, value));
        proof {
            lemma_replay_push(self.base@, old(self).log@, ((base + idx) as usize, value));
        }
    }

    /// Fills the frame at `p` with zeroes; nothing else changes.
    pub fn zero_frame(&mut self, p: PhysAddr)
        requires
            frame_in(old(self)@, p.0),
        ensures
            final(self)@ == zeroed(old(self)@, p.0),
            final(self).wf() == old(self).wf(),
            final(self).pending() == old(self).pending() + zero_writes(p.0, 512),
            final(self).follows(old(self)),
    {
        let len: usize = self.words.len();
        assert(p.0 as int / 8 + 512 <= len);
        let base: usize = (p.0 / 8) as usize;
        let mut i: usize = 0;
        assert(self.log@ =~= self.log@ + zero_writes(p.0, 0));
        while i < 512
            invariant
                i <= 512,
                base == p.0 as int / 8,
                base + 512 <= len,
                self.words@.len() == len,
                len == old(self).words@.len(),
                forall|w: int|
                    0 <= w < self.words@.len() ==> #[trigger] self.words@[w] == (if base <= w < base
                        + i {
                        0u64
                    } else {
                        old(self).words@[w]
                    }),
                self.log@ == old(self).log@ + zero_writes(p.0, i as int),
                self.base == old(self).base,
                old(self).coherent() ==> self.coherent(),
            decreases 512 - i,
        {
            let ghost words_before = self.words@;
            let ghost log_before = self.log@;
            self.words[base + i] = 0;
            self.log.push((base + i, 0));
            proof {
                lemma_replay_push(self.base@, log_before, ((base + i) as usize, 0u64));
            }
            assert(zero_writes(p.0, i + 1) =~= zero_writes(p.0, i as int).push(
                (word_index(p.0, i as int) as usize, 0u64),
            ));
            assert(self.log@ =~= old(self).log@ + zero_writes(p.0, i + 1));
            i = i + 1;
        }
        assert(self.words@ =~= zeroed(old(self).words@, p.0));
    }

    /// Copies `count` entries from index `first` on from the table at `src`
    /// to the same indices of the table at `dst`, a different frame; nothing
    /// else changes.
    pub fn copy_entries(&mut self, src: PhysAddr, dst: PhysAddr, first: usize, count: usize)
        requires
            frame_in(old(self)@, src.0),
            frame_in(old(self)@, dst.0),
            src.0 != dst.0,
            first + count <= 512,
        ensures
            final(self)@ == copied(old(self)@, src.0, dst.0, first as int, count as int),
            final(self).wf() == old(self).wf(),
            final(self).pending() == old(self).pending() + copy_writes(
                old(self)@,
                src.0,
                dst.0,
                first as int,
                count as int,
            ),
            final(self).follows(old(self)),
    {
        let len: usize = self.words.len();
        assert(src.0 as int / 8 + 512 <= len);
        assert(dst.0 as int / 8 + 512 <= len);
        let from: usize = (src.0 / 8) as usize;
        let to: usize = (dst.0 / 8) as usize;
        let mut i: usize = 0;
        assert(self.log@ =~= self.log@ + copy_writes(
            self.words@,
            src.0,
            dst.0,
            first as int,
            0,
        ));
        while i < count
            invariant
                i <= count,
                first + count <= 512,
                from == src.0 as int / 8,
                to == dst.0 as int / 8,
                src.0 % 4096 == 0,
                dst.0 % 4096 == 0,
                src.0 != dst.0,
                from + 512 <= len,
                to + 512 <= len,
                self.words@.len() == len,
                len == old(self).words@.len(),
                forall|w: int|
                    0 <= w < len ==> #[trigger] self.words@[w] == (if to + first <= w < to + first
                        + i {
                        old(self).words@[w - to + from]
                    } else {
                        old(self).words@[w]
                    }),
                self.log@ == old(self).log@ + copy_writes(
                    old(self).words@,
                    src.0,
                    dst.0,
                    first as int,
                    i as int,
                ),
                self.base == old(self).base,
                old(self).coherent() ==> self.coherent(),
            decreases count - i,
        {
            let ghost log_before = self.log@;
            let v = self.words[from + first + i];
            assert(v == old(self).words@[from + first + i]);
            self.words[to + first + i] = v;
            self.log.push((to + first + i, v));
            proof {
                lemma_replay_push(self.base@, log_before, ((to + first + i) as usize, v));
            }
            assert(copy_writes(old(self).words@, src.0, dst.0, first as int, i + 1)
                =~= copy_writes(old(self).words@, src.0, dst.0, first as int, i as int).push(
                (word_index(dst.0, first + i) as usize, v),
            ));
            assert(self.log@ =~= old(self).log@ + copy_writes(
                old(self).words@,
                src.0,
                dst.0,
                first as int,
                i + 1,
            ));
            i = i + 1;
        }
        assert(self.words@ =~= copied(old(self).words@, src.0, dst.0, first as int, count as int));
    }
}

} // verus!
