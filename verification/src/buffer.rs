//! The two buffers that the scanner reads through, and the rule by which
//! the input is cut into the chunks that fill them.

use crate::text::{char_is_space, is_space};
use crate::token::ScanError;
use vstd::prelude::*;
use vstd::slice::slice_subrange;

verus! {

/// The value that fills every slot of a buffer that holds no input.
pub const SENTINEL: char = '\0';

/// The position of the last white space character of `t[from..to]`.
pub open spec fn last_space(t: Seq<char>, from: int, to: int) -> Option<int>
    decreases to - from,
{
    if to <= from {
        None
    } else if is_space(t[to - 1]) {
        Some(to - 1)
    } else {
        last_space(t, from, to - 1)
    }
}

/// What `last_space` finds is a white space character in the range, and
/// none follows it there; it finds nothing only where there is none.
pub proof fn lemma_last_space(t: Seq<char>, from: int, to: int)
    ensures
        match last_space(t, from, to) {
            Some(i) => from <= i < to && is_space(t[i]) && forall|j: int|
                i < j < to ==> !is_space(#[trigger] t[j]),
            None => forall|j: int| from <= j < to ==> !is_space(#[trigger] t[j]),
        },
    decreases to - from,
{
    if to > from && !is_space(t[to - 1]) {
        lemma_last_space(t, from, to - 1);
    }
}

/// Where the chunk that starts at `offset` of the input `s` ends, for
/// buffers of `capacity` characters.
///
/// A chunk that reaches the end of the input ends there. Any other chunk is
/// cut after the last white space character among its first `capacity`
/// characters, so that no lexeme is split; where there is no such
/// character, there is no chunk.
pub open spec fn chunk_end(s: Seq<char>, offset: int, capacity: int) -> Option<int> {
    if offset + capacity >= s.len() {
        Some(s.len() as int)
    } else {
        match last_space(s, offset, offset + capacity) {
            Some(i) => Some(i + 1),
            None => None,
        }
    }
}

/// A chunk that starts before the end of the input is not empty, lies
/// inside the input, and ends in white space unless it reaches the end of
/// the input.
pub proof fn lemma_chunk_end(s: Seq<char>, offset: int, capacity: int)
    requires
        0 <= offset < s.len(),
        0 <= capacity,
    ensures
        match chunk_end(s, offset, capacity) {
            Some(end) => offset < end <= s.len() && end <= offset + capacity && (end < s.len()
                ==> is_space(s[end - 1])),
            None => offset + capacity < s.len(),
        },
{
    lemma_last_space(s, offset, offset + capacity);
}

/// A window of fixed capacity onto the input. The slots past the
/// characters it holds are filled with the sentinel.
///
/// The buffer also keeps count of the characters it holds, so the sentinel
/// is no mark that the input must avoid: where it occurs in the input, it
/// is a character like any other.
pub struct SentinelBuffer {
    cells: Vec<char>,
    len: usize,
}

impl SentinelBuffer {
    /// The number of slots.
    pub closed spec fn capacity(&self) -> nat {
        self.cells@.len()
    }

    /// The characters of the input that the buffer holds.
    pub closed spec fn view(&self) -> Seq<char> {
        self.cells@.take(self.len as int)
    }

    /// The held characters fit, and every slot after them holds the
    /// sentinel.
    pub closed spec fn wf(&self) -> bool {
        &&& self.len <= self.cells@.len() <= usize::MAX
        &&& forall|i: int| self.len <= i < self.cells@.len() ==> self.cells@[i] == SENTINEL
    }

    /// What reading slot `i` gives: a held character, or the sentinel.
    pub open spec fn slot(&self, i: int) -> char {
        if i < self@.len() {
            self@[i]
        } else {
            SENTINEL
        }
    }

    /// A buffer holds no more than its capacity.
    pub proof fn lemma_len(&self)
        requires
            self.wf(),
        ensures
            self@.len() <= self.capacity() <= usize::MAX,
    {
    }

    /// A buffer of `capacity` slots, each holding the sentinel.
    pub fn new(capacity: usize) -> (buffer: SentinelBuffer)
        ensures
            buffer.wf(),
            buffer.capacity() == capacity,
            buffer@ == Seq::<char>::empty(),
    {
        let mut cells: Vec<char> = Vec::new();
        let mut i: usize = 0;
        while i < capacity
            invariant
                i <= capacity,
                cells@.len() == i,
                forall|j: int| 0 <= j < i ==> cells@[j] == SENTINEL,
            decreases capacity - i,
        {
            cells.push(SENTINEL);
            i += 1;
        }
        let buffer = SentinelBuffer { cells, len: 0 };
        assert(buffer@ =~= Seq::<char>::empty());
        buffer
    }

    /// The number of slots.
    pub fn size(&self) -> (n: usize)
        ensures
            n == self.capacity(),
    {
        self.cells.len()
    }

    /// How many characters of the input the buffer holds.
    pub fn len(&self) -> (n: usize)
        requires
            self.wf(),
        ensures
            n == self@.len(),
    {
        self.len
    }

    /// Reads slot `i`.
    pub fn get(&self, i: usize) -> (c: char)
        requires
            self.wf(),
            i < self.capacity(),
        ensures
            c == self.slot(i as int),
    {
        self.cells[i]
    }

    /// The held characters.
    pub fn window(&self) -> (w: &[char])
        requires
            self.wf(),
        ensures
            w@ == self@,
    {
        let w = slice_subrange(self.cells.as_slice(), 0, self.len);
        assert(w@ =~= self@);
        w
    }

    /// Fills the buffer with the characters of `source` from
    /// `source_offset` on: as many as there are, up to the capacity.
    /// Returns how many were taken.
    pub fn load(&mut self, source: &[char], source_offset: usize) -> (count: usize)
        requires
            old(self).wf(),
            source_offset <= source@.len(),
        ensures
            final(self).wf(),
            final(self).capacity() == old(self).capacity(),
            count == if source@.len() - source_offset < old(self).capacity() {
                source@.len() - source_offset
            } else {
                old(self).capacity() as int
            },
            final(self)@ == source@.subrange(source_offset as int, source_offset + count),
    {
        let capacity = self.cells.len();
        let available = source.len() - source_offset;
        let count = if available < capacity {
            available
        } else {
            capacity
        };
        let mut i: usize = 0;
        while i < capacity
            invariant
                i <= capacity == self.cells@.len(),
                count <= capacity,
                source@.len() <= usize::MAX,
                source_offset + count <= source@.len(),
                forall|j: int| 0 <= j < i && j < count ==> self.cells@[j] == source@[source_offset + j],
                forall|j: int| count <= j < i ==> self.cells@[j] == SENTINEL,
            decreases capacity - i,
        {
            let c = if i < count {
                source[source_offset + i]
            } else {
                SENTINEL
            };
            self.cells.set(i, c);
            i += 1;
        }
        self.len = count;
        assert(self@ =~= source@.subrange(source_offset as int, source_offset + count));
        count
    }

    /// Keeps the first `keep` characters and puts the sentinel in place of
    /// the others.
    pub fn truncate(&mut self, keep: usize)
        requires
            old(self).wf(),
            keep <= old(self)@.len(),
        ensures
            final(self).wf(),
            final(self).capacity() == old(self).capacity(),
            final(self)@ == old(self)@.take(keep as int),
    {
        let ghost before = self.cells@;
        let end = self.len;
        let mut i: usize = keep;
        while i < end
            invariant
                keep <= i <= end <= self.cells@.len(),
                self.cells@.len() == before.len(),
                self.len == end,
                forall|j: int| 0 <= j < keep ==> self.cells@[j] == before[j],
                forall|j: int| keep <= j < i ==> self.cells@[j] == SENTINEL,
                forall|j: int| end <= j < self.cells@.len() ==> self.cells@[j] == SENTINEL,
            decreases end - i,
        {
            self.cells.set(i, SENTINEL);
            i += 1;
        }
        self.len = keep;
        assert(self@ =~= before.take(end as int).take(keep as int));
    }
}

/// Which of the two buffers is being read.
#[derive(Clone, Copy, Debug, PartialEq, Eq, Structural)]
pub enum Side {
    Front,
    Back,
}

/// Two buffers of one capacity, one of them active.
pub struct BufferPair {
    front: SentinelBuffer,
    back: SentinelBuffer,
    active: Side,
}

impl BufferPair {
    /// Both buffers are well formed and of one capacity.
    pub closed spec fn wf(&self) -> bool {
        &&& self.front.wf()
        &&& self.back.wf()
        &&& self.front.capacity() == self.back.capacity()
    }

    /// The capacity of each buffer.
    pub closed spec fn capacity(&self) -> nat {
        self.front.capacity()
    }

    /// Which buffer is active.
    pub closed spec fn side(&self) -> Side {
        self.active
    }

    /// The buffer that is being read.
    pub closed spec fn active_buffer(&self) -> SentinelBuffer {
        match self.active {
            Side::Front => self.front,
            Side::Back => self.back,
        }
    }

    /// The buffer that is not being read.
    pub closed spec fn inactive_buffer(&self) -> SentinelBuffer {
        match self.active {
            Side::Front => self.back,
            Side::Back => self.front,
        }
    }

    /// The characters that the active buffer holds.
    pub open spec fn view(&self) -> Seq<char> {
        self.active_buffer()@
    }

    /// The active buffer is one of the two, and holds no more than its
    /// capacity.
    pub proof fn lemma_len(&self)
        requires
            self.wf(),
        ensures
            self@.len() <= self.capacity() <= usize::MAX,
            self.active_buffer().wf(),
            self.active_buffer().capacity() == self.capacity(),
    {
        self.front.lemma_len();
        self.back.lemma_len();
    }

    /// Two empty buffers of `capacity` slots; the front one is active.
    pub fn new(capacity: usize) -> (pair: BufferPair)
        ensures
            pair.wf(),
            pair.capacity() == capacity,
            pair.side() == Side::Front,
            pair@ == Seq::<char>::empty(),
    {
        BufferPair {
            front: SentinelBuffer::new(capacity),
            back: SentinelBuffer::new(capacity),
            active: Side::Front,
        }
    }

    /// The capacity of each buffer.
    pub fn size(&self) -> (n: usize)
        requires
            self.wf(),
        ensures
            n == self.capacity(),
    {
        self.front.size()
    }

    /// Empties both buffers.
    pub fn clear(&mut self)
        requires
            old(self).wf(),
        ensures
            final(self).wf(),
            final(self).capacity() == old(self).capacity(),
            final(self).side() == old(self).side(),
            final(self)@ == Seq::<char>::empty(),
    {
        self.front.truncate(0);
        self.back.truncate(0);
        assert(self@ =~= Seq::<char>::empty());
    }

    /// The buffer that is not being read.
    pub fn inactive(&self) -> (buffer: &SentinelBuffer)
        requires
            self.wf(),
        ensures
            *buffer == self.inactive_buffer(),
            buffer.wf(),
    {
        match self.active {
            Side::Front => &self.back,
            Side::Back => &self.front,
        }
    }

    /// The buffer that is being read.
    pub fn active(&self) -> (buffer: &SentinelBuffer)
        requires
            self.wf(),
        ensures
            *buffer == self.active_buffer(),
            buffer.wf(),
            buffer@ == self@,
    {
        match self.active {
            Side::Front => &self.front,
            Side::Back => &self.back,
        }
    }

    /// Loads the chunk of `source` that starts at `resume_offset` into the
    /// inactive buffer and makes that buffer the active one. Returns where
    /// the chunk ends, which is where the next one starts. The buffer that
    /// was active keeps what it held.
    ///
    /// Where the input has no chunk at that offset, the active buffer stays
    /// as it is and the offset is reported.
    pub fn rotate_and_refill(&mut self, source: &[char], resume_offset: usize) -> (next: Result<
        usize,
        ScanError,
    >)
        requires
            old(self).wf(),
            resume_offset <= source@.len(),
        ensures
            final(self).wf(),
            final(self).capacity() == old(self).capacity(),
            match chunk_end(source@, resume_offset as int, old(self).capacity() as int) {
                Some(end) => {
                    &&& next == Ok::<usize, ScanError>(end as usize)
                    &&& resume_offset <= end <= source@.len()
                    &&& final(self).side() != old(self).side()
                    &&& final(self)@ == source@.subrange(resume_offset as int, end)
                    &&& final(self).inactive_buffer() == old(self).active_buffer()
                },
                None => {
                    &&& next == Err::<usize, ScanError>(
                        ScanError::BufferOverflowToken { position: resume_offset },
                    )
                    &&& final(self).side() == old(self).side()
                    &&& final(self)@ == old(self)@
                },
            },
    {
        proof {
            lemma_last_space(
                source@,
                resume_offset as int,
                resume_offset + old(self).capacity(),
            );
        }
        let total = source.len();
        let kept = match self.active {
            Side::Front => fill(&mut self.back, source, resume_offset),
            Side::Back => fill(&mut self.front, source, resume_offset),
        };
        match kept {
            Some(count) => {
                assert(resume_offset + count <= total);
                self.active =
                match self.active {
                    Side::Front => Side::Back,
                    Side::Back => Side::Front,
                };
                Ok(resume_offset + count)
            },
            None => Err(ScanError::BufferOverflowToken { position: resume_offset }),
        }
    }
}

/// Loads the chunk of `source` at `offset` into `buffer`. Returns its
/// length, or nothing where the input has no chunk there.
fn fill(buffer: &mut SentinelBuffer, source: &[char], offset: usize) -> (kept: Option<usize>)
    requires
        old(buffer).wf(),
        offset <= source@.len(),
    ensures
        final(buffer).wf(),
        final(buffer).capacity() == old(buffer).capacity(),
        match chunk_end(source@, offset as int, old(buffer).capacity() as int) {
            Some(end) => kept == Some((end - offset) as usize) && offset <= end <= source@.len()
                && final(buffer)@ == source@.subrange(offset as int, end),
            None => kept is None,
        },
{
    let count = buffer.load(source, offset);
    if source.len() - offset <= count {
        return Some(count);
    }
    let ghost capacity = buffer.capacity();
    proof {
        lemma_last_space(source@, offset as int, offset + count);
    }
    let ghost loaded = buffer@;
    let mut i: usize = count;
    while i > 0
        invariant
            i <= count == capacity,
            buffer.wf(),
            buffer.capacity() == capacity == old(buffer).capacity(),
            buffer@ == loaded,
            loaded == source@.subrange(offset as int, offset + count),
            offset + count < source@.len(),
            last_space(source@, offset as int, offset + i) == last_space(
                source@,
                offset as int,
                offset + count,
            ),
        decreases i,
    {
        let c = buffer.get(i - 1);
        if char_is_space(c) {
            buffer.truncate(i);
            assert(loaded.take(i as int) =~= source@.subrange(offset as int, offset + i));
            return Some(i);
        }
        i -= 1;
    }
    None
}

} // verus!
