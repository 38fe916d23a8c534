//! The cursor: where the current lexeme begins and how far the scan has
//! looked ahead, both as positions in the active buffer.

use vstd::prelude::*;

verus! {

/// The pair of positions that delimit the lexeme being recognized, in a
/// buffer of a given capacity.
#[derive(Clone, Copy, Debug, PartialEq, Eq, Structural)]
pub struct Cursor {
    lexeme_begin: usize,
    forward: usize,
    limit: usize,
}

impl Cursor {
    /// The lookahead position is never behind the start of the lexeme, and
    /// never beyond the capacity of the buffer.
    pub closed spec fn wf(&self) -> bool {
        self.lexeme_begin <= self.forward <= self.limit
    }

    /// Where the current lexeme begins.
    pub closed spec fn begin(&self) -> usize {
        self.lexeme_begin
    }

    /// How far the scan has looked.
    pub closed spec fn ahead(&self) -> usize {
        self.forward
    }

    /// The capacity of the buffer that the positions lie in.
    pub closed spec fn limit(&self) -> usize {
        self.limit
    }

    /// A cursor at the start of a buffer of `capacity` characters.
    pub fn new(capacity: usize) -> (cursor: Cursor)
        ensures
            cursor.wf(),
            cursor.begin() == 0,
            cursor.ahead() == 0,
            cursor.limit() == capacity,
    {
        Cursor { lexeme_begin: 0, forward: 0, limit: capacity }
    }

    /// Where the current lexeme begins.
    pub fn lexeme_begin(&self) -> (p: usize)
        ensures
            p == self.begin(),
    {
        self.lexeme_begin
    }

    /// How far the scan has looked.
    pub fn forward(&self) -> (p: usize)
        ensures
            p == self.ahead(),
    {
        self.forward
    }

    /// Moves the lookahead position one step to the right.
    pub fn advance_forward(&mut self)
        requires
            old(self).wf(),
            old(self).ahead() < old(self).limit(),
        ensures
            final(self).wf(),
            final(self).begin() == old(self).begin(),
            final(self).ahead() == old(self).ahead() + 1,
            final(self).limit() == old(self).limit(),
    {
        self.forward = self.forward + 1;
    }

    /// Moves the lookahead position to `position`, at or to the right of
    /// where it stands.
    pub fn advance_to(&mut self, position: usize)
        requires
            old(self).wf(),
            old(self).ahead() <= position <= old(self).limit(),
        ensures
            final(self).wf(),
            final(self).begin() == old(self).begin(),
            final(self).ahead() == position,
            final(self).limit() == old(self).limit(),
    {
        self.forward = position;
    }

    /// Ends the current lexeme at `end` and begins the next one there.
    /// Returns the span `[begin, end)` of the lexeme that ended.
    pub fn commit(&mut self, end: usize) -> (span: (usize, usize))
        requires
            old(self).wf(),
            old(self).begin() <= end <= old(self).ahead(),
        ensures
            final(self).wf(),
            span == (old(self).begin(), end),
            final(self).begin() == end,
            final(self).ahead() == old(self).ahead(),
            final(self).limit() == old(self).limit(),
    {
        let span = (self.lexeme_begin, end);
        self.lexeme_begin = end;
        span
    }

    /// Puts both positions at the start of a freshly filled buffer.
    pub fn reset(&mut self)
        ensures
            final(self).wf(),
            final(self).begin() == 0,
            final(self).ahead() == 0,
            final(self).limit() == old(self).limit(),
    {
        self.lexeme_begin = 0;
        self.forward = 0;
    }
}

} // verus!
