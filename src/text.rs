use vstd::prelude::*;

verus! {

/// A character offset into a source text.
#[derive(Clone, Copy, PartialEq, Eq, Debug, Hash)]
pub struct TextOffset {
    pub offset: usize,
}

impl TextOffset {
    pub fn new(offset: usize) -> (r: TextOffset)
        ensures
            r.offset == offset,
    {
        TextOffset { offset }
    }
}

/// A stretch of a source text: where it starts and how many characters it
/// covers.
#[derive(Clone, Copy, PartialEq, Eq, Debug, Hash)]
pub struct TextRange {
    pub offset: TextOffset,
    pub length: usize,
}

impl TextRange {
    pub fn new(offset: TextOffset, length: usize) -> (r: TextRange)
        ensures
            r.offset == offset,
            r.length == length,
    {
        TextRange { offset, length }
    }

    /// The range from `start_offset` up to `end_offset`.
    pub fn new_absolute(start_offset: TextOffset, end_offset: TextOffset) -> (r: TextRange)
        requires
            start_offset.offset <= end_offset.offset,
        ensures
            r.offset == start_offset,
            r.length == end_offset.offset - start_offset.offset,
    {
        TextRange { offset: start_offset, length: end_offset.offset - start_offset.offset }
    }

    pub fn start(&self) -> (r: TextOffset)
        ensures
            r == self.offset,
    {
        self.offset
    }

    /// The offset just past the range.
    pub fn end(&self) -> (r: TextOffset)
        requires
            self.offset.offset + self.length <= usize::MAX,
        ensures
            r.offset == self.offset.offset + self.length,
    {
        TextOffset::new(self.offset.offset + self.length)
    }

    pub fn offset(&self) -> (r: usize)
        ensures
            r == self.offset.offset,
    {
        self.offset.offset
    }

    pub fn length(&self) -> (r: usize)
        ensures
            r == self.length,
    {
        self.length
    }
}

} // verus!
