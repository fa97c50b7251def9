use vstd::prelude::*;
use crate::tokens::{Position, advanced, position_at, lemma_position_at_bounds};

verus! {

/// Source text read one character at a time, tracking the position reached.
pub struct CharStream {
    stream: Vec<char>,
    index: usize,
    position: Position,
}

impl CharStream {
    /// The characters of the whole text.
    pub closed spec fn text(&self) -> Seq<char> {
        self.stream@
    }

    /// How many characters have been consumed.
    pub closed spec fn consumed(&self) -> nat {
        self.index as nat
    }

    /// The characters not yet consumed.
    pub open spec fn rest(&self) -> Seq<char> {
        self.text().subrange(self.consumed() as int, self.text().len() as int)
    }

    pub closed spec fn wf(&self) -> bool {
        &&& self.index <= self.stream@.len()
        &&& self.stream@.len() <= usize::MAX
        &&& self.position == position_at(self.stream@, self.index as nat)
    }

    /// The position reached, as the text determines it.
    pub open spec fn spec_position(&self) -> Position {
        position_at(self.text(), self.consumed())
    }

    pub open spec fn at_end(&self) -> bool {
        self.consumed() >= self.text().len()
    }

    /// The character `k` places ahead of the cursor, if there is one.
    pub open spec fn ahead(&self, k: nat) -> Option<char> {
        if self.consumed() + k < self.text().len() {
            Some(self.text()[(self.consumed() + k) as int])
        } else {
            None
        }
    }

    pub proof fn lemma_wf(&self)
        requires
            self.wf(),
        ensures
            self.consumed() <= self.text().len(),
            self.text().len() <= usize::MAX,
    {
    }

    pub fn new(input: &str) -> (r: CharStream)
        ensures
            r.wf(),
            r.text() == input@,
            r.consumed() == 0,
    {
        let n = input.unicode_len();
        let mut stream: Vec<char> = Vec::new();
        let mut i: usize = 0;
        while i < n
            invariant
                n == input@.len(),
                i <= n,
                stream@ == input@.subrange(0, i as int),
            decreases n - i,
        {
            let c = input.get_char(i);
            stream.push(c);
            i = i + 1;
            assert(stream@ =~= input@.subrange(0, i as int));
        }
        assert(stream@ =~= input@);
        CharStream { stream, index: 0, position: Position::start() }
    }

    /// Consumes and returns the next character, or `None` at the end of the text.
    pub fn read_char(&mut self) -> (r: Option<char>)
        requires
            old(self).wf(),
        ensures
            final(self).wf(),
            final(self).text() == old(self).text(),
            r == old(self).ahead(0),
            final(self).consumed() == old(self).consumed() + if r is Some { 1nat } else { 0nat },
    {
        if self.index < self.stream.len() {
            let c = self.stream[self.index];
            proof {
                lemma_position_at_bounds(self.stream@, self.index as nat);
            }
            self.position.advance(c);
            self.index = self.index + 1;
            Some(c)
        } else {
            None
        }
    }

    pub fn peek_char(&self) -> (r: Option<char>)
        requires
            self.wf(),
        ensures
            r == self.ahead(0),
    {
        if self.index < self.stream.len() {
            Some(self.stream[self.index])
        } else {
            None
        }
    }

    pub fn peek_char_at_offset(&self, offset: usize) -> (r: Option<char>)
        requires
            self.wf(),
        ensures
            r == self.ahead(offset as nat),
    {
        if offset < self.stream.len() - self.index {
            Some(self.stream[self.index + offset])
        } else {
            None
        }
    }

    /// Consumes the next character only when it is `possible`.
    pub fn read_if_char(&mut self, possible: char) -> (r: bool)
        requires
            old(self).wf(),
        ensures
            final(self).wf(),
            final(self).text() == old(self).text(),
            r == (old(self).ahead(0) == Some(possible)),
            final(self).consumed() == old(self).consumed() + if r { 1nat } else { 0nat },
    {
        match self.peek_char() {
            Some(c) => {
                if c == possible {
                    let _ = self.read_char();
                    true
                } else {
                    false
                }
            },
            None => false,
        }
    }

    /// Consumes the next character only when `filter` accepts it.
    pub fn read_if<F: Fn(char) -> bool>(&mut self, filter: &F) -> (r: Option<char>)
        requires
            old(self).wf(),
            forall|c: char| filter.requires((c,)),
        ensures
            final(self).wf(),
            final(self).text() == old(self).text(),
            r is Some ==> old(self).ahead(0) == r && filter.ensures((r->0,), true)
                && final(self).consumed() == old(self).consumed() + 1,
            r is None ==> final(self).consumed() == old(self).consumed()
                && (old(self).ahead(0) matches Some(c) ==> filter.ensures((c,), false)),
    {
        match self.peek_char() {
            Some(c) => {
                if filter(c) {
                    self.read_char()
                } else {
                    None
                }
            },
            None => None,
        }
    }

    /// Consumes the longest run of characters that `filter` accepts and returns it.
    pub fn read_while<F: Fn(char) -> bool>(&mut self, filter: &F) -> (r: String)
        requires
            old(self).wf(),
            forall|c: char| filter.requires((c,)),
        ensures
            final(self).wf(),
            final(self).text() == old(self).text(),
            old(self).consumed() <= final(self).consumed(),
            r@ == old(self).text().subrange(old(self).consumed() as int, final(self).consumed() as int),
            forall|i: int| 0 <= i < r@.len() ==> filter.ensures((#[trigger] r@[i],), true),
            final(self).ahead(0) matches Some(c) ==> filter.ensures((c,), false),
    {
        let mut out = String::new();
        let ghost start = self.consumed();
        loop
            invariant
                self.wf(),
                self.text() == old(self).text(),
                start == old(self).consumed(),
                start <= self.consumed(),
                out@ == self.text().subrange(start as int, self.consumed() as int),
                forall|c: char| filter.requires((c,)),
                forall|i: int| 0 <= i < out@.len() ==> filter.ensures((#[trigger] out@[i],), true),
            ensures
                self.ahead(0) matches Some(c) ==> filter.ensures((c,), false),
            decreases self.text().len() - self.consumed(),
        {
            proof { self.lemma_wf(); }
            let next = self.peek_char();
            match next {
                Some(c) => {
                    if filter(c) {
                        let _ = self.read_char();
                        crate::text_util::push_char(&mut out, c);
                        assert(out@ =~= self.text().subrange(start as int, self.consumed() as int));
                    } else {
                        break;
                    }
                },
                None => {
                    break;
                },
            }
        }
        out
    }

    /// Consumes the longest run of characters that `filter` accepts and counts them.
    pub fn skip_while<F: Fn(char) -> bool>(&mut self, filter: &F) -> (r: usize)
        requires
            old(self).wf(),
            forall|c: char| filter.requires((c,)),
        ensures
            final(self).wf(),
            final(self).text() == old(self).text(),
            final(self).consumed() == old(self).consumed() + r,
            forall|i: int| old(self).consumed() <= i < final(self).consumed()
                ==> filter.ensures((#[trigger] old(self).text()[i],), true),
            final(self).ahead(0) matches Some(c) ==> filter.ensures((c,), false),
    {
        let mut num_skipped: usize = 0;
        loop
            invariant
                self.wf(),
                self.text() == old(self).text(),
                self.consumed() == old(self).consumed() + num_skipped,
                forall|c: char| filter.requires((c,)),
                forall|i: int| old(self).consumed() <= i < self.consumed()
                    ==> filter.ensures((#[trigger] old(self).text()[i],), true),
            ensures
                self.ahead(0) matches Some(c) ==> filter.ensures((c,), false),
            decreases self.text().len() - self.consumed(),
        {
            proof { self.lemma_wf(); }
            let next = self.peek_char();
            match next {
                Some(c) => {
                    if filter(c) {
                        let _ = self.read_char();
                        num_skipped = num_skipped + 1;
                    } else {
                        break;
                    }
                },
                None => {
                    break;
                },
            }
        }
        num_skipped
    }

    pub fn position(&self) -> (r: Position)
        requires
            self.wf(),
        ensures
            r == self.spec_position(),
    {
        self.position
    }
}

} // verus!
