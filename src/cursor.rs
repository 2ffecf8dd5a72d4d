//! A forward-only cursor over the characters of a source text that tracks byte offsets.
use vstd::prelude::*;
use crate::text::{chars_of, string_of_range};
use crate::utf8::{byte_len, lemma_byte_len_take_mono, lemma_byte_len_take_next, utf8_width};

verus! {

/// The characters of a source text, a position among them, and the byte offset of that position.
pub struct Cursor {
    chars: Vec<char>,
    pos: usize,
    offset: usize,
}

impl Cursor {
    /// The characters of the source.
    pub closed spec fn source(&self) -> Seq<char> {
        self.chars@
    }

    /// The number of characters consumed.
    pub closed spec fn position(&self) -> int {
        self.pos as int
    }

    /// The position is within the source, the offset is its byte offset, and every byte
    /// offset of the source fits in `usize`.
    pub closed spec fn wf(&self) -> bool {
        &&& self.pos <= self.chars@.len()
        &&& self.offset == byte_len(self.chars@.take(self.pos as int))
        &&& byte_len(self.chars@) <= usize::MAX
    }

    /// A well-formed cursor stands within its source.
    pub proof fn lemma_within(&self)
        requires
            self.wf(),
        ensures
            0 <= self.position() <= self.source().len(),
    {
    }

    /// A cursor at the start of `source`.
    pub fn new(source: &str) -> (r: Cursor)
        ensures
            r.wf(),
            r.source() == source@,
            r.position() == 0,
    {
        let byte_count = source.as_bytes().len();
        let chars = chars_of(source);
        proof {
            assert(byte_count == byte_len(source@));
            assert(chars@.take(0) =~= Seq::<char>::empty());
            assert(chars@.take(0).len() == 0);
        }
        Cursor { chars, pos: 0, offset: 0 }
    }

    /// The characters of the source from position `from` up to `to`.
    pub fn text_between(&self, from: usize, to: usize) -> (r: String)
        requires
            self.wf(),
            from <= to <= self.source().len(),
        ensures
            r@ == self.source().subrange(from as int, to as int),
    {
        string_of_range(&self.chars, from, to)
    }

    /// The byte offset of the current position.
    pub fn offset(&self) -> (r: usize)
        requires
            self.wf(),
        ensures
            r == byte_len(self.source().take(self.position())),
    {
        self.offset
    }

    /// The next character, if any, with its byte offset, without consuming it.
    pub fn peek(&self) -> (r: Option<(usize, char)>)
        requires
            self.wf(),
        ensures
            self.position() < self.source().len() ==> r == Some(
                (byte_len(self.source().take(self.position())) as usize, self.source()[self.position()]),
            ),
            self.position() >= self.source().len() ==> r is None,
    {
        if self.pos < self.chars.len() {
            Some((self.offset, self.chars[self.pos]))
        } else {
            None
        }
    }

    /// The character after the next one, if any, without consuming anything.
    pub fn peek_second(&self) -> (r: Option<char>)
        requires
            self.wf(),
        ensures
            self.position() + 1 < self.source().len() ==> r == Some(self.source()[self.position() + 1]),
            self.position() + 1 >= self.source().len() ==> r is None,
    {
        if self.pos < self.chars.len() && self.pos + 1 < self.chars.len() {
            Some(self.chars[self.pos + 1])
        } else {
            None
        }
    }

    /// The number of characters consumed.
    pub fn index(&self) -> (r: usize)
        requires
            self.wf(),
        ensures
            r == self.position(),
    {
        self.pos
    }

    /// Consumes the next character and returns it.
    pub fn advance(&mut self) -> (r: char)
        requires
            old(self).wf(),
            old(self).position() < old(self).source().len(),
        ensures
            final(self).wf(),
            final(self).source() == old(self).source(),
            final(self).position() == old(self).position() + 1,
            r == old(self).source()[old(self).position()],
    {
        let c = self.chars[self.pos];
        assert(self.pos < self.chars.len());
        proof {
            lemma_byte_len_take_next(self.chars@, self.pos as int);
            lemma_byte_len_take_mono(self.chars@, self.pos + 1, self.chars@.len() as int);
            assert(self.chars@.take(self.chars@.len() as int) =~= self.chars@);
        }
        self.offset = self.offset + utf8_width(c);
        self.pos = self.pos + 1;
        c
    }
}

} // verus!
