//! Cursors over source text and over token streams.
//!
//! [`FileIterator`] walks the characters of one source buffer while tracking
//! the current line/offset position; it offers one- and two-character
//! lookahead without consuming.  [`TokenIterator`] replays a finished token
//! sequence with one- and two-token lookahead and a running span that only
//! ever extends forward.

use vstd::prelude::*;

use crate::location::{FileLocation, LineLocation};
use crate::token::Token;

verus! {

/// The line reached after reading the characters of `s`, starting from line
/// zero: the number of newline characters read.
pub open spec fn adv_line(s: Seq<char>) -> int
    decreases s.len(),
{
    if s.len() == 0 {
        0
    } else if s.last() == '\n' {
        adv_line(s.drop_last()) + 1
    } else {
        adv_line(s.drop_last())
    }
}

/// The offset reached after reading the characters of `s`, starting from
/// offset zero: the number of characters read since the last newline.
pub open spec fn adv_offset(s: Seq<char>) -> int
    decreases s.len(),
{
    if s.len() == 0 {
        0
    } else if s.last() == '\n' {
        0
    } else {
        adv_offset(s.drop_last()) + 1
    }
}

/// Both counters stay within the number of characters read.
pub proof fn lemma_adv_bounds(s: Seq<char>)
    ensures
        0 <= adv_line(s) <= s.len(),
        0 <= adv_offset(s) <= s.len(),
    decreases s.len(),
{
    if s.len() > 0 {
        lemma_adv_bounds(s.drop_last());
    }
}

/// A cursor over the characters of one source buffer, tracking the
/// `(line, offset)` position of the read point.  Newline (`'\n'`) is the only
/// line terminator; `'\r'` is an ordinary character.
pub struct FileIterator {
    chars: Vec<char>,
    index: usize,
    location: LineLocation,
}

impl FileIterator {
    /// The whole character sequence of the buffer.
    pub closed spec fn src(&self) -> Seq<char> {
        self.chars@
    }

    /// How many characters have been consumed.
    pub closed spec fn pos(&self) -> int {
        self.index as int
    }

    /// The current position, as tracked.
    pub closed spec fn loc(&self) -> LineLocation {
        self.location
    }

    /// The cursor is consistent: the read point is inside the buffer and the
    /// tracked position is the one reached by reading exactly the consumed
    /// characters.
    pub closed spec fn wf(&self) -> bool {
        &&& self.index <= self.chars@.len()
        &&& self.location.line == adv_line(self.chars@.take(self.index as int))
        &&& self.location.offset == adv_offset(self.chars@.take(self.index as int))
    }

    /// What well-formedness gives every client: the read point is inside the
    /// buffer.
    pub proof fn bounds(&self)
        requires
            self.wf(),
        ensures
            0 <= self.pos() <= self.src().len(),
            self.loc().line == adv_line(self.src().take(self.pos())),
            self.loc().offset == adv_offset(self.src().take(self.pos())),
    {
    }

    pub fn new(file_content: &str) -> (r: Self)
        ensures
            r.wf(),
            r.src() == file_content@,
            r.pos() == 0,
            r.loc() == (LineLocation { line: 0, offset: 0 }),
    {
        let n = file_content.unicode_len();
        let mut chars: Vec<char> = Vec::new();
        let mut i: usize = 0;
        while i < n
            invariant
                i <= n,
                n == file_content@.len(),
                chars@ == file_content@.take(i as int),
            decreases n - i,
        {
            let c = file_content.get_char(i);
            chars.push(c);
            i = i + 1;
            proof {
                assert(chars@ =~= file_content@.take(i as int));
            }
        }
        proof {
            assert(chars@ =~= file_content@);
            assert(chars@.take(0) =~= Seq::<char>::empty());
        }
        Self { chars, index: 0, location: LineLocation { line: 0, offset: 0 } }
    }

    /// The next character, if any, without consuming it.
    pub fn peek(&self) -> (r: Option<char>)
        requires
            self.wf(),
        ensures
            r == (if self.pos() < self.src().len() {
                Some(self.src()[self.pos()])
            } else {
                None::<char>
            }),
    {
        if self.index < self.chars.len() {
            Some(self.chars[self.index])
        } else {
            None
        }
    }

    /// The next two characters without consuming them.  When the buffer is
    /// exhausted the pair is `(None, None)`.
    pub fn peek2(&self) -> (r: (Option<char>, Option<char>))
        requires
            self.wf(),
        ensures
            r.0 == (if self.pos() < self.src().len() {
                Some(self.src()[self.pos()])
            } else {
                None::<char>
            }),
            r.1 == (if self.pos() + 1 < self.src().len() {
                Some(self.src()[self.pos() + 1])
            } else {
                None::<char>
            }),
    {
        if self.index < self.chars.len() {
            let c1 = self.chars[self.index];
            if self.index + 1 < self.chars.len() {
                (Some(c1), Some(self.chars[self.index + 1]))
            } else {
                (Some(c1), None)
            }
        } else {
            (None, None)
        }
    }

    /// The current position.
    pub fn get_location(&self) -> (r: LineLocation)
        ensures
            r == self.loc(),
    {
        self.location
    }

    /// Consume one character and advance the position: a newline moves to the
    /// start of the next line, any other character advances the offset.
    pub fn next(&mut self) -> (r: Option<char>)
        requires
            old(self).wf(),
        ensures
            final(self).wf(),
            final(self).src() == old(self).src(),
            r == (if old(self).pos() < old(self).src().len() {
                Some(old(self).src()[old(self).pos()])
            } else {
                None::<char>
            }),
            final(self).pos() == (if old(self).pos() < old(self).src().len() {
                old(self).pos() + 1
            } else {
                old(self).pos()
            }),
            r matches Some(c) ==> final(self).loc() == (if c == '\n' {
                LineLocation { line: (old(self).loc().line + 1) as usize, offset: 0 }
            } else {
                LineLocation {
                    line: old(self).loc().line,
                    offset: (old(self).loc().offset + 1) as usize,
                }
            }),
            r is None ==> final(self).loc() == old(self).loc(),
    {
        if self.index < self.chars.len() {
            let c = self.chars[self.index];
            proof {
                lemma_adv_bounds(self.chars@.take(self.index as int));
                assert(self.chars@.take(self.index as int + 1) =~= self.chars@.take(
                    self.index as int,
                ).push(c));
                assert(self.chars@.take(self.index as int + 1).drop_last() =~= self.chars@.take(
                    self.index as int,
                ));
            }
            self.index = self.index + 1;
            if c == '\n' {
                self.location = LineLocation { line: self.location.line + 1, offset: 0 };
            } else {
                self.location = LineLocation {
                    line: self.location.line,
                    offset: self.location.offset + 1,
                };
            }
            Some(c)
        } else {
            None
        }
    }
}

/// A read-only cursor over a finished token sequence, with one- and two-token
/// lookahead and a running span.  The running span's end extends to the end
/// of each consumed token; its start only moves when the counter is reset.
pub struct TokenIterator<'a> {
    tokens: &'a Vec<(Token, FileLocation)>,
    index: usize,
    location: FileLocation,
}

impl<'a> TokenIterator<'a> {
    /// The underlying token sequence.
    pub closed spec fn toks(&self) -> Seq<(Token, FileLocation)> {
        self.tokens@
    }

    /// How many tokens have been consumed.
    pub closed spec fn pos(&self) -> int {
        self.index as int
    }

    /// The running span.
    pub closed spec fn loc(&self) -> FileLocation {
        self.location
    }

    /// The read point is inside the sequence.
    pub closed spec fn wf(&self) -> bool {
        self.index <= self.tokens@.len()
    }

    /// How many tokens remain.
    pub open spec fn remaining(&self) -> int {
        self.toks().len() - self.pos()
    }

    /// What well-formedness gives every client: the read point is inside
    /// the sequence.
    pub proof fn bounds(&self)
        requires
            self.wf(),
        ensures
            0 <= self.pos() <= self.toks().len(),
    {
    }

    pub fn new(vec: &'a Vec<(Token, FileLocation)>) -> (r: Self)
        ensures
            r.wf(),
            r.toks() == vec@,
            r.pos() == 0,
            r.loc() == (FileLocation {
                start: LineLocation { line: 0, offset: 0 },
                end: LineLocation { line: 0, offset: 0 },
            }),
    {
        TokenIterator {
            tokens: vec,
            index: 0,
            location: FileLocation {
                start: LineLocation { line: 0, offset: 0 },
                end: LineLocation { line: 0, offset: 0 },
            },
        }
    }

    /// The next token, if any, without consuming it.
    pub fn peek(&self) -> (r: Option<&Token>)
        requires
            self.wf(),
        ensures
            match r {
                Some(t) => self.pos() < self.toks().len() && *t == self.toks()[self.pos()].0,
                None => self.pos() >= self.toks().len(),
            },
    {
        if self.index < self.tokens.len() {
            Some(&self.tokens[self.index].0)
        } else {
            None
        }
    }

    /// The next two tokens without consuming them.
    pub fn peek2(&self) -> (r: (Option<&Token>, Option<&Token>))
        requires
            self.wf(),
        ensures
            match r.0 {
                Some(t) => self.pos() < self.toks().len() && *t == self.toks()[self.pos()].0,
                None => self.pos() >= self.toks().len(),
            },
            match r.1 {
                Some(t) => self.pos() + 1 < self.toks().len() && *t == self.toks()[self.pos()
                    + 1].0,
                None => self.pos() + 1 >= self.toks().len(),
            },
    {
        if self.index < self.tokens.len() {
            let t1 = &self.tokens[self.index].0;
            if self.index + 1 < self.tokens.len() {
                (Some(t1), Some(&self.tokens[self.index + 1].0))
            } else {
                (Some(t1), None)
            }
        } else {
            (None, None)
        }
    }

    /// The running span: it covers all tokens consumed since creation or the
    /// last reset.
    pub fn get_location(&self) -> (r: FileLocation)
        ensures
            r == self.loc(),
    {
        self.location
    }

    /// The span of the next token, if any; otherwise a zero-width span at the
    /// running span's end.
    pub fn peek_location(&self) -> (r: FileLocation)
        requires
            self.wf(),
        ensures
            r == (if self.pos() < self.toks().len() {
                self.toks()[self.pos()].1
            } else {
                FileLocation { start: self.loc().end, end: self.loc().end }
            }),
    {
        if self.index < self.tokens.len() {
            self.tokens[self.index].1
        } else {
            FileLocation { start: self.location.end, end: self.location.end }
        }
    }

    /// Collapse the running span to a zero-width point at its current end, so
    /// that the next construct's span starts fresh.
    pub fn reset_location_counter(&mut self)
        ensures
            final(self).toks() == old(self).toks(),
            final(self).pos() == old(self).pos(),
            final(self).loc() == (FileLocation {
                start: old(self).loc().end,
                end: old(self).loc().end,
            }),
            old(self).wf() ==> final(self).wf(),
    {
        self.location = FileLocation { start: self.location.end, end: self.location.end };
    }

    /// Consume one token and extend the running span's end to the consumed
    /// token's end.
    pub fn next(&mut self) -> (r: Option<&'a Token>)
        requires
            old(self).wf(),
        ensures
            final(self).wf(),
            final(self).toks() == old(self).toks(),
            match r {
                Some(t) => {
                    &&& old(self).pos() < old(self).toks().len()
                    &&& *t == old(self).toks()[old(self).pos()].0
                    &&& final(self).pos() == old(self).pos() + 1
                    &&& final(self).loc() == (FileLocation {
                        start: old(self).loc().start,
                        end: old(self).toks()[old(self).pos()].1.end,
                    })
                },
                None => {
                    &&& old(self).pos() >= old(self).toks().len()
                    &&& final(self).pos() == old(self).pos()
                    &&& final(self).loc() == old(self).loc()
                },
            },
    {
        if self.index < self.tokens.len() {
            let t = &self.tokens[self.index].0;
            self.location = FileLocation {
                start: self.location.start,
                end: self.tokens[self.index].1.end,
            };
            self.index = self.index + 1;
            Some(t)
        } else {
            None
        }
    }
}

} // verus!
