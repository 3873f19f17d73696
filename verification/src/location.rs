//! Source positions and spans.
//!
//! A [`LineLocation`] is a `(line, offset)` position inside one source file,
//! ordered first by line and then by offset.  A [`FileLocation`] is a
//! half-open range of positions; every token and every syntax-tree node
//! carries one.

use vstd::prelude::*;

verus! {

/// A position inside one source file: a line number and a character offset
/// within that line.  Positions are totally ordered by line, then offset.
#[derive(Debug, Clone, Copy, PartialEq, Eq, Structural)]
pub struct LineLocation {
    pub line: usize,
    pub offset: usize,
}

/// `a` is at or before `b` in the line-then-offset order.
pub open spec fn loc_le(a: LineLocation, b: LineLocation) -> bool {
    a.line < b.line || (a.line == b.line && a.offset <= b.offset)
}

impl LineLocation {
    pub fn new(line: usize, offset: usize) -> (r: Self)
        ensures
            r.line == line,
            r.offset == offset,
    {
        Self { line, offset }
    }

    /// `self` is at or before `other` in the position order.
    pub fn le(&self, other: &Self) -> (r: bool)
        ensures
            r == loc_le(*self, *other),
    {
        self.line < other.line || (self.line == other.line && self.offset <= other.offset)
    }
}

impl Default for LineLocation {
    fn default() -> (r: Self)
        ensures
            r.line == 0,
            r.offset == 0,
    {
        Self { line: 0, offset: 0 }
    }
}

impl PartialOrd for LineLocation {
    fn partial_cmp(&self, other: &Self) -> (r: Option<core::cmp::Ordering>) {
        if self.line < other.line {
            Some(core::cmp::Ordering::Less)
        } else if self.line > other.line {
            Some(core::cmp::Ordering::Greater)
        } else if self.offset < other.offset {
            Some(core::cmp::Ordering::Less)
        } else if self.offset > other.offset {
            Some(core::cmp::Ordering::Greater)
        } else {
            Some(core::cmp::Ordering::Equal)
        }
    }
}

impl vstd::std_specs::cmp::PartialOrdSpecImpl for LineLocation {
    open spec fn obeys_partial_cmp_spec() -> bool {
        true
    }

    open spec fn partial_cmp_spec(&self, other: &Self) -> Option<core::cmp::Ordering> {
        if self.line < other.line {
            Some(core::cmp::Ordering::Less)
        } else if self.line > other.line {
            Some(core::cmp::Ordering::Greater)
        } else if self.offset < other.offset {
            Some(core::cmp::Ordering::Less)
        } else if self.offset > other.offset {
            Some(core::cmp::Ordering::Greater)
        } else {
            Some(core::cmp::Ordering::Equal)
        }
    }
}

/// A span: the range of text from `start` to `end` inside one source file.
#[derive(Debug, Clone, Copy, PartialEq, Eq, Structural)]
pub struct FileLocation {
    pub start: LineLocation,
    pub end: LineLocation,
}

/// A span is well formed when its start does not come after its end.
pub open spec fn span_wf(l: FileLocation) -> bool {
    loc_le(l.start, l.end)
}

/// The smallest span covering both `a` and `b`: the earlier start and the
/// later end.
pub open spec fn span_cover(a: FileLocation, b: FileLocation) -> FileLocation {
    FileLocation {
        start: if loc_le(a.start, b.start) {
            a.start
        } else {
            b.start
        },
        end: if loc_le(a.end, b.end) {
            b.end
        } else {
            a.end
        },
    }
}

impl FileLocation {
    pub fn new(start: LineLocation, end: LineLocation) -> (r: Self)
        ensures
            r.start == start,
            r.end == end,
    {
        Self { start, end }
    }

    /// Combine two spans into the one covering both.
    pub fn merge(self, rhs: Self) -> (r: Self)
        ensures
            r == span_cover(self, rhs),
    {
        Self {
            start: if self.start.le(&rhs.start) {
                self.start
            } else {
                rhs.start
            },
            end: if self.end.le(&rhs.end) {
                rhs.end
            } else {
                self.end
            },
        }
    }
}

impl Default for FileLocation {
    fn default() -> (r: Self)
        ensures
            r.start.line == 0,
            r.start.offset == 0,
            r.end.line == 0,
            r.end.offset == 0,
    {
        Self { start: LineLocation { line: 0, offset: 0 }, end: LineLocation { line: 0, offset: 0 } }
    }
}

/// Covering two spans is commutative: the order of the arguments does not
/// matter.
pub proof fn lemma_span_cover_commutes(a: FileLocation, b: FileLocation)
    ensures
        span_cover(a, b) == span_cover(b, a),
{
}

/// Covering preserves well-formedness.
pub proof fn lemma_span_cover_wf(a: FileLocation, b: FileLocation)
    requires
        span_wf(a),
        span_wf(b),
    ensures
        span_wf(span_cover(a, b)),
{
}

} // verus!
