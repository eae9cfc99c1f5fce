//! Per-character cursor and span arithmetic shared by both recognizers.

use vstd::prelude::*;

verus! {

/// A cursor position supplied by the caller: zero-based line and column.
#[derive(Clone, Copy, Debug, PartialEq, Eq, Structural)]
pub struct Position {
    pub line: u32,
    pub character: u32,
}

/// A recognizer's live cursor/span state. `-1` means "offset unset".
#[derive(Clone, Copy, Debug, PartialEq, Eq, Structural)]
pub struct Location {
    pub in_range: bool,
    pub line_position: u32,
    pub start_char_position: i64,
    pub end_char_position: i64,
}

/// The same state over unbounded integers, for specifications.
pub struct LocModel {
    pub in_range: bool,
    pub line: int,
    pub start: int,
    pub end: int,
}

impl View for Location {
    type V = LocModel;

    open spec fn view(&self) -> LocModel {
        LocModel {
            in_range: self.in_range,
            line: self.line_position as int,
            start: self.start_char_position as int,
            end: self.end_char_position as int,
        }
    }
}

/// The state of a fresh tracker: line zero, both offsets unset.
pub open spec fn loc_init() -> LocModel {
    LocModel { in_range: false, line: 0, start: -1, end: -1 }
}

/// Advancing over one character. A newline starts a fresh line with both
/// offsets unset; any other character extends the end offset, and drags the
/// start offset along while no span is open.
pub open spec fn loc_next(l: LocModel, c: char) -> LocModel {
    if c == '\n' {
        LocModel { in_range: false, line: l.line + 1, start: -1, end: -1 }
    } else {
        LocModel {
            in_range: l.in_range,
            line: l.line,
            start: if l.in_range { l.start } else { l.start + 1 },
            end: l.end + 1,
        }
    }
}

/// Opening a span: the start offset freezes at its current value.
pub open spec fn loc_mark(l: LocModel) -> LocModel {
    LocModel { in_range: true, ..l }
}

/// Abandoning a span: the next span begins at the current end offset.
pub open spec fn loc_resume(l: LocModel) -> LocModel {
    LocModel { in_range: false, start: l.end, ..l }
}

/// Whether a cursor position falls on this span: same line, both offsets set,
/// and the column between them inclusively.
pub open spec fn loc_contains(l: LocModel, line: int, character: int) -> bool {
    &&& line == l.line
    &&& l.start >= 0
    &&& character >= l.start
    &&& l.end >= 0
    &&& character <= l.end
}

impl Location {
    /// Advance the tracker over one character.
    pub fn next(&mut self, c: char)
        requires
            old(self).line_position < u32::MAX,
            old(self).start_char_position < i64::MAX,
            old(self).end_char_position < i64::MAX,
        ensures
            final(self)@ == loc_next(old(self)@, c),
    {
        if c == '\n' {
            self.in_range = false;
            self.line_position = self.line_position + 1;
            self.start_char_position = -1;
            self.end_char_position = -1;
        } else {
            if !self.in_range {
                self.start_char_position = self.start_char_position + 1;
            }
            self.end_char_position = self.end_char_position + 1;
        }
    }

    /// Open a span at the current offset.
    pub fn in_range(&mut self)
        ensures
            final(self)@ == loc_mark(old(self)@),
    {
        self.in_range = true;
    }

    /// Close the span and begin a new one right after it.
    pub fn resume(&mut self)
        ensures
            final(self)@ == loc_resume(old(self)@),
    {
        self.in_range = false;
        self.start_char_position = self.end_char_position;
    }

    /// Whether the given cursor position falls on this span.
    pub fn contains(&self, position: &Position) -> (r: bool)
        ensures
            r == loc_contains(self@, position.line as int, position.character as int),
    {
        position.line == self.line_position && self.start_char_position >= 0
            && position.character as i64 >= self.start_char_position
            && self.end_char_position >= 0
            && position.character as i64 <= self.end_char_position
    }
}

impl Default for Location {
    /// A fresh tracker, outside any span.
    fn default() -> (r: Self)
        ensures
            r@ == loc_init(),
    {
        Self {
            in_range: false,
            line_position: 0,
            start_char_position: -1,
            end_char_position: -1,
        }
    }
}

} // verus!
