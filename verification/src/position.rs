//! Positions in a file, by line and column and by byte offset.

use crate::text::{
    char_count, find_line_start, has_line, lemma_char_start_is_boundary,
    lemma_line_content_end_bounds, lemma_line_start_bounds, lemma_line_start_is_char_start,
    lemma_line_start_monotonic, lemma_skip_chars, lemma_skip_chars_monotonic, line_content_end,
    line_extent, line_start, skip_chars, skip_columns,
};
use vstd::math::max;
use vstd::prelude::*;
use vstd::string::StringSliceAdditionalSpecFns;
use vstd::utf8::*;

verus! {

/// A position in a file. Lines and columns are counted from 1; a column
/// counts characters.
#[derive(Debug, Clone, Copy, PartialEq, Eq, Structural)]
pub enum Position {
    /// The start of a line.
    Line(u32),
    /// A column of a line.
    LineColumn(u32, u32),
}

/// A position in a named file.
#[derive(Debug, Clone)]
pub struct FilePosition {
    /// The file path.
    pub path: String,
    /// The position inside the file.
    pub position: Position,
}

/// A position in a file, as an offset in bytes from the start of its text.
#[derive(Debug, Clone, Copy, PartialEq, Eq, PartialOrd, Ord, Structural)]
pub struct BytePosition(pub usize);

/// Why a position has no byte offset in a text.
#[derive(Debug, Clone, Copy, PartialEq, Eq, Structural)]
pub enum ByteConversionError {
    /// The line or the column is 0.
    NotOneBased,
    /// The line exists and holds fewer characters than the column asks for.
    ColumnOutOfBounds,
}

impl DeepView for FilePosition {
    type V = (Seq<char>, Position);

    open spec fn deep_view(&self) -> (Seq<char>, Position) {
        (self.path@, self.position)
    }
}

impl Position {
    /// The line of the position.
    pub open spec fn line(self) -> u32 {
        match self {
            Position::Line(line) => line,
            Position::LineColumn(line, _) => line,
        }
    }

    /// The column of the position: a position without one lies in column 1.
    pub open spec fn column(self) -> u32 {
        match self {
            Position::Line(_) => 1,
            Position::LineColumn(_, column) => column,
        }
    }

    /// Lines and columns start at 1.
    pub open spec fn wf(self) -> bool {
        self.line() >= 1 && self.column() >= 1
    }

    /// The start of the line of this position, where the text has that line.
    pub open spec fn line_offset(self, text: Seq<u8>) -> int {
        line_start(text, (self.line() - 1) as nat)
    }

    /// Whether the text has the line of this position.
    pub open spec fn on_line_of(self, text: Seq<u8>) -> bool {
        self.line() >= 1 && has_line(text, (self.line() - 1) as nat)
    }

    /// Whether the column lies within its line, or directly behind the last
    /// character of it. A position on a line that the text does not have
    /// makes no demand.
    pub open spec fn column_fits(self, text: Seq<u8>) -> bool {
        self.on_line_of(text) ==> self.column() - 1 <= char_count(
            text,
            self.line_offset(text),
            line_content_end(text, self.line_offset(text)),
        )
    }

    /// The byte offset of the position in the text: the offset of the line,
    /// moved on by the characters before the column. A position on a line
    /// that the text does not have is taken to the start of the text.
    pub open spec fn byte_offset(self, text: Seq<u8>) -> int {
        if self.on_line_of(text) {
            skip_chars(text, self.line_offset(text), (self.column() - 1) as nat)
        } else {
            0
        }
    }

    /// The window of lines around the position: from `lines` lines before
    /// it, but not before line 1, to `lines` lines after it. Columns are
    /// dropped.
    pub fn lines_around(&self, lines: u32) -> (window: (Position, Position))
        requires
            self.line() + lines <= u32::MAX,
        ensures
            window.0 == Position::Line(max(1, self.line() - lines) as u32),
            window.1 == Position::Line((self.line() + lines) as u32),
            window.0.wf(),
            self.wf() ==> window.1.wf(),
            self.wf() ==> window.0.line() <= self.line() <= window.1.line(),
    {
        let line: u32 = match self {
            Position::Line(line) => *line,
            Position::LineColumn(line, _) => *line,
        };
        let start: u32 = if line > lines {
            line - lines
        } else {
            1
        };
        (Position::Line(start), Position::Line(line + lines))
    }

    /// Whether `at` is where the column of this position starts: within the
    /// text and on a character boundary, and, where the text has the line,
    /// within the content of the line with exactly the characters before the
    /// column between the line's start and `at`.
    pub open spec fn marks_column(self, text: Seq<u8>, at: int) -> bool {
        &&& 0 <= at <= text.len()
        &&& is_char_boundary(text, at)
        &&& self.on_line_of(text) ==> {
            &&& self.line_offset(text) <= at <= line_content_end(text, self.line_offset(text))
            &&& char_count(text, self.line_offset(text), at) == self.column() - 1
        }
    }

    /// The byte offset of the position in the text, for a position whose
    /// column lies within its line.
    pub fn to_byte_position(&self, file_content: &str) -> (at: BytePosition)
        requires
            self.wf(),
            self.column_fits(file_content.spec_bytes()),
        ensures
            at.0 == self.byte_offset(file_content.spec_bytes()),
            self.marks_column(file_content.spec_bytes(), at.0 as int),
    {
        match self.checked_byte_position(file_content) {
            Ok(at) => at,
            Err(_) => BytePosition(0),
        }
    }

    /// The byte offset of the position in the text, or the reason why it has
    /// none.
    pub fn checked_byte_position(&self, file_content: &str) -> (r: Result<
        BytePosition,
        ByteConversionError,
    >)
        ensures
            r is Ok <==> self.wf() && self.column_fits(file_content.spec_bytes()),
            r matches Ok(at) ==> {
                &&& at.0 == self.byte_offset(file_content.spec_bytes())
                &&& self.marks_column(file_content.spec_bytes(), at.0 as int)
            },
            r matches Err(e) ==> e == if self.wf() {
                ByteConversionError::ColumnOutOfBounds
            } else {
                ByteConversionError::NotOneBased
            },
    {
        let (line, column): (u32, u32) = match self {
            Position::Line(line) => (*line, 1),
            Position::LineColumn(line, column) => (*line, *column),
        };
        if line == 0 || column == 0 {
            return Err(ByteConversionError::NotOneBased);
        }
        let text = file_content.as_bytes();
        proof {
            encode_utf8_valid_utf8(file_content@);
            lemma_char_start_is_boundary(text@, 0);
        }
        match find_line_start(text, (line - 1) as usize) {
            None => Ok(BytePosition(0)),
            Some(start) => {
                let extent = line_extent(text, start);
                proof {
                    lemma_line_start_is_char_start(text@, (line - 1) as nat);
                    lemma_line_content_end_bounds(text@, start as int);
                }
                match skip_columns(text, start, extent.0, (column - 1) as usize) {
                    None => Err(ByteConversionError::ColumnOutOfBounds),
                    Some(at) => {
                        proof {
                            lemma_skip_chars(
                                text@,
                                start as int,
                                extent.0 as int,
                                (column - 1) as nat,
                            );
                            lemma_char_start_is_boundary(text@, at as int);
                        }
                        Ok(BytePosition(at))
                    },
                }
            },
        }
    }
}

/// Byte offsets keep the order of positions. Of two positions on lines that
/// the text has, with columns that lie within their lines, the one that
/// comes first by line and then by column has the smaller or the same byte
/// offset.
pub proof fn lemma_byte_offset_monotonic(text: &str, earlier: Position, later: Position)
    requires
        earlier.wf(),
        later.wf(),
        earlier.on_line_of(text.spec_bytes()),
        later.on_line_of(text.spec_bytes()),
        earlier.column_fits(text.spec_bytes()),
        later.column_fits(text.spec_bytes()),
        earlier.line() < later.line() || (earlier.line() == later.line() && earlier.column()
            <= later.column()),
    ensures
        earlier.byte_offset(text.spec_bytes()) <= later.byte_offset(text.spec_bytes()),
{
    let bytes = text.spec_bytes();
    let first = (earlier.line() - 1) as nat;
    let second = (later.line() - 1) as nat;
    lemma_line_start_bounds(bytes, first);
    lemma_line_start_bounds(bytes, second);
    if first == second {
        lemma_skip_chars_monotonic(
            bytes,
            line_start(bytes, first),
            (earlier.column() - 1) as nat,
            (later.column() - 1) as nat,
        );
    } else {
        encode_utf8_valid_utf8(text@);
        lemma_line_start_is_char_start(bytes, first);
        lemma_line_content_end_bounds(bytes, line_start(bytes, first));
        lemma_skip_chars(
            bytes,
            line_start(bytes, first),
            line_content_end(bytes, line_start(bytes, first)),
            (earlier.column() - 1) as nat,
        );
        lemma_line_start_monotonic(bytes, first, second);
        lemma_skip_chars_monotonic(
            bytes,
            line_start(bytes, second),
            0,
            (later.column() - 1) as nat,
        );
    }
}

} // verus!
