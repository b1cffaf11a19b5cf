//! Rewriting one file: the windows around its reported positions, and the
//! replacement of the matches that start inside them.

use crate::pattern::{Pattern, regex_replacements};
use crate::position::{BytePosition, Position};
use crate::positional_replacer::{PositionalReplacer, RangeSet, rewritten};
use std::ops::Range;
use vstd::math::max;
use vstd::prelude::*;
use vstd::string::StringSliceAdditionalSpecFns;
use vstd::utf8::encode_utf8;

verus! {

/// The range of bytes that the window of `lines` lines around a position
/// takes up in a text: from the start of the first line of the window to the
/// start of its last line.
pub open spec fn window(text: Seq<u8>, position: Position, lines: u32) -> Range<BytePosition> {
    Range {
        start: BytePosition(
            Position::Line(max(1, position.line() - lines) as u32).byte_offset(text) as usize,
        ),
        end: BytePosition(
            Position::Line((position.line() + lines) as u32).byte_offset(text) as usize,
        ),
    }
}

/// The windows around each of the positions, in the order of the positions.
pub open spec fn windows(text: Seq<u8>, positions: Seq<Position>, lines: u32) -> Seq<
    Range<BytePosition>,
> {
    Seq::new(positions.len(), |i: int| window(text, positions[i], lines))
}

/// Whether the window of `lines` lines can be laid around each position:
/// each is counted from 1, and the last line of its window is a number of 32
/// bits.
pub open spec fn windows_fit(positions: Seq<Position>, lines: u32) -> bool {
    forall|i: int|
        0 <= i < positions.len() ==> (#[trigger] positions[i]).wf() && positions[i].line() + lines
            <= u32::MAX
}

/// Whether the window of `lines` lines can be laid around each position.
pub fn check_windows(positions: &Vec<Position>, lines: u32) -> (fit: bool)
    ensures
        fit == windows_fit(positions@, lines),
{
    let mut i: usize = 0;
    while i < positions.len()
        invariant
            i <= positions@.len(),
            forall|j: int|
                0 <= j < i ==> (#[trigger] positions@[j]).wf() && positions@[j].line() + lines
                    <= u32::MAX,
        decreases positions@.len() - i,
    {
        let (line, column): (u32, u32) = match positions[i] {
            Position::Line(line) => (line, 1),
            Position::LineColumn(line, column) => (line, column),
        };
        if line == 0 || column == 0 || line > u32::MAX - lines {
            return false;
        }
        i = i + 1;
    }
    true
}

/// The ranges of a file's text in which matches are replaced: the windows of
/// `lines` lines around the positions.
pub fn ranges_around(file: &str, positions: &Vec<Position>, lines: u32) -> (ranges: RangeSet)
    requires
        windows_fit(positions@, lines),
    ensures
        ranges@ == windows(file.spec_bytes(), positions@, lines),
{
    let mut ranges: Vec<Range<BytePosition>> = Vec::new();
    let mut i: usize = 0;
    while i < positions.len()
        invariant
            i <= positions@.len(),
            windows_fit(positions@, lines),
            ranges@.len() == i,
            forall|j: int|
                0 <= j < i ==> (#[trigger] ranges@[j]) == window(
                    file.spec_bytes(),
                    positions@[j],
                    lines,
                ),
        decreases positions@.len() - i,
    {
        assert(positions@[i as int].wf());
        let (first, last) = positions[i].lines_around(lines);
        let start = first.to_byte_position(file);
        let end = last.to_byte_position(file);
        ranges.push(Range { start, end });
        i = i + 1;
    }
    assert(ranges@ =~= windows(file.spec_bytes(), positions@, lines));
    RangeSet::new(ranges)
}

/// The text of a file with the matches of the search pattern replaced by the
/// expanded template, as far as they start within `lines` lines around one of
/// the positions. All else is kept.
pub fn replace_all(
    search: &Pattern,
    replace: &str,
    file: &str,
    positions: &Vec<Position>,
    lines: u32,
) -> (out: String)
    requires
        windows_fit(positions@, lines),
    ensures
        encode_utf8(out@) == rewritten(
            file.spec_bytes(),
            regex_replacements(search@, file@, replace@),
            windows(file.spec_bytes(), positions@, lines),
        ),
{
    let ranges = ranges_around(file, positions, lines);
    let replacer = PositionalReplacer::new(file, ranges, replace);
    replacer.replace_all(search)
}

} // verus!
