//! Finding position reports in text.
//!
//! Two matchers read positions out of a text: one reads the diagnostics of
//! the Rust compiler, the other applies a pattern of the caller with three
//! capture groups for path, line and column.

use crate::level::{RustLevel, is_summary, lemma_levels_exclusive, opens_error, opens_warning};
use crate::number::{decimal_u32, parse_u32};
use crate::pattern::{Pattern, pattern_is_valid, regex_all_matches, regex_first_match};
use crate::position::{FilePosition, Position};
use crate::text::{
    at_char_start, lemma_char_start_after_ascii, lemma_char_start_is_boundary,
    has_line, lemma_line_break_bounds, lemma_line_content_end_bounds, lemma_line_start_bounds,
    line_break, line_content, line_content_end, line_extent, line_start, next_line_start,
    substring,
};
use vstd::prelude::*;
use vstd::string::StringSliceAdditionalSpecFns;
use vstd::utf8::{decode_utf8, encode_utf8, encode_utf8_decode_utf8, encode_utf8_valid_utf8};

verus! {

/// The pattern of the line that follows the opening line of a diagnostic and
/// names a Rust source file, a line and a column.
pub const LOCATION_PATTERN: &'static str = "--> (.+\\.rs):(\\d+):(\\d+)";

/// Why no positions were found.
#[derive(Debug, Clone)]
pub enum PositionError {
    /// The regex engine rejects the pattern, which the error holds.
    Configuration(String),
    /// A match lacks one of the capture groups for path, line and column.
    MalformedInput,
    /// A position report could not be read. The error holds the report: the
    /// line or the match that names no position, or whose line or column is
    /// no number from 1 to `u32::MAX`.
    PositionParse(String),
}

/// A `PositionError` with its texts as sequences of characters.
pub enum PositionErrorView {
    Configuration(Seq<char>),
    MalformedInput,
    PositionParse(Seq<char>),
}

impl DeepView for PositionError {
    type V = PositionErrorView;

    open spec fn deep_view(&self) -> PositionErrorView {
        match self {
            PositionError::Configuration(pattern) => PositionErrorView::Configuration(pattern@),
            PositionError::MalformedInput => PositionErrorView::MalformedInput,
            PositionError::PositionParse(report) => PositionErrorView::PositionParse(report@),
        }
    }
}

/// The positions found, or the failure, with texts as sequences of
/// characters.
pub type Reports = Result<Seq<(Seq<char>, Position)>, PositionErrorView>;

/// What a matcher returned, with texts as sequences of characters.
pub open spec fn reports_view(found: Result<Vec<FilePosition>, PositionError>) -> Reports {
    match found {
        Ok(positions) => Ok(positions.deep_view()),
        Err(error) => Err(error.deep_view()),
    }
}

/// The position that the capture groups of one match name. Group 1 is the
/// path, group 2 the line and group 3 the column. `report` is the text in
/// which the match was found.
pub open spec fn located(groups: Seq<Option<Seq<char>>>, report: Seq<char>) -> Result<
    (Seq<char>, Position),
    PositionErrorView,
> {
    if groups.len() < 4 || groups[1] is None || groups[2] is None || groups[3] is None {
        Err(PositionErrorView::MalformedInput)
    } else {
        let line = decimal_u32(encode_utf8(groups[2]->0));
        let column = decimal_u32(encode_utf8(groups[3]->0));
        if line is Some && column is Some && line->0 >= 1 && column->0 >= 1 {
            Ok((groups[1]->0, Position::LineColumn(line->0, column->0)))
        } else {
            Err(PositionErrorView::PositionParse(report))
        }
    }
}

/// The positions found so far, followed by what the rest of the input gives.
pub open spec fn followed_by(done: Seq<(Seq<char>, Position)>, rest: Reports) -> Reports {
    match rest {
        Ok(more) => Ok(done + more),
        Err(error) => Err(error),
    }
}

/// The position that the capture groups of one match name: the path from
/// group 1, the line from group 2 and the column from group 3.
pub fn position_from_groups(groups: &Vec<Option<String>>, report: &str) -> (r: Result<
    FilePosition,
    PositionError,
>)
    ensures
        match located(groups.deep_view(), report@) {
            Ok(position) => r is Ok && r->Ok_0.deep_view() == position,
            Err(error) => r is Err && r->Err_0.deep_view() == error,
        },
        r matches Ok(found) ==> found.position.wf(),
{
    if groups.len() < 4 {
        return Err(PositionError::MalformedInput);
    }
    assert(groups.deep_view()[1] == groups@[1].deep_view());
    assert(groups.deep_view()[2] == groups@[2].deep_view());
    assert(groups.deep_view()[3] == groups@[3].deep_view());
    match (&groups[1], &groups[2], &groups[3]) {
        (Some(path), Some(line), Some(column)) => {
            match (parse_u32(line.as_str()), parse_u32(column.as_str())) {
                (Some(line), Some(column)) => {
                    if line >= 1 && column >= 1 {
                        Ok(
                            FilePosition {
                                path: path.clone(),
                                position: Position::LineColumn(line, column),
                            },
                        )
                    } else {
                        Err(PositionError::PositionParse(report.to_owned()))
                    }
                },
                _ => Err(PositionError::PositionParse(report.to_owned())),
            }
        },
        _ => Err(PositionError::MalformedInput),
    }
}

/// The position that a line after the opening line of a diagnostic names,
/// given what the location pattern finds in it.
pub open spec fn located_in_line(found: Option<Seq<Option<Seq<char>>>>, line: Seq<char>) -> Result<
    (Seq<char>, Position),
    PositionErrorView,
> {
    match found {
        Some(groups) => located(groups, line),
        None => Err(PositionErrorView::PositionParse(line)),
    }
}

/// The positions that a level's diagnostics report in the lines of `text`
/// from the line that starts at `from` on. Each line that announces a
/// diagnostic of the level and has a line after it reports the position that
/// this next line names. The first line that names none ends the search.
pub open spec fn diagnostics_from(level: RustLevel, text: Seq<u8>, from: int) -> Reports
    decreases text.len() - from,
    when 0 <= from
    via diagnostics_from_decreases
{
    let next = next_line_start(text, from);
    if from >= text.len() || next >= text.len() {
        Ok(Seq::empty())
    } else if !level.accepts(text.subrange(from, line_content_end(text, from))) {
        diagnostics_from(level, text, next)
    } else {
        let line = decode_utf8(text.subrange(next, line_content_end(text, next)));
        match located_in_line(regex_first_match(LOCATION_PATTERN@, line), line) {
            Ok(position) => followed_by(seq![position], diagnostics_from(level, text, next)),
            Err(error) => Err(error),
        }
    }
}

#[via_fn]
proof fn diagnostics_from_decreases(level: RustLevel, text: Seq<u8>, from: int) {
    if from < text.len() {
        lemma_line_break_bounds(text, from);
    }
}

/// The positions that a level's diagnostics report in a text.
pub open spec fn diagnostics(level: RustLevel, text: Seq<char>) -> Reports {
    if pattern_is_valid(LOCATION_PATTERN@) {
        diagnostics_from(level, encode_utf8(text), 0)
    } else {
        Err(PositionErrorView::Configuration(LOCATION_PATTERN@))
    }
}

/// The positions that the successive matches of a pattern name. The first
/// match that names none ends the search. A match is reported by its whole
/// text, which is group 0.
pub open spec fn matched_positions(found: Seq<Seq<Option<Seq<char>>>>) -> Reports
    decreases found.len(),
{
    if found.len() == 0 {
        Ok(Seq::empty())
    } else {
        match located(found[0], whole_match(found[0])) {
            Ok(position) => followed_by(seq![position], matched_positions(found.drop_first())),
            Err(error) => Err(error),
        }
    }
}

/// The text of the whole match, group 0, or no text where the groups lack it.
pub open spec fn whole_match(groups: Seq<Option<Seq<char>>>) -> Seq<char> {
    if groups.len() > 0 && groups[0] is Some {
        groups[0]->0
    } else {
        Seq::empty()
    }
}

/// A position matcher takes a text and finds the positions in files that the
/// text reports.
pub trait PositionMatcher {
    /// The positions that the matcher finds in an input, or the failure.
    spec fn reports(&self, input: Seq<char>) -> Reports;

    /// Find positions in the input.
    fn find_positions(&self, input: &str) -> (found: Result<Vec<FilePosition>, PositionError>)
        ensures
            reports_view(found) == self.reports(input@),
            found matches Ok(positions) ==> forall|i: int|
                0 <= i < positions.len() ==> (#[trigger] positions[i]).position.wf(),
    ;
}

/// Finds the positions that the diagnostics of the Rust compiler report.
#[derive(Debug, Clone, Copy)]
pub struct RustPositionMatcher {
    level: RustLevel,
}

impl RustPositionMatcher {
    /// The level of the diagnostics that the matcher reads.
    pub closed spec fn level(&self) -> RustLevel {
        self.level
    }

    /// A matcher for the diagnostics of a level.
    pub fn new(level: RustLevel) -> (matcher: Self)
        ensures
            matcher.level() == level,
    {
        Self { level }
    }
}

/// The position that a line after the opening line of a diagnostic names,
/// given what the location pattern found in it.
pub fn position_from_line(found: &Option<Vec<Option<String>>>, line: &str) -> (r: Result<
    FilePosition,
    PositionError,
>)
    ensures
        match located_in_line(found.deep_view(), line@) {
            Ok(position) => r is Ok && r->Ok_0.deep_view() == position,
            Err(error) => r is Err && r->Err_0.deep_view() == error,
        },
        r matches Ok(position) ==> position.position.wf(),
{
    match found {
        Some(groups) => position_from_groups(groups, line),
        None => Err(PositionError::PositionParse(line.to_owned())),
    }
}

impl PositionMatcher for RustPositionMatcher {
    open spec fn reports(&self, input: Seq<char>) -> Reports {
        diagnostics(self.level(), input)
    }

    fn find_positions(&self, input: &str) -> (found: Result<Vec<FilePosition>, PositionError>) {
        let location = match Pattern::new(LOCATION_PATTERN) {
            Ok(location) => location,
            Err(_) => {
                return Err(PositionError::Configuration(LOCATION_PATTERN.to_owned()));
            },
        };
        let text = input.as_bytes();
        let length: usize = text.len();
        let mut positions: Vec<FilePosition> = Vec::new();
        let mut from: usize = 0;
        proof {
            encode_utf8_valid_utf8(input@);
            lemma_char_start_is_boundary(text@, 0);
        }
        while from < length
            invariant
                from <= length == text@.len(),
                text@ == input.spec_bytes(),
                vstd::utf8::valid_utf8(text@),
                at_char_start(text@, from as int),
                location@ == LOCATION_PATTERN@,
                pattern_is_valid(LOCATION_PATTERN@),
                followed_by(
                    positions.deep_view(),
                    diagnostics_from(self.level(), text@, from as int),
                ) == diagnostics_from(self.level(), text@, 0),
                forall|i: int|
                    0 <= i < positions.len() ==> (#[trigger] positions[i]).position.wf(),
            decreases length - from,
        {
            let (end, next) = line_extent(text, from);
            proof {
                lemma_line_break_bounds(text@, from as int);
                lemma_line_content_end_bounds(text@, from as int);
                if line_break(text@, from as int) < length {
                    lemma_char_start_after_ascii(text@, line_break(text@, from as int));
                }
            }
            if next < length {
                let opening = substring(input, from, end);
                if self.level.matches(opening) {
                    let (next_end, _) = line_extent(text, next);
                    proof {
                        lemma_line_content_end_bounds(text@, next as int);
                    }
                    let line = substring(input, next, next_end);
                    proof {
                        encode_utf8_decode_utf8(line@);
                    }
                    let groups = location.first_match(line);
                    match position_from_line(&groups, line) {
                        Ok(position) => {
                            let ghost before = positions.deep_view();
                            positions.push(position);
                            proof {
                                assert(positions.deep_view() =~= before + seq![
                                    position.deep_view(),
                                ]);
                                lemma_followed_by_one(
                                    before,
                                    position.deep_view(),
                                    diagnostics_from(self.level(), text@, next as int),
                                );
                            }
                        },
                        Err(error) => {
                            return Err(error);
                        },
                    }
                }
            }
            from = next;
        }
        proof {
            assert(positions.deep_view() + Seq::empty() =~= positions.deep_view());
        }
        Ok(positions)
    }
}

/// Positions found, followed by one more and then the rest, are the
/// positions with the one more, followed by the rest.
pub proof fn lemma_followed_by_one(
    done: Seq<(Seq<char>, Position)>,
    one: (Seq<char>, Position),
    rest: Reports,
)
    ensures
        followed_by(done, followed_by(seq![one], rest)) == followed_by(done + seq![one], rest),
{
    if let Ok(more) = rest {
        assert(done + (seq![one] + more) =~= (done + seq![one]) + more);
    }
}

/// Finds the positions that the matches of a pattern name: the path in the
/// first capture group, the line in the second and the column in the third.
#[derive(Debug)]
pub struct RegexPositionMatcher {
    regex: Pattern,
}

impl RegexPositionMatcher {
    /// The text of the matcher's pattern.
    pub closed spec fn pattern(&self) -> Seq<char> {
        self.regex@
    }

    /// A matcher for a pattern, if the pattern compiles.
    pub fn new(regex: &str) -> (r: Result<Self, PositionError>)
        ensures
            r is Ok <==> pattern_is_valid(regex@),
            r matches Ok(matcher) ==> matcher.pattern() == regex@,
            r matches Err(error) ==> error.deep_view() == PositionErrorView::Configuration(regex@),
    {
        match Pattern::new(regex) {
            Ok(regex) => Ok(Self { regex }),
            Err(error) => Err(PositionError::Configuration(error.pattern)),
        }
    }
}

/// The positions that the capture groups of the successive matches of a
/// pattern name.
pub fn positions_from_matches(found: &Vec<Vec<Option<String>>>) -> (r: Result<
    Vec<FilePosition>,
    PositionError,
>)
    ensures
        reports_view(r) == matched_positions(found.deep_view()),
        r matches Ok(positions) ==> forall|i: int|
            0 <= i < positions.len() ==> (#[trigger] positions[i]).position.wf(),
{
    let ghost all = found.deep_view();
    let mut positions: Vec<FilePosition> = Vec::new();
    let mut i: usize = 0;
    proof {
        assert(all.subrange(0, all.len() as int) =~= all);
    }
    while i < found.len()
        invariant
            i <= found@.len(),
            all == found.deep_view(),
            followed_by(
                positions.deep_view(),
                matched_positions(all.subrange(i as int, all.len() as int)),
            ) == matched_positions(all),
            forall|j: int| 0 <= j < positions.len() ==> (#[trigger] positions[j]).position.wf(),
        decreases found@.len() - i,
    {
        let groups = &found[i];
        let ghost rest = all.subrange(i as int, all.len() as int);
        proof {
            assert(rest[0] == groups.deep_view());
            assert(rest.drop_first() =~= all.subrange(i + 1, all.len() as int));
            reveal_strlit("");
            assert(""@ =~= Seq::<char>::empty());
        }
        let located = if groups.len() > 0 {
            assert(groups.deep_view()[0] == groups@[0].deep_view());
            match &groups[0] {
                Some(whole) => position_from_groups(groups, whole.as_str()),
                None => position_from_groups(groups, ""),
            }
        } else {
            position_from_groups(groups, "")
        };
        match located {
            Ok(position) => {
                let ghost before = positions.deep_view();
                positions.push(position);
                proof {
                    assert(positions.deep_view() =~= before + seq![position.deep_view()]);
                    lemma_followed_by_one(
                        before,
                        position.deep_view(),
                        matched_positions(rest.drop_first()),
                    );
                }
            },
            Err(error) => {
                return Err(error);
            },
        }
        i = i + 1;
    }
    proof {
        assert(positions.deep_view() + Seq::empty() =~= positions.deep_view());
    }
    Ok(positions)
}

impl PositionMatcher for RegexPositionMatcher {
    open spec fn reports(&self, input: Seq<char>) -> Reports {
        matched_positions(regex_all_matches(self.pattern(), input))
    }

    fn find_positions(&self, input: &str) -> (found: Result<Vec<FilePosition>, PositionError>) {
        let matches = self.regex.all_matches(input);
        positions_from_matches(&matches)
    }
}

/// A line that the level does not accept reports nothing: the search gives
/// what it gives from the next line on.
pub proof fn lemma_unaccepted_line_reports_nothing(level: RustLevel, text: Seq<u8>, from: int)
    requires
        0 <= from < text.len(),
        !level.accepts(text.subrange(from, line_content_end(text, from))),
    ensures
        diagnostics_from(level, text, from) == diagnostics_from(
            level,
            text,
            next_line_start(text, from),
        ),
{
    lemma_line_break_bounds(text, from);
}

/// The filters for errors and for warnings exclude each other. With the
/// error filter a line that opens a warning reports nothing, and with the
/// warning filter a line that opens an error reports nothing.
pub proof fn lemma_other_level_reports_nothing(text: Seq<u8>, from: int)
    requires
        0 <= from < text.len(),
    ensures
        opens_warning(text.subrange(from, line_content_end(text, from))) ==> diagnostics_from(
            RustLevel::Error,
            text,
            from,
        ) == diagnostics_from(RustLevel::Error, text, next_line_start(text, from)),
        opens_error(text.subrange(from, line_content_end(text, from))) ==> diagnostics_from(
            RustLevel::Warning,
            text,
            from,
        ) == diagnostics_from(RustLevel::Warning, text, next_line_start(text, from)),
{
    let line = text.subrange(from, line_content_end(text, from));
    lemma_levels_exclusive(line);
    if opens_warning(line) {
        lemma_unaccepted_line_reports_nothing(RustLevel::Error, text, from);
    }
    if opens_error(line) {
        lemma_unaccepted_line_reports_nothing(RustLevel::Warning, text, from);
    }
}

/// A summary line reports nothing with any filter, whatever the line after
/// it holds.
pub proof fn lemma_summary_reports_nothing(level: RustLevel, text: Seq<u8>, from: int)
    requires
        0 <= from < text.len(),
        is_summary(text.subrange(from, line_content_end(text, from))),
    ensures
        diagnostics_from(level, text, from) == diagnostics_from(
            level,
            text,
            next_line_start(text, from),
        ),
{
    lemma_unaccepted_line_reports_nothing(level, text, from);
}

/// From any line on, a text without a line that the level accepts reports no
/// position.
proof fn lemma_unannounced_from(level: RustLevel, text: Seq<u8>, index: nat)
    requires
        forall|k: nat| has_line(text, k) ==> !level.accepts(#[trigger] line_content(text, k)),
    ensures
        diagnostics_from(level, text, line_start(text, index)) == Ok::<_, PositionErrorView>(
            Seq::<(Seq<char>, Position)>::empty(),
        ),
    decreases text.len() - line_start(text, index),
{
    let from = line_start(text, index);
    lemma_line_start_bounds(text, index);
    if from < text.len() {
        lemma_line_break_bounds(text, from);
        assert(has_line(text, index));
        assert(!level.accepts(line_content(text, index)));
        assert(line_start(text, index + 1) == next_line_start(text, from));
        lemma_unannounced_from(level, text, index + 1);
        lemma_unaccepted_line_reports_nothing(level, text, from);
    }
}

/// A text without a line that the level accepts reports no position.
pub proof fn lemma_unannounced_reports_nothing(level: RustLevel, text: Seq<u8>)
    requires
        forall|k: nat| has_line(text, k) ==> !level.accepts(#[trigger] line_content(text, k)),
    ensures
        diagnostics_from(level, text, 0) == Ok::<_, PositionErrorView>(
            Seq::<(Seq<char>, Position)>::empty(),
        ),
{
    lemma_unannounced_from(level, text, 0);
}

} // verus!
