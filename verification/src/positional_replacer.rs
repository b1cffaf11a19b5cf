//! Replacing the matches of a pattern within ranges of a text.

use crate::pattern::{Pattern, Replacement, regex_replacements};
use crate::position::BytePosition;
use crate::text::{
    append_str, at_char_start, is_char_start, lemma_char_start_is_boundary, substring,
};
use std::ops::Range;
use vstd::prelude::*;
use vstd::string::StringSliceAdditionalSpecFns;
use vstd::utf8::{encode_utf8, encode_utf8_valid_utf8};

verus! {

/// Whether one of the ranges holds the offset `point`. A range holds its
/// start and every offset before its end.
pub open spec fn covers(ranges: Seq<Range<BytePosition>>, point: int) -> bool {
    exists|i: int| 0 <= i < ranges.len() && (#[trigger] ranges[i]).start.0 <= point < ranges[i].end.0
}

/// Whether a match continues a scan of the text that has come to `cursor`:
/// it starts at or after the cursor, ends within the text, and both its ends
/// are places where a character can start.
pub open spec fn continues_scan(text: Seq<u8>, cursor: int, found: (usize, usize, Seq<char>)) -> bool {
    &&& cursor <= found.0 <= found.1 <= text.len()
    &&& at_char_start(text, found.0 as int)
    &&& at_char_start(text, found.1 as int)
}

/// What stands in the place of a match: its expansion if the ranges hold the
/// offset at which it starts, and else the matched text itself.
pub open spec fn replaced(
    text: Seq<u8>,
    ranges: Seq<Range<BytePosition>>,
    found: (usize, usize, Seq<char>),
) -> Seq<u8> {
    if covers(ranges, found.0 as int) {
        encode_utf8(found.2)
    } else {
        text.subrange(found.0 as int, found.1 as int)
    }
}

/// The rest of the text from `cursor` on, rewritten: the text between the
/// matches is kept, and each match is replaced or kept as the ranges say. A
/// match that does not continue the scan is passed over.
pub open spec fn rewritten_from(
    text: Seq<u8>,
    found: Seq<(usize, usize, Seq<char>)>,
    ranges: Seq<Range<BytePosition>>,
    cursor: int,
) -> Seq<u8>
    decreases found.len(),
{
    if found.len() == 0 {
        text.subrange(cursor, text.len() as int)
    } else if continues_scan(text, cursor, found[0]) {
        text.subrange(cursor, found[0].0 as int) + replaced(text, ranges, found[0])
            + rewritten_from(text, found.drop_first(), ranges, found[0].1 as int)
    } else {
        rewritten_from(text, found.drop_first(), ranges, cursor)
    }
}

/// The text with each match replaced by its expansion where the ranges hold
/// the match's start.
pub open spec fn rewritten(
    text: Seq<u8>,
    found: Seq<(usize, usize, Seq<char>)>,
    ranges: Seq<Range<BytePosition>>,
) -> Seq<u8> {
    rewritten_from(text, found, ranges, 0)
}

/// The rest of the text from `cursor` on, with every match replaced by its
/// expansion. A match that does not continue the scan is passed over.
pub open spec fn substituted_from(
    text: Seq<u8>,
    found: Seq<(usize, usize, Seq<char>)>,
    cursor: int,
) -> Seq<u8>
    decreases found.len(),
{
    if found.len() == 0 {
        text.subrange(cursor, text.len() as int)
    } else if continues_scan(text, cursor, found[0]) {
        text.subrange(cursor, found[0].0 as int) + encode_utf8(found[0].2) + substituted_from(
            text,
            found.drop_first(),
            found[0].1 as int,
        )
    } else {
        substituted_from(text, found.drop_first(), cursor)
    }
}

/// The text with every match replaced by its expansion: a substitution that
/// no range confines.
pub open spec fn substituted(text: Seq<u8>, found: Seq<(usize, usize, Seq<char>)>) -> Seq<u8> {
    substituted_from(text, found, 0)
}

/// The ranges of a text in which matches are replaced.
#[derive(Debug, Clone)]
pub struct RangeSet {
    ranges: Vec<Range<BytePosition>>,
}

impl View for RangeSet {
    type V = Seq<Range<BytePosition>>;

    closed spec fn view(&self) -> Seq<Range<BytePosition>> {
        self.ranges@
    }
}

impl RangeSet {
    /// A set of the given ranges, kept as they are.
    pub fn new(ranges: Vec<Range<BytePosition>>) -> (set: Self)
        ensures
            set@ == ranges@,
    {
        Self { ranges }
    }

    /// Whether one of the ranges holds the position.
    pub fn contains(&self, pos: BytePosition) -> (held: bool)
        ensures
            held == covers(self@, pos.0 as int),
    {
        let mut i: usize = 0;
        while i < self.ranges.len()
            invariant
                i <= self.ranges@.len(),
                forall|j: int|
                    0 <= j < i ==> !((#[trigger] self.ranges@[j]).start.0 <= pos.0
                        < self.ranges@[j].end.0),
            decreases self.ranges@.len() - i,
        {
            if self.ranges[i].start.0 <= pos.0 && pos.0 < self.ranges[i].end.0 {
                return true;
            }
            i = i + 1;
        }
        false
    }
}

/// Replaces the matches of a pattern in a file's text, but only those that
/// start within the ranges.
pub struct PositionalReplacer<'a> {
    file_content: &'a str,
    ranges: RangeSet,
    replacement: &'a str,
}

impl<'a> PositionalReplacer<'a> {
    /// The text of the file.
    pub closed spec fn content(&self) -> Seq<char> {
        self.file_content@
    }

    /// The bytes of the file's text.
    pub open spec fn text(&self) -> Seq<u8> {
        encode_utf8(self.content())
    }

    /// The ranges in which matches are replaced.
    pub closed spec fn ranges(&self) -> Seq<Range<BytePosition>> {
        self.ranges@
    }

    /// The replacement template.
    pub closed spec fn template(&self) -> Seq<char> {
        self.replacement@
    }

    /// A replacer for one file: its text, the ranges in which matches are
    /// replaced, and the template of the replacement.
    pub fn new(file_content: &'a str, ranges: RangeSet, replacement: &'a str) -> (replacer: Self)
        ensures
            replacer.content() == file_content@,
            replacer.ranges() == ranges@,
            replacer.template() == replacement@,
    {
        Self { file_content, ranges, replacement }
    }

    /// Appends to `dst` what stands in the place of one match: its expansion
    /// if the match starts within the ranges, else the matched text.
    pub fn replace_append(&self, found: &Replacement, dst: &mut String)
        requires
            continues_scan(self.text(), 0, found.deep_view()),
        ensures
            encode_utf8(final(dst)@) == encode_utf8(old(dst)@) + replaced(
                self.text(),
                self.ranges(),
                found.deep_view(),
            ),
    {
        if self.ranges.contains(BytePosition(found.start)) {
            append_str(dst, found.expansion.as_str());
        } else {
            append_str(dst, substring(self.file_content, found.start, found.end));
        }
    }

    /// The text of the file, rewritten for the matches given: each match that
    /// starts within the ranges is replaced by its expansion, and all else is
    /// kept.
    pub fn replace_matches(&self, found: &Vec<Replacement>) -> (out: String)
        ensures
            encode_utf8(out@) == rewritten(self.text(), found.deep_view(), self.ranges()),
    {
        let bytes = self.file_content.as_bytes();
        let length: usize = bytes.len();
        let ghost all = found.deep_view();
        let mut out = String::new();
        let mut cursor: usize = 0;
        let mut i: usize = 0;
        proof {
            assert(all.subrange(0, all.len() as int) =~= all);
            encode_utf8_valid_utf8(self.content());
            lemma_char_start_is_boundary(bytes@, 0);
        }
        while i < found.len()
            invariant
                i <= found@.len(),
                all == found.deep_view(),
                bytes@ == self.text(),
                length == bytes@.len(),
                cursor <= length,
                at_char_start(bytes@, cursor as int),
                encode_utf8(out@) + rewritten_from(
                    bytes@,
                    all.subrange(i as int, all.len() as int),
                    self.ranges(),
                    cursor as int,
                ) == rewritten(bytes@, all, self.ranges()),
            decreases found@.len() - i,
        {
            let next = &found[i];
            let ghost rest = all.subrange(i as int, all.len() as int);
            proof {
                assert(rest[0] == next.deep_view());
                assert(rest.drop_first() =~= all.subrange(i + 1, all.len() as int));
            }
            if cursor <= next.start && next.start <= next.end && next.end <= length
                && is_char_start(bytes, next.start) && is_char_start(bytes, next.end) {
                let ghost before = out@;
                append_str(&mut out, substring(self.file_content, cursor, next.start));
                self.replace_append(next, &mut out);
                proof {
                    assert(encode_utf8(out@) =~= encode_utf8(before) + (bytes@.subrange(
                        cursor as int,
                        next.start as int,
                    ) + replaced(bytes@, self.ranges(), rest[0])));
                }
                cursor = next.end;
            }
            i = i + 1;
        }
        append_str(&mut out, substring(self.file_content, cursor, length));
        out
    }

    /// The text of the file with the matches of the search pattern replaced
    /// where they start within the ranges.
    pub fn replace_all(&self, search: &Pattern) -> (out: String)
        ensures
            encode_utf8(out@) == rewritten(
                self.text(),
                regex_replacements(search@, self.content(), self.template()),
                self.ranges(),
            ),
    {
        let found = search.replacements(self.file_content, self.replacement);
        self.replace_matches(&found)
    }
}

/// From any point of the scan on, matches that all start outside the ranges
/// leave the rest of the text as it is.
proof fn lemma_unchanged_from(
    text: Seq<u8>,
    found: Seq<(usize, usize, Seq<char>)>,
    ranges: Seq<Range<BytePosition>>,
    cursor: int,
)
    requires
        0 <= cursor <= text.len(),
        forall|i: int| 0 <= i < found.len() ==> !covers(ranges, (#[trigger] found[i]).0 as int),
    ensures
        rewritten_from(text, found, ranges, cursor) == text.subrange(cursor, text.len() as int),
    decreases found.len(),
{
    if found.len() > 0 {
        let rest = found.drop_first();
        assert forall|i: int| 0 <= i < rest.len() implies !covers(
            ranges,
            (#[trigger] rest[i]).0 as int,
        ) by {
            assert(rest[i] == found[i + 1]);
        }
        if continues_scan(text, cursor, found[0]) {
            lemma_unchanged_from(text, rest, ranges, found[0].1 as int);
            assert(rewritten_from(text, found, ranges, cursor) =~= text.subrange(
                cursor,
                text.len() as int,
            ));
        } else {
            lemma_unchanged_from(text, rest, ranges, cursor);
        }
    }
}

/// Where no match starts within a range, rewriting leaves the text unchanged,
/// byte for byte.
pub proof fn lemma_no_match_in_ranges_keeps_text(
    text: Seq<u8>,
    found: Seq<(usize, usize, Seq<char>)>,
    ranges: Seq<Range<BytePosition>>,
)
    requires
        forall|i: int| 0 <= i < found.len() ==> !covers(ranges, (#[trigger] found[i]).0 as int),
    ensures
        rewritten(text, found, ranges) == text,
{
    lemma_unchanged_from(text, found, ranges, 0);
    assert(text.subrange(0, text.len() as int) =~= text);
}

/// From any point of the scan on, ranges that hold every offset of the text
/// make rewriting replace every match.
proof fn lemma_substituted_from(
    text: Seq<u8>,
    found: Seq<(usize, usize, Seq<char>)>,
    ranges: Seq<Range<BytePosition>>,
    cursor: int,
)
    requires
        forall|at: int| 0 <= at <= text.len() ==> covers(ranges, at),
    ensures
        rewritten_from(text, found, ranges, cursor) == substituted_from(text, found, cursor),
    decreases found.len(),
{
    if found.len() > 0 {
        if continues_scan(text, cursor, found[0]) {
            lemma_substituted_from(text, found.drop_first(), ranges, found[0].1 as int);
        } else {
            lemma_substituted_from(text, found.drop_first(), ranges, cursor);
        }
    }
}

/// With ranges that cover the whole text, from its first offset to the one
/// behind its last byte, rewriting gives what a substitution of every match
/// gives.
pub proof fn lemma_covering_ranges_replace_every_match(
    text: Seq<u8>,
    found: Seq<(usize, usize, Seq<char>)>,
    ranges: Seq<Range<BytePosition>>,
)
    requires
        forall|at: int| 0 <= at <= text.len() ==> covers(ranges, at),
    ensures
        rewritten(text, found, ranges) == substituted(text, found),
{
    lemma_substituted_from(text, found, ranges, 0);
}

} // verus!
