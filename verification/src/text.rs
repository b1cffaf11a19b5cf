//! Lines and columns of a text, located by byte offsets.
//!
//! Every function here speaks of the bytes of a text. A line ends at a line
//! feed; a carriage return directly before that line feed belongs to the line
//! terminator as well. A text that ends in a line feed has no further line
//! after it. A character starts at every byte that is not a UTF-8
//! continuation byte.

use vstd::prelude::*;
use vstd::string::StringSliceAdditionalSpecFns;
use vstd::utf8::*;

verus! {

/// The line feed byte.
pub const LINE_FEED: u8 = 0x0a;

/// The carriage return byte.
pub const CARRIAGE_RETURN: u8 = 0x0d;

/// Offset of the first line feed at or after `from`, or the length of the
/// text where none follows.
pub open spec fn line_break(text: Seq<u8>, from: int) -> int
    decreases text.len() - from,
{
    if from < 0 || from >= text.len() {
        text.len() as int
    } else if text[from] == LINE_FEED {
        from
    } else {
        line_break(text, from + 1)
    }
}

/// Offset at which the line after the one that starts at `from` starts. It is
/// the length of the text where no line follows.
pub open spec fn next_line_start(text: Seq<u8>, from: int) -> int {
    let brk = line_break(text, from);
    if brk < text.len() {
        brk + 1
    } else {
        text.len() as int
    }
}

/// Offset at which the content of the line that starts at `from` ends: the
/// line terminator, `\n` or `\r\n`, is not part of the content.
pub open spec fn line_content_end(text: Seq<u8>, from: int) -> int {
    let brk = line_break(text, from);
    if brk < text.len() && from < brk && text[brk - 1] == CARRIAGE_RETURN {
        brk - 1
    } else {
        brk
    }
}

/// Offset at which line `index` starts, counted from 0. Where the text has no
/// such line it is the length of the text.
pub open spec fn line_start(text: Seq<u8>, index: nat) -> int
    decreases index,
{
    if index == 0 {
        0
    } else {
        next_line_start(text, line_start(text, (index - 1) as nat))
    }
}

/// The content of line `index`, counted from 0: its bytes without the line
/// terminator.
pub open spec fn line_content(text: Seq<u8>, index: nat) -> Seq<u8> {
    text.subrange(line_start(text, index), line_content_end(text, line_start(text, index)))
}

/// Whether the text has a line `index`, counted from 0.
pub open spec fn has_line(text: Seq<u8>, index: nat) -> bool {
    line_start(text, index) < text.len()
}

/// Whether a character can start at `at`: the text ends there, or the byte
/// there is no continuation byte.
pub open spec fn at_char_start(text: Seq<u8>, at: int) -> bool {
    0 <= at <= text.len() && (at < text.len() ==> !is_continuation_byte(text[at]))
}

/// Number of characters that start in the bytes from `from` up to `to`.
pub open spec fn char_count(text: Seq<u8>, from: int, to: int) -> nat
    decreases to - from,
{
    if from >= to {
        0
    } else if is_continuation_byte(text[to - 1]) {
        char_count(text, from, to - 1)
    } else {
        char_count(text, from, to - 1) + 1
    }
}

/// First offset at or after `at` that does not lie inside a character: a
/// byte that starts a character, or the end of the text.
pub open spec fn char_start_from(text: Seq<u8>, at: int) -> int
    decreases text.len() - at,
{
    if at < 0 || at >= text.len() {
        text.len() as int
    } else if !is_continuation_byte(text[at]) {
        at
    } else {
        char_start_from(text, at + 1)
    }
}

/// Offset at which the character that starts at `at` ends.
pub open spec fn char_end(text: Seq<u8>, at: int) -> int {
    char_start_from(text, at + 1)
}

/// Offset reached from `from` after passing over `count` characters.
pub open spec fn skip_chars(text: Seq<u8>, from: int, count: nat) -> int
    decreases count,
{
    if count == 0 {
        from
    } else {
        skip_chars(text, char_end(text, from), (count - 1) as nat)
    }
}

/// Whether the byte is a UTF-8 continuation byte.
pub fn is_continuation(byte: u8) -> (r: bool)
    ensures
        r == is_continuation_byte(byte),
{
    0x80 <= byte && byte <= 0xbf
}

/// Whether a character can start at the offset `at` of the text.
pub fn is_char_start(text: &[u8], at: usize) -> (r: bool)
    ensures
        r == at_char_start(text@, at as int),
{
    if at < text.len() {
        !is_continuation(text[at])
    } else {
        at == text.len()
    }
}

/// Finds the line break of the line that starts at `from`.
pub(crate) fn find_line_break(text: &[u8], from: usize) -> (brk: usize)
    requires
        from <= text@.len(),
    ensures
        brk == line_break(text@, from as int),
        from <= brk <= text@.len(),
{
    let mut at: usize = from;
    while at < text.len() && text[at] != LINE_FEED
        invariant
            from <= at <= text@.len(),
            line_break(text@, at as int) == line_break(text@, from as int),
        decreases text@.len() - at,
    {
        at = at + 1;
    }
    proof {
        lemma_line_break_bounds(text@, from as int);
    }
    at
}

/// Where the content of the line that starts at `from` ends, and where the
/// next line starts.
pub(crate) fn line_extent(text: &[u8], from: usize) -> (extent: (usize, usize))
    requires
        from <= text@.len(),
    ensures
        extent.0 == line_content_end(text@, from as int),
        extent.1 == next_line_start(text@, from as int),
        from <= extent.0 <= extent.1 <= text@.len(),
        from < text@.len() ==> from < extent.1,
{
    let brk: usize = find_line_break(text, from);
    proof {
        lemma_line_break_bounds(text@, from as int);
    }
    if brk < text.len() {
        if from < brk && text[brk - 1] == CARRIAGE_RETURN {
            (brk - 1, brk + 1)
        } else {
            (brk, brk + 1)
        }
    } else {
        (brk, brk)
    }
}

/// Finds the start of line `index`, counted from 0, if the text has that
/// line.
pub fn find_line_start(text: &[u8], index: usize) -> (start: Option<usize>)
    ensures
        start is Some <==> has_line(text@, index as nat),
        start matches Some(at) ==> at == line_start(text@, index as nat),
{
    let mut at: usize = 0;
    let mut passed: usize = 0;
    while passed < index && at < text.len()
        invariant
            passed <= index,
            at == line_start(text@, passed as nat),
            at <= text@.len(),
        decreases index - passed,
    {
        let extent = line_extent(text, at);
        at = extent.1;
        passed = passed + 1;
    }
    proof {
        lemma_line_start_monotonic(text@, passed as nat, index as nat);
        lemma_line_start_bounds(text@, index as nat);
    }
    if at < text.len() {
        Some(at)
    } else {
        None
    }
}

/// Passes over `count` characters from `from`, within the stretch that ends
/// at `end`. Returns the offset reached, or `None` where the stretch holds
/// fewer characters than that.
pub(crate) fn skip_columns(text: &[u8], from: usize, end: usize, count: usize) -> (reached: Option<usize>)
    requires
        from <= end <= text@.len(),
        at_char_start(text@, from as int),
        at_char_start(text@, end as int),
    ensures
        count <= char_count(text@, from as int, end as int) ==> reached == Some(
            skip_chars(text@, from as int, count as nat) as usize,
        ),
        count > char_count(text@, from as int, end as int) ==> reached is None,
        reached matches Some(at) ==> from <= at <= end,
{
    let mut at: usize = from;
    let mut passed: usize = 0;
    while passed < count
        invariant
            from <= at <= end <= text@.len(),
            passed <= count,
            at_char_start(text@, at as int),
            at_char_start(text@, end as int),
            char_count(text@, from as int, at as int) == passed,
            at == skip_chars(text@, from as int, passed as nat),
        decreases count - passed,
    {
        if at >= end {
            return None;
        }
        let mut next: usize = at + 1;
        while next < text.len() && is_continuation(text[next])
            invariant
                at < next <= text@.len(),
                char_start_from(text@, next as int) == char_start_from(text@, at + 1),
            decreases text@.len() - next,
        {
            next = next + 1;
        }
        proof {
            lemma_char_start_from(text@, at + 1);
            assert(at_char_start(text@, end as int));
            lemma_char_count_split(text@, at as int, at + 1, next as int);
            lemma_char_count_split(text@, from as int, at as int, next as int);
            assert(char_count(text@, at as int, at + 1) == 1) by {
                assert(char_count(text@, at as int, at as int) == 0);
            }
            lemma_skip_chars_step(text@, from as int, passed as nat);
        }
        at = next;
        passed = passed + 1;
    }
    proof {
        lemma_char_count_split(text@, from as int, at as int, end as int);
    }
    Some(at)
}

/// The part of a string between two character boundaries.
pub(crate) fn substring<'a>(s: &'a str, from: usize, to: usize) -> (part: &'a str)
    requires
        from <= to <= s.spec_bytes().len(),
        at_char_start(s.spec_bytes(), from as int),
        at_char_start(s.spec_bytes(), to as int),
    ensures
        part.spec_bytes() == s.spec_bytes().subrange(from as int, to as int),
{
    proof {
        encode_utf8_valid_utf8(s@);
        lemma_char_start_is_boundary(s.spec_bytes(), to as int);
    }
    let (head, _) = s.split_at(to);
    proof {
        encode_utf8_valid_utf8(head@);
        assert(at_char_start(head.spec_bytes(), from as int));
        lemma_char_start_is_boundary(head.spec_bytes(), from as int);
    }
    let (_, part) = head.split_at(from);
    assert(part.spec_bytes() =~= s.spec_bytes().subrange(from as int, to as int));
    part
}

/// Appends a string to a buffer.
pub fn append_str(dst: &mut String, part: &str)
    ensures
        final(dst)@ == old(dst)@ + part@,
        encode_utf8(final(dst)@) == encode_utf8(old(dst)@) + part.spec_bytes(),
{
    proof {
        lemma_encode_utf8_concat(dst@, part@);
    }
    dst.append(part);
}

/// A line break lies between its starting point and the end of the text, no
/// line feed stands before it, and one stands at it unless the text ends.
pub proof fn lemma_line_break_bounds(text: Seq<u8>, from: int)
    requires
        0 <= from <= text.len(),
    ensures
        from <= line_break(text, from) <= text.len(),
        line_break(text, from) < text.len() ==> text[line_break(text, from)] == LINE_FEED,
        forall|i: int| from <= i < line_break(text, from) ==> text[i] != LINE_FEED,
    decreases text.len() - from,
{
    if from < text.len() && text[from] != LINE_FEED {
        lemma_line_break_bounds(text, from + 1);
    }
}

/// Every line start lies within the text.
pub proof fn lemma_line_start_bounds(text: Seq<u8>, index: nat)
    ensures
        0 <= line_start(text, index) <= text.len(),
    decreases index,
{
    if index > 0 {
        lemma_line_start_bounds(text, (index - 1) as nat);
        lemma_line_break_bounds(text, line_start(text, (index - 1) as nat));
    }
}

/// A later line does not start before an earlier one, and where the later
/// one exists it starts after the earlier one's line break.
pub proof fn lemma_line_start_monotonic(text: Seq<u8>, first: nat, second: nat)
    requires
        first <= second,
    ensures
        line_start(text, first) <= line_start(text, second),
        first < second && has_line(text, second) ==> line_break(text, line_start(text, first))
            < line_start(text, second),
    decreases second - first,
{
    lemma_line_start_bounds(text, first);
    if first < second {
        lemma_line_start_monotonic(text, first + 1, second);
        lemma_line_break_bounds(text, line_start(text, first));
        assert(line_start(text, first + 1) == next_line_start(text, line_start(text, first)));
    }
}

/// The content of a line lies between the line's start and its line break,
/// and ends where the text ends or at a byte that starts a character.
pub proof fn lemma_line_content_end_bounds(text: Seq<u8>, from: int)
    requires
        0 <= from <= text.len(),
    ensures
        from <= line_content_end(text, from) <= line_break(text, from) <= text.len(),
        line_content_end(text, from) < text.len() ==> !is_continuation_byte(
            text[line_content_end(text, from)],
        ),
{
    lemma_line_break_bounds(text, from);
}

/// Counting characters over two adjoining stretches adds up.
pub proof fn lemma_char_count_split(text: Seq<u8>, from: int, mid: int, to: int)
    requires
        from <= mid <= to,
    ensures
        char_count(text, from, to) == char_count(text, from, mid) + char_count(text, mid, to),
    decreases to - mid,
{
    if mid < to {
        lemma_char_count_split(text, from, mid, to - 1);
    }
}

/// The search for a character start stays within the text, finds a place
/// where a character can start, and passes over continuation bytes only.
pub proof fn lemma_char_start_from(text: Seq<u8>, at: int)
    requires
        0 <= at <= text.len(),
    ensures
        at <= char_start_from(text, at) <= text.len(),
        at_char_start(text, char_start_from(text, at)),
        char_count(text, at, char_start_from(text, at)) == 0,
        forall|stop: int|
            at <= stop && #[trigger] at_char_start(text, stop) ==> char_start_from(text, at)
                <= stop,
    decreases text.len() - at,
{
    if at < text.len() && is_continuation_byte(text[at]) {
        lemma_char_start_from(text, at + 1);
        let found = char_start_from(text, at + 1);
        lemma_char_count_split(text, at, at + 1, found);
        assert(char_count(text, at, at + 1) == 0) by {
            assert(char_count(text, at, at) == 0);
        }
    }
}

/// Passing over one more character goes on from where the shorter walk
/// arrived.
pub proof fn lemma_skip_chars_step(text: Seq<u8>, from: int, count: nat)
    ensures
        skip_chars(text, from, count + 1) == char_end(text, skip_chars(text, from, count)),
    decreases count,
{
    reveal_with_fuel(skip_chars, 2);
    if count > 0 {
        lemma_skip_chars_step(text, char_end(text, from), (count - 1) as nat);
    }
}

/// Passing over characters that the stretch up to `end` holds stays within
/// that stretch, arrives where a character can start, and has passed exactly
/// that many characters.
pub proof fn lemma_skip_chars(text: Seq<u8>, from: int, end: int, count: nat)
    requires
        at_char_start(text, from),
        at_char_start(text, end),
        from <= end,
        count <= char_count(text, from, end),
    ensures
        from <= skip_chars(text, from, count) <= end,
        at_char_start(text, skip_chars(text, from, count)),
        char_count(text, from, skip_chars(text, from, count)) == count,
    decreases count,
{
    if count > 0 {
        assert(from < end);
        let next = char_end(text, from);
        lemma_char_start_from(text, from + 1);
        assert(at_char_start(text, end));
        lemma_char_count_split(text, from, from + 1, next);
        lemma_char_count_split(text, from, next, end);
        assert(char_count(text, from, from + 1) == 1) by {
            assert(char_count(text, from, from) == 0);
        }
        lemma_skip_chars(text, next, end, (count - 1) as nat);
        lemma_char_count_split(text, from, next, skip_chars(text, from, count));
    }
}

/// Passing over characters moves forward and stays within the text.
pub proof fn lemma_skip_chars_grows(text: Seq<u8>, from: int, count: nat)
    requires
        0 <= from <= text.len(),
    ensures
        from <= skip_chars(text, from, count) <= text.len(),
    decreases count,
{
    if count > 0 {
        if from + 1 <= text.len() {
            lemma_char_start_from(text, from + 1);
        }
        lemma_skip_chars_grows(text, char_end(text, from), (count - 1) as nat);
    }
}

/// Passing over more characters does not lead to an earlier offset.
pub proof fn lemma_skip_chars_monotonic(text: Seq<u8>, from: int, fewer: nat, more: nat)
    requires
        0 <= from <= text.len(),
        fewer <= more,
    ensures
        from <= skip_chars(text, from, fewer) <= skip_chars(text, from, more) <= text.len(),
    decreases fewer,
{
    if fewer == 0 {
        lemma_skip_chars_grows(text, from, more);
    } else {
        if from + 1 <= text.len() {
            lemma_char_start_from(text, from + 1);
        }
        lemma_skip_chars_monotonic(
            text,
            char_end(text, from),
            (fewer - 1) as nat,
            (more - 1) as nat,
        );
    }
}

/// In valid UTF-8 a character boundary is a place where a character can
/// start.
pub proof fn lemma_char_start_is_boundary(text: Seq<u8>, at: int)
    requires
        valid_utf8(text),
        0 <= at <= text.len(),
    ensures
        at_char_start(text, at) <==> is_char_boundary(text, at),
{
    if at < text.len() {
        is_char_boundary_iff_not_is_continuation_byte(text, at);
    } else {
        is_char_boundary_start_end_of_seq(text);
    }
}

/// In valid UTF-8 a character can start after every byte below 0x80.
pub proof fn lemma_char_start_after_ascii(text: Seq<u8>, at: int)
    requires
        valid_utf8(text),
        0 <= at < text.len(),
        text[at] < 0x80,
    ensures
        at_char_start(text, at + 1),
{
    if at + 1 < text.len() {
        lemma_char_start_is_boundary(text, at);
        valid_utf8_split(text, at);
        let tail = text.subrange(at, text.len() as int);
        assert(tail[0] == text[at]);
        assert(valid_first_scalar(tail));
        assert(length_of_first_scalar(tail) == 1);
        let rest = pop_first_scalar(tail);
        assert(valid_utf8(rest));
        assert(rest =~= text.subrange(at + 1, text.len() as int));
        assert(rest.len() > 0);
        assert(valid_first_scalar(rest));
        assert(rest[0] == text[at + 1]);
    }
}

/// In valid UTF-8 a character can start where a line starts and where the
/// content of a line ends.
pub proof fn lemma_line_start_is_char_start(text: Seq<u8>, index: nat)
    requires
        valid_utf8(text),
    ensures
        at_char_start(text, line_start(text, index)),
    decreases index,
{
    if index == 0 {
        lemma_char_start_is_boundary(text, 0);
    } else {
        let before = line_start(text, (index - 1) as nat);
        lemma_line_start_bounds(text, (index - 1) as nat);
        lemma_line_break_bounds(text, before);
        let brk = line_break(text, before);
        if brk < text.len() {
            lemma_char_start_after_ascii(text, brk);
        }
    }
}

/// The UTF-8 encoding of two texts joined is the two encodings joined.
pub proof fn lemma_encode_utf8_concat(first: Seq<char>, second: Seq<char>)
    ensures
        encode_utf8(first + second) == encode_utf8(first) + encode_utf8(second),
    decreases first.len(),
{
    if first.len() == 0 {
        assert(first + second =~= second);
    } else {
        lemma_encode_utf8_concat(first.drop_first(), second);
        assert((first + second).drop_first() =~= first.drop_first() + second);
        assert(encode_utf8(first + second) =~= encode_utf8(first) + encode_utf8(second));
    }
}

} // verus!
