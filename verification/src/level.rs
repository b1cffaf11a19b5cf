//! The severity of compiler diagnostics, and which lines announce one.

use vstd::prelude::*;
use vstd::string::StringSliceAdditionalSpecFns;
use vstd::utf8::is_ascii_chars_encode_utf8;

verus! {

/// Which compiler diagnostics are taken as position reports.
#[derive(Debug, Clone, Copy, PartialEq, Eq, Structural)]
pub enum RustLevel {
    /// Warnings and errors.
    All,
    /// Warnings only.
    Warning,
    /// Errors only.
    Error,
}

/// Whether `part` stands in `text` at the offset `at`.
pub open spec fn occurs_at(text: Seq<u8>, part: Seq<u8>, at: int) -> bool {
    0 <= at && at + part.len() <= text.len() && text.subrange(at, at + part.len()) == part
}

/// Whether `text` starts with `part`.
pub open spec fn starts_with(text: Seq<u8>, part: Seq<u8>) -> bool {
    occurs_at(text, part, 0)
}

/// Whether `part` stands somewhere in `text`.
pub open spec fn contains(text: Seq<u8>, part: Seq<u8>) -> bool {
    exists|at: int| occurs_at(text, part, at)
}

/// Whether the line opens a warning.
pub open spec fn opens_warning(line: Seq<u8>) -> bool {
    starts_with(line, "warning: ".spec_bytes())
}

/// Whether the line opens an error.
pub open spec fn opens_error(line: Seq<u8>) -> bool {
    starts_with(line, "error: ".spec_bytes())
}

/// Whether the line is the compiler's closing summary of what it generated,
/// which opens like a diagnostic and reports no position.
pub open spec fn is_summary(line: Seq<u8>) -> bool {
    contains(line, "generated".spec_bytes()) && contains(line, "cargo fix".spec_bytes())
}

impl RustLevel {
    /// Whether a line announces a diagnostic of this level: it opens with the
    /// level's keyword and is no summary line.
    pub open spec fn accepts(self, line: Seq<u8>) -> bool {
        let has_keyword = match self {
            RustLevel::All => opens_warning(line) || opens_error(line),
            RustLevel::Warning => opens_warning(line),
            RustLevel::Error => opens_error(line),
        };
        has_keyword && !is_summary(line)
    }

    /// Whether a line announces a diagnostic of this level.
    pub fn matches(&self, line: &str) -> (r: bool)
        ensures
            r == self.accepts(line.spec_bytes()),
    {
        let bytes = line.as_bytes();
        let has_keyword = match self {
            RustLevel::All => has_prefix(bytes, "warning: ".as_bytes()) || has_prefix(
                bytes,
                "error: ".as_bytes(),
            ),
            RustLevel::Warning => has_prefix(bytes, "warning: ".as_bytes()),
            RustLevel::Error => has_prefix(bytes, "error: ".as_bytes()),
        };
        has_keyword && !(has_part(bytes, "generated".as_bytes()) && has_part(
            bytes,
            "cargo fix".as_bytes(),
        ))
    }
}

/// Whether `part` stands in `text` at the offset `at`.
pub fn has_part_at(text: &[u8], part: &[u8], at: usize) -> (r: bool)
    ensures
        r == occurs_at(text@, part@, at as int),
{
    if at > text.len() || part.len() > text.len() - at {
        return false;
    }
    let length: usize = text.len();
    let mut i: usize = 0;
    while i < part.len()
        invariant
            i <= part@.len(),
            at + part@.len() <= text@.len(),
            length == text@.len(),
            text@.subrange(at as int, at + i) == part@.subrange(0, i as int),
        decreases part@.len() - i,
    {
        if text[at + i] != part[i] {
            assert(text@.subrange(at as int, at + part@.len())[i as int] != part@[i as int]);
            return false;
        }
        assert(text@.subrange(at as int, at + i + 1) =~= text@.subrange(at as int, at + i).push(
            text@[at + i],
        ));
        assert(part@.subrange(0, i + 1) =~= part@.subrange(0, i as int).push(part@[i as int]));
        i = i + 1;
    }
    assert(part@.subrange(0, i as int) =~= part@);
    true
}

/// Whether `text` starts with `part`.
pub fn has_prefix(text: &[u8], part: &[u8]) -> (r: bool)
    ensures
        r == starts_with(text@, part@),
{
    has_part_at(text, part, 0)
}

/// Whether `part` stands somewhere in `text`.
pub fn has_part(text: &[u8], part: &[u8]) -> (r: bool)
    ensures
        r == contains(text@, part@),
{
    let length: usize = text.len();
    let mut at: usize = 0;
    while at < length
        invariant
            at <= length == text@.len(),
            forall|before: int| 0 <= before < at ==> !occurs_at(text@, part@, before),
        decreases length - at,
    {
        if has_part_at(text, part, at) {
            return true;
        }
        at = at + 1;
    }
    has_part_at(text, part, length)
}

/// A line that an error-only filter accepts opens no warning, and a line that
/// a warning-only filter accepts opens no error.
pub proof fn lemma_levels_exclusive(line: Seq<u8>)
    ensures
        RustLevel::Error.accepts(line) ==> !opens_warning(line),
        RustLevel::Warning.accepts(line) ==> !opens_error(line),
{
    reveal_strlit("warning: ");
    reveal_strlit("error: ");
    is_ascii_chars_encode_utf8("warning: "@);
    is_ascii_chars_encode_utf8("error: "@);
    let warning = "warning: ".spec_bytes();
    let error = "error: ".spec_bytes();
    assert(warning[0] != error[0]);
    if opens_warning(line) && opens_error(line) {
        assert(line.subrange(0, warning.len() as int)[0] == warning[0]);
        assert(line.subrange(0, error.len() as int)[0] == error[0]);
    }
}

/// No filter accepts a summary line, whatever it opens with.
pub proof fn lemma_summary_never_accepted(level: RustLevel, line: Seq<u8>)
    requires
        is_summary(line),
    ensures
        !level.accepts(line),
{
}

} // verus!
