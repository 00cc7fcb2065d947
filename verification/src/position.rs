//! Line and column positions in an editor's text, which `ropey` holds.

use vstd::prelude::*;

verus! {

#[verifier::external_type_specification]
#[verifier::external_body]
pub struct ExRope(ropey::Rope);

/// The characters that a rope holds.
pub uninterp spec fn rope_text(r: ropey::Rope) -> Seq<char>;

/// The line of a character index, as ropey counts line breaks in `text`.
pub uninterp spec fn ropey_line_of(text: Seq<char>, char_idx: nat) -> nat;

/// The character index at which a line of `text` starts, as ropey finds it.
pub uninterp spec fn ropey_line_start(text: Seq<char>, line_idx: nat) -> nat;

/// Trusted: `ropey::Rope::len_chars`, the number of characters in the rope.
#[verifier::external_body]
fn rope_len_chars(rope: &ropey::Rope) -> (n: usize)
    ensures
        n == rope_text(*rope).len(),
{
    rope.len_chars()
}

/// Trusted: `ropey::Rope::char_to_line`, which panics past one after the last
/// character and otherwise counts the line breaks before `char_idx`; so the
/// line is named [`ropey_line_of`], and it is at most `char_idx`, since every
/// line break before it takes up at least one character.
#[verifier::external_body]
fn rope_char_to_line(rope: &ropey::Rope, char_idx: usize) -> (line: usize)
    requires
        char_idx <= rope_text(*rope).len(),
    ensures
        line == ropey_line_of(rope_text(*rope), char_idx as nat),
        line <= char_idx,
{
    rope.char_to_line(char_idx)
}

/// Trusted: `ropey::Rope::line_to_char`, the character index at which a line
/// starts, named [`ropey_line_start`]. It panics past one after the last line;
/// a line that `char_to_line` gave for an index in bounds is never past it.
#[verifier::external_body]
fn rope_line_to_char(rope: &ropey::Rope, line_idx: usize) -> (start: usize)
    requires
        exists|k: nat| k <= rope_text(*rope).len() && line_idx == ropey_line_of(rope_text(*rope), k),
    ensures
        start == ropey_line_start(rope_text(*rope), line_idx as nat),
{
    rope.line_to_char(line_idx)
}

/// The index that a position is looked up at: `char_idx`, but at most the last character.
pub open spec fn clamped(char_idx: nat, len: nat) -> nat {
    let last: nat = if len > 0 { (len - 1) as nat } else { 0 };
    if char_idx < last { char_idx } else { last }
}

/// The line and column of a character index: the line of the index (clamped to
/// the text), and the distance from that line's start, or zero before it; both
/// taken as 32-bit numbers.
pub open spec fn position_of(text: Seq<char>, char_idx: nat) -> (u32, u32) {
    let line = ropey_line_of(text, clamped(char_idx, text.len()));
    let start = ropey_line_start(text, line);
    let column: nat = if char_idx > start { (char_idx - start) as nat } else { 0 };
    (line as u32, column as u32)
}

/// The line and column of a character index in an editor's text (see [`position_of`]).
pub fn char_to_position(char_idx: usize, rope: &ropey::Rope) -> (r: (u32, u32))
    ensures
        r == position_of(rope_text(*rope), char_idx as nat),
{
    let len = rope_len_chars(rope);
    let last: usize = if len > 0 { len - 1 } else { 0 };
    let at: usize = if char_idx < last { char_idx } else { last };
    let line_idx = rope_char_to_line(rope, at);
    let line_char_idx = rope_line_to_char(rope, line_idx);
    let column_idx: usize = if char_idx > line_char_idx { char_idx - line_char_idx } else { 0 };
    (line_idx as u32, column_idx as u32)
}

} // verus!
