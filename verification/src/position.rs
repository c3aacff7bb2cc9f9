//! Translation of positions from the coordinates that a language server uses
//! to those of the editor.
//!
//! A server counts lines from zero and, within a line, UTF-16 code units from
//! zero. The editor counts lines from one and, within a line, bytes of UTF-8
//! from one. A position on a line that the document does not have has no
//! counterpart. A character offset past the end of its line is taken as the
//! end of that line, and one that falls inside a character as the start of
//! that character.
use vstd::prelude::*;
use crate::context::{Document, DocumentView};
use crate::types::{KakounePosition, Position};

verus! {

/// The number of bytes that `c` takes in UTF-8.
pub open spec fn utf8_len(c: char) -> nat {
    if (c as u32) < 0x80 {
        1
    } else if (c as u32) < 0x800 {
        2
    } else if (c as u32) < 0x10000 {
        3
    } else {
        4
    }
}

/// The number of code units that `c` takes in UTF-16.
pub open spec fn utf16_len(c: char) -> nat {
    if (c as u32) < 0x10000 {
        1
    } else {
        2
    }
}

/// The number of bytes that `line` takes in UTF-8.
pub open spec fn utf8_length(line: Seq<char>) -> nat
    decreases line.len(),
{
    if line.len() == 0 {
        0
    } else {
        utf8_len(line[0]) + utf8_length(line.drop_first())
    }
}

/// The number of code units that `line` takes in UTF-16.
pub open spec fn utf16_length(line: Seq<char>) -> nat
    decreases line.len(),
{
    if line.len() == 0 {
        0
    } else {
        utf16_len(line[0]) + utf16_length(line.drop_first())
    }
}

/// The number of UTF-8 bytes taken by those leading characters of `line`
/// that fit, whole, into its first `units` UTF-16 code units.
pub open spec fn byte_offset(line: Seq<char>, units: nat) -> nat
    decreases line.len(),
{
    if line.len() == 0 || units < utf16_len(line[0]) {
        0
    } else {
        utf8_len(line[0]) + byte_offset(line.drop_first(), (units - utf16_len(line[0])) as nat)
    }
}

/// The editor's position for the server's `position` in `document`, or `None`
/// if the document has no such line.
pub open spec fn kakoune_position(document: DocumentView, position: Position) -> Option<
    KakounePosition,
> {
    if position.line < document.lines.len() {
        Some(
            KakounePosition {
                line: (position.line + 1) as u64,
                column: (byte_offset(document.lines[position.line as int], position.character as nat)
                    + 1) as u64,
            },
        )
    } else {
        None
    }
}

/// A byte offset is at most three times the offset in code units, and never
/// more than the line is long.
pub proof fn lemma_byte_offset_bounds(line: Seq<char>, units: nat)
    ensures
        byte_offset(line, units) <= 3 * units,
        byte_offset(line, units) <= utf8_length(line),
    decreases line.len(),
{
    if line.len() > 0 && units >= utf16_len(line[0]) {
        lemma_byte_offset_bounds(line.drop_first(), (units - utf16_len(line[0])) as nat);
    }
}

/// An offset at or past the end of the line is taken as the end of the line.
pub proof fn lemma_byte_offset_clamps(line: Seq<char>, units: nat)
    requires
        units >= utf16_length(line),
    ensures
        byte_offset(line, units) == utf8_length(line),
    decreases line.len(),
{
    if line.len() > 0 {
        lemma_byte_offset_clamps(line.drop_first(), (units - utf16_len(line[0])) as nat);
    }
}

/// A position past the end of its line is taken as the end of that line: the
/// column after the line's last byte.
pub proof fn lemma_position_past_line_end(document: DocumentView, position: Position)
    requires
        position.line < document.lines.len(),
        position.character >= utf16_length(document.lines[position.line as int]),
    ensures
        kakoune_position(document, position) == Some(
            KakounePosition {
                line: (position.line + 1) as u64,
                column: (utf8_length(document.lines[position.line as int]) + 1) as u64,
            },
        ),
{
    lemma_byte_offset_clamps(document.lines[position.line as int], position.character as nat);
}

/// On a line of ASCII characters, an offset within the line is the same in
/// bytes as in code units.
pub proof fn lemma_byte_offset_ascii(line: Seq<char>, units: nat)
    requires
        forall|i: int| 0 <= i < line.len() ==> (#[trigger] line[i] as u32) < 0x80,
        units <= line.len(),
    ensures
        byte_offset(line, units) == units,
    decreases line.len(),
{
    if line.len() > 0 && units > 0 {
        let rest = line.drop_first();
        assert forall|i: int| 0 <= i < rest.len() implies (#[trigger] rest[i] as u32) < 0x80 by {
        }
        lemma_byte_offset_ascii(rest, (units - 1) as nat);
    }
}

/// The number of bytes that `c` takes in UTF-8.
pub fn char_utf8_len(c: char) -> (n: u64)
    ensures
        n == utf8_len(c),
{
    let u: u32 = c as u32;
    if u < 0x80 {
        1
    } else if u < 0x800 {
        2
    } else if u < 0x10000 {
        3
    } else {
        4
    }
}

/// The number of code units that `c` takes in UTF-16.
pub fn char_utf16_len(c: char) -> (n: u32)
    ensures
        n == utf16_len(c),
{
    if (c as u32) < 0x10000 {
        1
    } else {
        2
    }
}

/// The byte offset in `line` that the offset of `units` UTF-16 code units
/// translates to.
pub fn byte_offset_in(line: &str, units: u32) -> (offset: u64)
    ensures
        offset == byte_offset(line@, units as nat),
        offset <= 3 * units,
{
    let mut offset: u64 = 0;
    let mut left: u32 = units;
    proof {
        assert(line@.skip(0) =~= line@);
    }
    let it = line.chars();
    for c in iter: it
        invariant_except_break
            offset + byte_offset(line@.skip(iter.index() as int), left as nat) == byte_offset(
                line@,
                units as nat,
            ),
        invariant
            iter.seq() == line@,
            left <= units,
            offset <= 3 * (units - left),
        ensures
            offset == byte_offset(line@, units as nat),
    {
        let ghost rest = line@.skip(iter.index() as int);
        proof {
            assert(rest.drop_first() =~= line@.skip(iter.index() + 1));
        }
        let width = char_utf16_len(c);
        if left < width {
            break ;
        }
        offset = offset + char_utf8_len(c);
        left = left - width;
    }
    offset
}

/// The editor's position for the server's `position` in `document`, or `None`
/// if the document has no such line.
pub fn lsp_position_to_kakoune(position: &Position, document: &Document) -> (r: Option<
    KakounePosition,
>)
    ensures
        r == kakoune_position(document@, *position),
        r is Some <==> position.line < document.lines.len(),
{
    let line = position.line as usize;
    if line < document.lines.len() {
        let offset = byte_offset_in(document.lines[line].as_str(), position.character);
        Some(KakounePosition { line: position.line as u64 + 1, column: offset + 1 })
    } else {
        None
    }
}

} // verus!
