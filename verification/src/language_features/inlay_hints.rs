//! Inline hints: placing them in a document and writing them as the value of
//! a range option of the editor.
//!
//! A placed hint is written as `line.column+length|server|label`, with the
//! label as a tuple element. A list of placed hints is written as the quoted
//! list of these texts, in the order of the list.
use vstd::prelude::*;
use crate::context::{Document, DocumentView};
use crate::decimal::{decimal, is_digit, lemma_read_decimal, push_decimal, read_number, read_number_at};
use crate::position::{kakoune_position, lsp_position_to_kakoune};
use crate::strings::{chars_of, views};
use crate::types::{
    option_view,
    KakounePosition,
    KakouneRange,
    MarkupContent,
    MarkupContentView,
    Position,
    ServerId,
};
use crate::util::{
    editor_quote_list,
    editor_unquote_list,
    lemma_tuple_unescape_escaped,
    lemma_unquote_quoted_list,
    push_tuple_escaped,
    quoted_list,
    tuple_escaped,
    tuple_unescaped,
    unescape_tuple_element_at,
    unquoted_list,
};

verus! {

/// A label to show at a position of a document, as a language server states
/// it.
#[derive(Debug, Clone, PartialEq, Eq)]
pub struct Hint {
    /// Where the label is shown, in the server's coordinates.
    pub position: Position,
    /// The text to show.
    pub label: String,
    /// A text to show when the pointer rests on the label.
    pub tooltip: Option<MarkupContent>,
    /// Whether the label is set off from the text before it.
    pub padding_left: Option<bool>,
    /// Whether the label is set off from the text after it.
    pub padding_right: Option<bool>,
}

/// What a `Hint` holds, with its texts as sequences of characters.
pub ghost struct HintView {
    pub position: Position,
    pub label: Seq<char>,
    pub tooltip: Option<MarkupContentView>,
    pub padding_left: Option<bool>,
    pub padding_right: Option<bool>,
}

impl View for Hint {
    type V = HintView;

    open spec fn view(&self) -> HintView {
        HintView {
            position: self.position,
            label: self.label@,
            tooltip: option_view(self.tooltip),
            padding_left: self.padding_left,
            padding_right: self.padding_right,
        }
    }
}

/// A hint placed in a buffer: where it stands, in the editor's coordinates,
/// which server it comes from, and the text to show.
#[derive(Debug, Clone, PartialEq, Eq)]
pub struct EncodedRange {
    pub range: KakouneRange,
    pub server_id: ServerId,
    pub label: String,
}

/// What an `EncodedRange` holds, with its label as a sequence of characters.
pub ghost struct EncodedRangeView {
    pub range: KakouneRange,
    pub server_id: ServerId,
    pub label: Seq<char>,
}

impl View for EncodedRange {
    type V = EncodedRangeView;

    open spec fn view(&self) -> EncodedRangeView {
        EncodedRangeView { range: self.range, server_id: self.server_id, label: self.label@ }
    }
}

/// Where a hint of `server_id` goes in `document`: a range of length zero at
/// the editor's position for the hint's anchor, with the hint's label. `None`
/// if the document has no line for the anchor.
pub open spec fn placed(document: DocumentView, server_id: ServerId, hint: HintView) -> Option<
    EncodedRangeView,
> {
    match kakoune_position(document, hint.position) {
        Some(start) => Some(
            EncodedRangeView {
                range: KakouneRange { start, length: 0 },
                server_id,
                label: hint.label,
            },
        ),
        None => None,
    }
}

/// The hints of `hints` that have a place in `document`, each at its place,
/// in the order of `hints`. Hints without a place are passed over.
pub open spec fn resolved(document: DocumentView, hints: Seq<(ServerId, HintView)>) -> Seq<
    EncodedRangeView,
> {
    hints.filter_map(|hint: (ServerId, HintView)| placed(document, hint.0, hint.1))
}

/// The text that a placed hint is written as.
pub open spec fn entry_text(range: EncodedRangeView) -> Seq<char> {
    decimal(range.range.start.line as nat) + seq!['.'] + decimal(range.range.start.column as nat)
        + seq!['+'] + decimal(range.range.length as nat) + seq!['|'] + decimal(
        range.server_id as nat,
    ) + seq!['|'] + tuple_escaped(range.label)
}

/// The texts that the placed hints of `ranges` are written as, in order.
pub open spec fn entry_texts(ranges: Seq<EncodedRangeView>) -> Seq<Seq<char>> {
    ranges.map_values(|range: EncodedRangeView| entry_text(range))
}

/// The text that a list of placed hints is written as.
pub open spec fn encoded_ranges(ranges: Seq<EncodedRangeView>) -> Seq<char> {
    quoted_list(entry_texts(ranges))
}

/// Reads a number of at most `max` and the character `delimiter` after it off
/// the front of `s`. The result is the number and what follows the delimiter.
pub open spec fn read_field(s: Seq<char>, max: nat, delimiter: char) -> Option<(nat, Seq<char>)> {
    match read_number(s, max) {
        Some((v, rest)) => if rest.len() > 0 && rest[0] == delimiter {
            Some((v, rest.drop_first()))
        } else {
            None
        },
        None => None,
    }
}

/// The placed hint that `s` is the text of, or `None` if `s` is not the text
/// of a placed hint.
pub open spec fn parsed_entry(s: Seq<char>) -> Option<EncodedRangeView> {
    match read_field(s, u64::MAX as nat, '.') {
        None => None,
        Some((line, after_line)) => match read_field(after_line, u64::MAX as nat, '+') {
            None => None,
            Some((column, after_column)) => match read_field(after_column, u64::MAX as nat, '|') {
                None => None,
                Some((length, after_length)) => match read_field(
                    after_length,
                    usize::MAX as nat,
                    '|',
                ) {
                    None => None,
                    Some((server, after_server)) => match tuple_unescaped(after_server) {
                        None => None,
                        Some(label) => Some(
                            EncodedRangeView {
                                range: KakouneRange {
                                    start: KakounePosition {
                                        line: line as u64,
                                        column: column as u64,
                                    },
                                    length: length as u64,
                                },
                                server_id: server as usize,
                                label,
                            },
                        ),
                    },
                },
            },
        },
    }
}

/// The placed hints that the texts of `words` stand for, in order; `None` if
/// one of them is not the text of a placed hint.
pub open spec fn parsed_entries(words: Seq<Seq<char>>) -> Option<Seq<EncodedRangeView>> {
    if forall|i: int| 0 <= i < words.len() ==> (#[trigger] parsed_entry(words[i])) is Some {
        Some(Seq::new(words.len(), |i: int| parsed_entry(words[i])->0))
    } else {
        None
    }
}

/// The list of placed hints that `s` is the written form of, or `None` if `s`
/// is not the written form of such a list.
pub open spec fn decoded_ranges(s: Seq<char>) -> Option<Seq<EncodedRangeView>> {
    match unquoted_list(s) {
        Some(words) => parsed_entries(words),
        None => None,
    }
}

/// A field is read back as it was written.
pub proof fn lemma_read_field(n: nat, max: nat, delimiter: char, tail: Seq<char>)
    requires
        n <= max,
        !is_digit(delimiter),
    ensures
        read_field(decimal(n) + seq![delimiter] + tail, max, delimiter) == Some((n, tail)),
{
    let rest = seq![delimiter] + tail;
    lemma_read_decimal(n, rest, max);
    assert(decimal(n) + seq![delimiter] + tail =~= decimal(n) + rest);
}

/// The text of a placed hint is read back as that placed hint.
pub proof fn lemma_parse_entry_text(range: EncodedRangeView)
    ensures
        parsed_entry(entry_text(range)) == Some(range),
{
    let after_server = tuple_escaped(range.label);
    let after_length = decimal(range.server_id as nat) + seq!['|'] + after_server;
    let after_column = decimal(range.range.length as nat) + seq!['|'] + after_length;
    let after_line = decimal(range.range.start.column as nat) + seq!['+'] + after_column;
    let whole = decimal(range.range.start.line as nat) + seq!['.'] + after_line;
    assert(entry_text(range) =~= whole);
    lemma_read_field(range.range.start.line as nat, u64::MAX as nat, '.', after_line);
    lemma_read_field(range.range.start.column as nat, u64::MAX as nat, '+', after_column);
    lemma_read_field(range.range.length as nat, u64::MAX as nat, '|', after_length);
    lemma_read_field(range.server_id as nat, usize::MAX as nat, '|', after_server);
    lemma_tuple_unescape_escaped(range.label);
}

/// Writing a list of placed hints and reading the text back gives the list
/// that was written: every range, server and label as it was, in the same
/// order.
pub proof fn lemma_decode_encoded_ranges(ranges: Seq<EncodedRangeView>)
    ensures
        decoded_ranges(encoded_ranges(ranges)) == Some(ranges),
{
    let words = entry_texts(ranges);
    lemma_unquote_quoted_list(words);
    assert forall|i: int| 0 <= i < words.len() implies (#[trigger] parsed_entry(words[i])) == Some(
        ranges[i],
    ) by {
        lemma_parse_entry_text(ranges[i]);
    }
}

/// The placed hints of a list are those of its front part followed by those
/// of its back part: every hint is placed on its own, and the order of the
/// hints is kept.
pub proof fn lemma_resolved_concat(
    document: DocumentView,
    front: Seq<(ServerId, HintView)>,
    back: Seq<(ServerId, HintView)>,
)
    ensures
        resolved(document, front + back) == resolved(document, front) + resolved(document, back),
    decreases back.len(),
{
    if back.len() > 0 {
        lemma_resolved_concat(document, front, back.drop_last());
        assert((front + back).drop_last() =~= front + back.drop_last());
    }
}

/// There are never more placed hints than hints, and there are as many
/// exactly when the document has a line for the anchor of every hint.
pub proof fn lemma_resolved_count(document: DocumentView, hints: Seq<(ServerId, HintView)>)
    ensures
        resolved(document, hints).len() <= hints.len(),
        resolved(document, hints).len() == hints.len() <==> forall|i: int|
            0 <= i < hints.len() ==> (#[trigger] hints[i]).1.position.line < document.lines.len(),
    decreases hints.len(),
{
    if hints.len() > 0 {
        let front = hints.drop_last();
        lemma_resolved_count(document, front);
        if resolved(document, hints).len() == hints.len() {
            assert forall|i: int| 0 <= i < hints.len() implies (#[trigger] hints[i]).1.position.line
                < document.lines.len() by {
                if i < front.len() {
                    assert(front[i] == hints[i]);
                }
            }
        }
        if forall|i: int|
            0 <= i < hints.len() ==> (#[trigger] hints[i]).1.position.line < document.lines.len() {
            assert forall|i: int| 0 <= i < front.len() implies (#[trigger] front[i]).1.position.line
                < document.lines.len() by {}
        }
    }
}

/// A hint whose anchor is on a line that the document does not have is
/// dropped alone: the placed hints are the same with it as without it.
pub proof fn lemma_missing_line_no_range(
    document: DocumentView,
    hints: Seq<(ServerId, HintView)>,
    i: int,
)
    requires
        0 <= i < hints.len(),
        hints[i].1.position.line >= document.lines.len(),
    ensures
        resolved(document, hints.remove(i)) == resolved(document, hints),
{
    let front = hints.take(i);
    let one = seq![hints[i]];
    let back = hints.skip(i + 1);
    assert(hints =~= front + one + back);
    assert(hints.remove(i) =~= front + back);
    lemma_resolved_concat(document, front + one, back);
    lemma_resolved_concat(document, front, one);
    lemma_resolved_concat(document, front, back);
    assert(resolved(document, one.drop_last()) =~= Seq::<EncodedRangeView>::empty());
    assert(resolved(document, one) =~= Seq::<EncodedRangeView>::empty());
}

/// Places the hints of `hints` in `document`. A hint whose anchor is on a
/// line that the document does not have is left out; the others keep their
/// order.
pub fn resolve_hints(document: &Document, hints: &Vec<(ServerId, Hint)>) -> (ranges: Vec<
    EncodedRange,
>)
    ensures
        views(ranges@) == resolved(document@, views(hints@)),
        ranges.len() <= hints.len(),
{
    let mut ranges: Vec<EncodedRange> = Vec::new();
    let ghost all = views(hints@);
    for i in 0..hints.len()
        invariant
            all == views(hints@),
            views(ranges@) == resolved(document@, all.take(i as int)),
    {
        proof {
            assert(all.take(i + 1).drop_last() =~= all.take(i as int));
        }
        let server_id = hints[i].0;
        let hint = &hints[i].1;
        match lsp_position_to_kakoune(&hint.position, document) {
            Some(start) => {
                let range = EncodedRange {
                    range: KakouneRange { start, length: 0 },
                    server_id,
                    label: hint.label.clone(),
                };
                ranges.push(range);
            },
            None => {},
        }
    }
    proof {
        assert(all.take(hints.len() as int) =~= all);
        lemma_resolved_count(document@, all);
    }
    ranges
}

/// The text that `range` is written as.
pub fn encode_range(range: &EncodedRange) -> (text: String)
    ensures
        text@ == entry_text(range@),
{
    let mut text = String::new();
    push_decimal(&mut text, range.range.start.line);
    text.push('.');
    push_decimal(&mut text, range.range.start.column);
    text.push('+');
    push_decimal(&mut text, range.range.length);
    text.push('|');
    push_decimal(&mut text, range.server_id as u64);
    text.push('|');
    push_tuple_escaped(&mut text, range.label.as_str());
    text
}

/// The text that the list `ranges` is written as: the quoted list of the texts
/// of its members, in order. The empty list is written as the empty text.
pub fn encode_ranges(ranges: &Vec<EncodedRange>) -> (text: String)
    ensures
        text@ == encoded_ranges(views(ranges@)),
{
    let mut words: Vec<String> = Vec::new();
    for i in 0..ranges.len()
        invariant
            words.len() == i,
            forall|j: int| 0 <= j < i ==> (#[trigger] words@[j])@ == entry_text(ranges@[j]@),
    {
        words.push(encode_range(&ranges[i]));
    }
    proof {
        assert(views(words@) =~= entry_texts(views(ranges@)));
    }
    editor_quote_list(&words)
}

/// Reads a number and the character `delimiter` after it off `chars` at
/// `start`. Gives the number and the index of the first character after the
/// delimiter.
fn read_field_at(chars: &Vec<char>, start: usize, delimiter: char) -> (r: Option<(u64, usize)>)
    requires
        start <= chars.len(),
    ensures
        match r {
            Some((v, end)) => {
                &&& start < end <= chars.len()
                &&& read_field(chars@.skip(start as int), u64::MAX as nat, delimiter) == Some(
                    (v as nat, chars@.skip(end as int)),
                )
            },
            None => read_field(chars@.skip(start as int), u64::MAX as nat, delimiter) is None,
        },
{
    match read_number_at(chars, start) {
        Some((v, end)) => {
            proof {
                assert(end < chars.len() ==> chars@.skip(end as int)[0] == chars@[end as int]);
            }
            if end < chars.len() && chars[end] == delimiter {
                proof {
                    assert(chars@.skip(end as int).drop_first() =~= chars@.skip(end + 1));
                }
                Some((v, end + 1))
            } else {
                None
            }
        },
        None => None,
    }
}

/// The placed hint that `text` is the text of, or `None` if `text` is not
/// the text of a placed hint.
pub fn decode_range(text: &str) -> (r: Option<EncodedRange>)
    ensures
        option_view(r) == parsed_entry(text@),
{
    let chars = chars_of(text);
    proof {
        assert(chars@.skip(0) =~= chars@);
    }
    let (line, after_line) = match read_field_at(&chars, 0, '.') {
        Some(field) => field,
        None => {
            return None;
        },
    };
    let (column, after_column) = match read_field_at(&chars, after_line, '+') {
        Some(field) => field,
        None => {
            return None;
        },
    };
    let (length, after_length) = match read_field_at(&chars, after_column, '|') {
        Some(field) => field,
        None => {
            return None;
        },
    };
    let (server, after_server) = match read_field_at(&chars, after_length, '|') {
        Some(field) => field,
        None => {
            return None;
        },
    };
    if server > usize::MAX as u64 {
        return None;
    }
    match unescape_tuple_element_at(&chars, after_server) {
        Some(label) => Some(
            EncodedRange {
                range: KakouneRange { start: KakounePosition { line, column }, length },
                server_id: server as usize,
                label,
            },
        ),
        None => None,
    }
}

/// The list of placed hints that `text` is the written form of, or `None` if
/// `text` is not the written form of such a list.
pub fn decode_ranges(text: &str) -> (r: Option<Vec<EncodedRange>>)
    ensures
        match r {
            Some(ranges) => decoded_ranges(text@) == Some(views(ranges@)),
            None => decoded_ranges(text@) is None,
        },
{
    let words = match editor_unquote_list(text) {
        Some(words) => words,
        None => {
            return None;
        },
    };
    let ghost texts = views(words@);
    let mut ranges: Vec<EncodedRange> = Vec::new();
    for i in 0..words.len()
        invariant
            texts == views(words@),
            unquoted_list(text@) == Some(texts),
            ranges.len() == i,
            forall|j: int| 0 <= j < i ==> parsed_entry(texts[j]) == Some((#[trigger] ranges@[j])@),
    {
        match decode_range(words[i].as_str()) {
            Some(range) => {
                ranges.push(range);
            },
            None => {
                proof {
                    assert(parsed_entry(texts[i as int]) is None);
                }
                return None;
            },
        }
    }
    proof {
        assert forall|i: int| 0 <= i < texts.len() implies (#[trigger] parsed_entry(
            texts[i],
        )) == Some(ranges@[i]@) by {}
    }
    Some(ranges)
}

/// The value of a range option that shows `hints` in `document`: the hints
/// that have a place in the document, each at its place, written as a list.
pub fn inlay_hints_to_ranges(document: &Document, hints: &Vec<(ServerId, Hint)>) -> (text: String)
    ensures
        text@ == encoded_ranges(resolved(document@, views(hints@))),
{
    let ranges = resolve_hints(document, hints);
    encode_ranges(&ranges)
}

} // verus!
