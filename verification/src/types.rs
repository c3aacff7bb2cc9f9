//! The plain data that the pipeline works on: positions as a language server
//! states them, positions as the editor states them, and markup text.
use vstd::prelude::*;

verus! {

/// Identifies one of the language servers that the bridge talks to.
pub type ServerId = usize;

/// A position as a language server states it: line and character offset,
/// both counted from zero. The character offset counts UTF-16 code units.
#[derive(Debug, Clone, Copy, PartialEq, Eq, Structural)]
pub struct Position {
    pub line: u32,
    pub character: u32,
}

/// A stretch of text between two positions; the end is exclusive.
#[derive(Debug, Clone, Copy, PartialEq, Eq, Structural)]
pub struct Range {
    pub start: Position,
    pub end: Position,
}

/// A position as the editor states it: line and column, both counted from
/// one. The column counts bytes of the line's UTF-8 text.
#[derive(Debug, Clone, Copy, PartialEq, Eq, Structural)]
pub struct KakounePosition {
    pub line: u64,
    pub column: u64,
}

/// A stretch of a buffer: `length` bytes from `start` on. A range of length
/// zero marks the place in front of the byte at `start`.
#[derive(Debug, Clone, Copy, PartialEq, Eq, Structural)]
pub struct KakouneRange {
    pub start: KakounePosition,
    pub length: u64,
}

/// The format of a piece of markup text.
#[derive(Debug, Clone, Copy, PartialEq, Eq, Structural)]
pub enum MarkupKind {
    PlainText,
    Markdown,
}

/// A piece of text together with its format.
#[derive(Debug, Clone, PartialEq, Eq)]
pub struct MarkupContent {
    pub kind: MarkupKind,
    pub value: String,
}

/// What a `MarkupContent` holds, with its text as a sequence of characters.
pub ghost struct MarkupContentView {
    pub kind: MarkupKind,
    pub value: Seq<char>,
}

impl View for MarkupContent {
    type V = MarkupContentView;

    open spec fn view(&self) -> MarkupContentView {
        MarkupContentView { kind: self.kind, value: self.value@ }
    }
}

/// The view of what an `Option` holds, if it holds anything.
pub open spec fn option_view<T: View>(o: Option<T>) -> Option<T::V> {
    match o {
        Some(t) => Some(t@),
        None => None,
    }
}

/// The request context that comes with a notification: the path of the buffer
/// that the notification is about.
#[derive(Debug, Clone, PartialEq, Eq)]
pub struct EditorMeta {
    pub buffile: String,
}

} // verus!
