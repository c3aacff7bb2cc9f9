//! The `metals/publishDecorations` notification: a language server asks for
//! texts to be shown after stretches of a document.
//!
//! Every decoration with an "after" attachment becomes a hint at the end of
//! its range. The hints are placed in the current snapshot of the document
//! and written, with the snapshot's version in front, as the value of one
//! buffer option. A notification for a buffer without a document yields no
//! command.
use vstd::prelude::*;
use crate::context::{Context, DocumentView};
use crate::decimal::{push_signed_decimal, signed_decimal};
use crate::language_features::inlay_hints::{
    encoded_ranges,
    inlay_hints_to_ranges,
    resolved,
    Hint,
    HintView,
};
use crate::strings::views;
use crate::types::{
    option_view,
    EditorMeta,
    MarkupContent,
    MarkupContentView,
    Range,
    ServerId,
};
use crate::util::{push_quoted, quoted};

verus! {

/// The notifications of this protocol extension.
#[derive(Debug, Clone, Copy, PartialEq, Eq, Structural)]
pub enum PublishDecorations {
    /// A server publishes the decorations of one document.
    Published,
}

impl PublishDecorations {
    /// The name under which a server sends the notification.
    pub const METHOD: &'static str = "metals/publishDecorations";
}

/// The buffer option that holds the decorations of a buffer.
pub const METALS_DECORATION_OPTION: &'static str = "lsp_metals_decoration";

/// What a server sends with the notification.
#[derive(Debug, Clone, PartialEq, Eq)]
pub struct PublishDecorationsParams {
    /// The document that the decorations belong to.
    pub uri: String,
    /// The decorations, in the order in which they are to be shown.
    pub options: Vec<DecorationOptions>,
    /// Whether the decorations are meant to be shown inline.
    pub inline: bool,
}

/// One decoration: a stretch of the document and what to show with it.
#[derive(Debug, Clone, PartialEq, Eq)]
pub struct DecorationOptions {
    pub range: Range,
    pub hover_message: Option<MarkupContent>,
    pub render_options: ThemableDecorationInstanceRenderOption,
}

/// How a decoration is drawn.
#[derive(Debug, Clone, PartialEq, Eq)]
pub struct ThemableDecorationInstanceRenderOption {
    /// What to show after the decorated stretch, if anything.
    pub after: Option<ThemableDecorationAttachmentRenderOptions>,
}

/// A text to attach to a decorated stretch, with its styling.
#[derive(Debug, Clone, PartialEq, Eq)]
pub struct ThemableDecorationAttachmentRenderOptions {
    pub content_text: String,
    pub color: String,
    pub font_style: String,
}

/// What a `ThemableDecorationAttachmentRenderOptions` holds, with its texts
/// as sequences of characters.
pub ghost struct AttachmentView {
    pub content_text: Seq<char>,
    pub color: Seq<char>,
    pub font_style: Seq<char>,
}

impl View for ThemableDecorationAttachmentRenderOptions {
    type V = AttachmentView;

    open spec fn view(&self) -> AttachmentView {
        AttachmentView {
            content_text: self.content_text@,
            color: self.color@,
            font_style: self.font_style@,
        }
    }
}

/// What a `ThemableDecorationInstanceRenderOption` holds.
pub ghost struct RenderOptionView {
    pub after: Option<AttachmentView>,
}

impl View for ThemableDecorationInstanceRenderOption {
    type V = RenderOptionView;

    open spec fn view(&self) -> RenderOptionView {
        RenderOptionView { after: option_view(self.after) }
    }
}

/// What a `DecorationOptions` holds.
pub ghost struct DecorationOptionsView {
    pub range: Range,
    pub hover_message: Option<MarkupContentView>,
    pub render_options: RenderOptionView,
}

impl View for DecorationOptions {
    type V = DecorationOptionsView;

    open spec fn view(&self) -> DecorationOptionsView {
        DecorationOptionsView {
            range: self.range,
            hover_message: option_view(self.hover_message),
            render_options: self.render_options@,
        }
    }
}

/// What a `PublishDecorationsParams` holds.
pub ghost struct PublishDecorationsParamsView {
    pub uri: Seq<char>,
    pub options: Seq<DecorationOptionsView>,
    pub inline: bool,
}

impl View for PublishDecorationsParams {
    type V = PublishDecorationsParamsView;

    open spec fn view(&self) -> PublishDecorationsParamsView {
        PublishDecorationsParamsView {
            uri: self.uri@,
            options: views(self.options@),
            inline: self.inline,
        }
    }
}

/// Whether a decoration has something to show after its stretch.
pub open spec fn has_after(option: DecorationOptionsView) -> bool {
    option.render_options.after is Some
}

/// The hint that a decoration becomes, if it has an "after" attachment: the
/// attachment's text at the end of the decorated stretch, with the
/// decoration's hover message as its tooltip, set off on the left and not on
/// the right.
pub open spec fn hint_of(option: DecorationOptionsView) -> Option<HintView> {
    match option.render_options.after {
        Some(render) => Some(
            HintView {
                position: option.range.end,
                label: render.content_text,
                tooltip: option.hover_message,
                padding_left: Some(true),
                padding_right: None,
            },
        ),
        None => None,
    }
}

/// The hint that a decoration becomes, if any, with the server that
/// published it.
pub open spec fn served_hint(server_id: ServerId, option: DecorationOptionsView) -> Option<
    (ServerId, HintView),
> {
    match hint_of(option) {
        Some(hint) => Some((server_id, hint)),
        None => None,
    }
}

/// The hints that the decorations of `options` become, in the order of
/// `options`, each with the server that published it. Decorations without an
/// "after" attachment are passed over.
pub open spec fn hints_of(server_id: ServerId, options: Seq<DecorationOptionsView>) -> Seq<
    (ServerId, HintView),
> {
    options.filter_map(|option: DecorationOptionsView| served_hint(server_id, option))
}

/// The command that sets the decoration option of the current buffer to
/// `version` and `ranges`.
pub open spec fn set_option_text(version: i32, ranges: Seq<char>) -> Seq<char> {
    "set-option buffer "@ + METALS_DECORATION_OPTION@ + " "@ + signed_decimal(version as int) + " "@
        + ranges
}

/// The command that sets the decoration option of the buffer at `buffile` to
/// `version` and `ranges`: the command for the current buffer, quoted and
/// directed at the buffer by its quoted path.
pub open spec fn command_text(buffile: Seq<char>, version: i32, ranges: Seq<char>) -> Seq<char> {
    "evaluate-commands -buffer "@ + quoted(buffile) + " -- "@ + quoted(
        set_option_text(version, ranges),
    )
}

/// The command that a notification leads to, if any. With a document for the
/// buffer in `documents`, it is the command that sets the buffer's decoration
/// option to the document's version and the hints of the notification, placed
/// in the document. Without one, there is no command.
pub open spec fn published_command(
    buffile: Seq<char>,
    server_id: ServerId,
    params: PublishDecorationsParamsView,
    documents: Map<Seq<char>, DocumentView>,
) -> Option<Seq<char>> {
    match documents.get(buffile) {
        Some(document) => Some(
            command_text(
                buffile,
                document.version,
                encoded_ranges(resolved(document, hints_of(server_id, params.options))),
            ),
        ),
        None => None,
    }
}

/// The hints of a list of decorations are the hints of its front part
/// followed by those of its back part: every decoration contributes on its
/// own, and the order of the decorations is kept.
pub proof fn lemma_hints_of_concat(
    server_id: ServerId,
    front: Seq<DecorationOptionsView>,
    back: Seq<DecorationOptionsView>,
)
    ensures
        hints_of(server_id, front + back) == hints_of(server_id, front) + hints_of(server_id, back),
    decreases back.len(),
{
    if back.len() > 0 {
        lemma_hints_of_concat(server_id, front, back.drop_last());
        assert((front + back).drop_last() =~= front + back.drop_last());
    }
}

/// There are never more hints than decorations, and there are as many exactly
/// when every decoration has an "after" attachment.
pub proof fn lemma_hints_count(server_id: ServerId, options: Seq<DecorationOptionsView>)
    ensures
        hints_of(server_id, options).len() <= options.len(),
        hints_of(server_id, options).len() == options.len() <==> forall|i: int|
            0 <= i < options.len() ==> has_after(#[trigger] options[i]),
    decreases options.len(),
{
    if options.len() > 0 {
        let front = options.drop_last();
        lemma_hints_count(server_id, front);
        if hints_of(server_id, options).len() == options.len() {
            assert forall|i: int| 0 <= i < options.len() implies has_after(
                #[trigger] options[i],
            ) by {
                if i < front.len() {
                    assert(front[i] == options[i]);
                }
            }
        }
        if forall|i: int| 0 <= i < options.len() ==> has_after(#[trigger] options[i]) {
            assert forall|i: int| 0 <= i < front.len() implies has_after(#[trigger] front[i]) by {}
        }
    }
}

/// A decoration without an "after" attachment contributes nothing: the hints
/// are the same with it as without it.
pub proof fn lemma_without_after_no_hint(
    server_id: ServerId,
    options: Seq<DecorationOptionsView>,
    i: int,
)
    requires
        0 <= i < options.len(),
        !has_after(options[i]),
    ensures
        hints_of(server_id, options.remove(i)) == hints_of(server_id, options),
{
    let front = options.take(i);
    let one = seq![options[i]];
    let back = options.skip(i + 1);
    assert(options =~= front + one + back);
    lemma_hints_of_concat(server_id, front + one, back);
    lemma_hints_of_concat(server_id, front, one);
    lemma_hints_of_concat(server_id, front, back);
    assert(hints_of(server_id, one.drop_last()) =~= Seq::<(ServerId, HintView)>::empty());
}

/// A decoration without an "after" attachment leaves no trace in the
/// command: the notification leads to the same command with it as without it.
pub proof fn lemma_without_after_same_command(
    buffile: Seq<char>,
    server_id: ServerId,
    params: PublishDecorationsParamsView,
    documents: Map<Seq<char>, DocumentView>,
    i: int,
)
    requires
        0 <= i < params.options.len(),
        !has_after(params.options[i]),
    ensures
        published_command(
            buffile,
            server_id,
            PublishDecorationsParamsView { options: params.options.remove(i), ..params },
            documents,
        ) == published_command(buffile, server_id, params, documents),
{
    lemma_without_after_no_hint(server_id, params.options, i);
}

/// A notification without decorations for a buffer with a document still
/// leads to a command: the one that sets the buffer's decoration option to
/// the document's version and an empty list of ranges.
pub proof fn lemma_no_decorations(
    buffile: Seq<char>,
    server_id: ServerId,
    params: PublishDecorationsParamsView,
    documents: Map<Seq<char>, DocumentView>,
)
    requires
        documents.contains_key(buffile),
        params.options.len() == 0,
    ensures
        published_command(buffile, server_id, params, documents) == Some(
            command_text(buffile, documents[buffile].version, Seq::empty()),
        ),
{
    assert(hints_of(server_id, params.options).len() == 0);
}

/// A notification for a buffer without a document leads to no command.
pub proof fn lemma_unknown_buffer(
    buffile: Seq<char>,
    server_id: ServerId,
    params: PublishDecorationsParamsView,
    documents: Map<Seq<char>, DocumentView>,
)
    requires
        !documents.contains_key(buffile),
    ensures
        published_command(buffile, server_id, params, documents) is None,
{
}

/// The command that a notification leads to depends on the store only
/// through the document of the notification's buffer: handled again while
/// that document is as it was, the same notification leads to the same
/// command, character for character, whatever else changed in the store.
pub proof fn lemma_same_document_same_command(
    buffile: Seq<char>,
    server_id: ServerId,
    params: PublishDecorationsParamsView,
    first: Map<Seq<char>, DocumentView>,
    second: Map<Seq<char>, DocumentView>,
)
    requires
        first.get(buffile) == second.get(buffile),
    ensures
        published_command(buffile, server_id, params, first) == published_command(
            buffile,
            server_id,
            params,
            second,
        ),
{
}

/// Every command carries the version of the document that its ranges were
/// computed in.
pub proof fn lemma_command_carries_version(
    buffile: Seq<char>,
    server_id: ServerId,
    params: PublishDecorationsParamsView,
    documents: Map<Seq<char>, DocumentView>,
)
    requires
        documents.contains_key(buffile),
    ensures
        published_command(buffile, server_id, params, documents) == Some(
            command_text(
                buffile,
                documents[buffile].version,
                encoded_ranges(
                    resolved(documents[buffile], hints_of(server_id, params.options)),
                ),
            ),
        ),
{
}

/// The hints that the decorations of `options` become: one for every
/// decoration with an "after" attachment, none for the others, in the order of
/// `options`.
pub fn decoration_hints(server_id: ServerId, options: &Vec<DecorationOptions>) -> (hints: Vec<
    (ServerId, Hint),
>)
    ensures
        views(hints@) == hints_of(server_id, views(options@)),
        hints.len() <= options.len(),
{
    let mut hints: Vec<(ServerId, Hint)> = Vec::new();
    let ghost all = views(options@);
    for i in 0..options.len()
        invariant
            all == views(options@),
            views(hints@) == hints_of(server_id, all.take(i as int)),
    {
        proof {
            assert(all.take(i + 1).drop_last() =~= all.take(i as int));
        }
        let option = &options[i];
        match &option.render_options.after {
            Some(render) => {
                let tooltip = match &option.hover_message {
                    Some(message) => Some(
                        MarkupContent { kind: message.kind, value: message.value.clone() },
                    ),
                    None => None,
                };
                let hint = Hint {
                    position: option.range.end,
                    label: render.content_text.clone(),
                    tooltip,
                    padding_left: Some(true),
                    padding_right: None,
                };
                hints.push((server_id, hint));
            },
            None => {},
        }
    }
    proof {
        assert(all.take(options.len() as int) =~= all);
        lemma_hints_count(server_id, all);
    }
    hints
}

/// The command that sets the decoration option of the buffer at `buffile` to
/// `version` and `ranges`.
pub fn decoration_command(buffile: &str, version: i32, ranges: &str) -> (command: String)
    ensures
        command@ == command_text(buffile@, version, ranges@),
{
    let mut inner = String::new();
    inner.append("set-option buffer ");
    inner.append(METALS_DECORATION_OPTION);
    inner.append(" ");
    push_signed_decimal(&mut inner, version);
    inner.append(" ");
    inner.append(ranges);
    let mut command = String::new();
    command.append("evaluate-commands -buffer ");
    push_quoted(&mut command, buffile);
    command.append(" -- ");
    push_quoted(&mut command, inner.as_str());
    command
}

/// Handles one `metals/publishDecorations` notification of the server
/// `server_id` for the buffer of `meta`. Gives the command that shows the
/// decorations in that buffer, for the caller to send to the editor, or `None`
/// if the store has no document for the buffer.
pub fn publish_decorations(
    meta: &EditorMeta,
    server_id: ServerId,
    params: PublishDecorationsParams,
    ctx: &Context,
) -> (command: Option<String>)
    ensures
        option_view(command) == published_command(meta.buffile@, server_id, params@, ctx@),
        command is Some <==> ctx@.contains_key(meta.buffile@),
{
    let document = match ctx.document(&meta.buffile) {
        Some(document) => document,
        None => {
            return None;
        },
    };
    let hints = decoration_hints(server_id, &params.options);
    let ranges = inlay_hints_to_ranges(document, &hints);
    Some(decoration_command(meta.buffile.as_str(), document.version, ranges.as_str()))
}

} // verus!
