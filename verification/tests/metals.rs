use metals_decorations::context::{Context, Document};
use metals_decorations::language_features::inlay_hints::{decode_ranges, EncodedRange, Hint};
use metals_decorations::language_features::metals::{
    decoration_command, decoration_hints, publish_decorations, DecorationOptions,
    PublishDecorations, PublishDecorationsParams, ThemableDecorationAttachmentRenderOptions,
    ThemableDecorationInstanceRenderOption, METALS_DECORATION_OPTION,
};
use metals_decorations::position::lsp_position_to_kakoune;
use metals_decorations::types::{
    EditorMeta, KakounePosition, KakouneRange, MarkupContent, MarkupKind, Position, Range,
};
use metals_decorations::util::{editor_unquote, editor_unquote_list};

fn scala_document(version: i32) -> Document {
    let mut lines: Vec<String> = Vec::new();
    for i in 0..10 {
        lines.push(format!("// line {}", i));
    }
    lines.push("val x = 1".to_string());
    lines.push("val name = \"é\"".to_string());
    Document { version, lines }
}

fn store(path: &str, document: Document) -> Context {
    let mut ctx = Context::new();
    ctx.insert(path.to_string(), document);
    ctx
}

fn meta(path: &str) -> EditorMeta {
    EditorMeta { buffile: path.to_string() }
}

fn range(start: (u32, u32), end: (u32, u32)) -> Range {
    Range {
        start: Position { line: start.0, character: start.1 },
        end: Position { line: end.0, character: end.1 },
    }
}

fn after(text: &str) -> ThemableDecorationInstanceRenderOption {
    ThemableDecorationInstanceRenderOption {
        after: Some(ThemableDecorationAttachmentRenderOptions {
            content_text: text.to_string(),
            color: "green".to_string(),
            font_style: "italics".to_string(),
        }),
    }
}

fn nothing_after() -> ThemableDecorationInstanceRenderOption {
    ThemableDecorationInstanceRenderOption { after: None }
}

fn hover(text: &str) -> MarkupContent {
    MarkupContent { kind: MarkupKind::Markdown, value: text.to_string() }
}

fn with_after(end: (u32, u32), text: &str) -> DecorationOptions {
    DecorationOptions { range: range((end.0, 0), end), hover_message: None, render_options: after(text) }
}

fn without_after(end: (u32, u32), message: &str) -> DecorationOptions {
    DecorationOptions {
        range: range((end.0, 0), end),
        hover_message: Some(hover(message)),
        render_options: nothing_after(),
    }
}

fn params(options: Vec<DecorationOptions>) -> PublishDecorationsParams {
    PublishDecorationsParams { uri: "file:///a.scala".to_string(), options, inline: false }
}

/// The version and the list of ranges that a command sets the option to.
fn option_value(command: &str, path: &str) -> (String, String) {
    let head = format!("evaluate-commands -buffer '{}' -- ", path.replace('\'', "''"));
    assert!(command.starts_with(&head), "{:?}", command);
    let inner = editor_unquote(&command[head.len()..]).unwrap();
    let set = format!("set-option buffer {} ", METALS_DECORATION_OPTION);
    assert!(inner.starts_with(&set), "{:?}", inner);
    let value = &inner[set.len()..];
    let space = value.find(' ').unwrap();
    (value[..space].to_string(), value[space + 1..].to_string())
}

#[test]
fn notification_has_its_method_name() {
    assert_eq!(PublishDecorations::METHOD, "metals/publishDecorations");
    assert_eq!(METALS_DECORATION_OPTION, "lsp_metals_decoration");
}

#[test]
fn one_decoration_sets_the_option_to_one_entry() {
    let ctx = store("a.scala", scala_document(3));
    let command =
        publish_decorations(&meta("a.scala"), 0, params(vec![with_after((10, 4), ": Int")]), &ctx);
    assert_eq!(
        command,
        Some(
            "evaluate-commands -buffer 'a.scala' -- \
             'set-option buffer lsp_metals_decoration 3 ''11.5+0|0|: Int'''"
                .to_string()
        )
    );
    let (version, ranges) = option_value(&command.unwrap(), "a.scala");
    assert_eq!(version, "3");
    let anchor =
        lsp_position_to_kakoune(&Position { line: 10, character: 4 }, &scala_document(3)).unwrap();
    assert_eq!(anchor, KakounePosition { line: 11, column: 5 });
    assert_eq!(
        decode_ranges(&ranges),
        Some(vec![EncodedRange {
            range: KakouneRange { start: anchor, length: 0 },
            server_id: 0,
            label: ": Int".to_string(),
        }])
    );
}

#[test]
fn hover_without_after_gives_no_hint() {
    let options = vec![without_after((10, 4), "**Int**")];
    assert_eq!(decoration_hints(0, &options), vec![]);
    let ctx = store("a.scala", scala_document(3));
    let command = publish_decorations(&meta("a.scala"), 0, params(options), &ctx);
    assert_eq!(
        command,
        Some(
            "evaluate-commands -buffer 'a.scala' -- 'set-option buffer lsp_metals_decoration 3 '"
                .to_string()
        )
    );
    let (version, ranges) = option_value(&command.unwrap(), "a.scala");
    assert_eq!(version, "3");
    assert_eq!(ranges, "");
    assert_eq!(decode_ranges(&ranges), Some(vec![]));
}

#[test]
fn no_decorations_still_give_a_command() {
    for version in [0, 3, 17, -2, i32::MAX, i32::MIN] {
        let ctx = store("a.scala", scala_document(version));
        let command = publish_decorations(&meta("a.scala"), 4, params(vec![]), &ctx);
        assert_eq!(
            command,
            Some(format!(
                "evaluate-commands -buffer 'a.scala' -- \
                 'set-option buffer lsp_metals_decoration {} '",
                version
            ))
        );
    }
}

#[test]
fn unknown_buffer_gives_no_command() {
    let ctx = store("a.scala", scala_document(3));
    let options = vec![with_after((10, 4), ": Int")];
    assert_eq!(publish_decorations(&meta("b.scala"), 0, params(options.clone()), &ctx), None);
    assert_eq!(publish_decorations(&meta(""), 0, params(options.clone()), &ctx), None);
    assert_eq!(publish_decorations(&meta("a.scala"), 0, params(options), &Context::new()), None);
    assert_eq!(publish_decorations(&meta("a.scala"), 0, params(vec![]), &Context::new()), None);
}

#[test]
fn same_notification_gives_the_same_command() {
    let ctx = store("a.scala", scala_document(3));
    let options = vec![
        with_after((10, 4), ": Int"),
        without_after((10, 9), "hover"),
        with_after((11, 8), ": String"),
    ];
    let first = publish_decorations(&meta("a.scala"), 1, params(options.clone()), &ctx);
    let second = publish_decorations(&meta("a.scala"), 1, params(options.clone()), &ctx);
    assert!(first.is_some());
    assert_eq!(first.as_ref().map(|c| c.as_bytes()), second.as_ref().map(|c| c.as_bytes()));
    let mut changed = Context::new();
    changed.insert("other.scala".to_string(), scala_document(8));
    changed.insert("a.scala".to_string(), scala_document(3));
    let third = publish_decorations(&meta("a.scala"), 1, params(options), &changed);
    assert_eq!(first, third);
}

#[test]
fn command_carries_the_version_of_the_document() {
    let options = vec![with_after((0, 2), "x")];
    let mut ctx = store("a.scala", scala_document(3));
    let before = publish_decorations(&meta("a.scala"), 0, params(options.clone()), &ctx).unwrap();
    ctx.insert("a.scala".to_string(), scala_document(4));
    let later = publish_decorations(&meta("a.scala"), 0, params(options), &ctx).unwrap();
    assert_eq!(option_value(&before, "a.scala").0, "3");
    assert_eq!(option_value(&later, "a.scala").0, "4");
    assert_eq!(option_value(&before, "a.scala").1, option_value(&later, "a.scala").1);
}

#[test]
fn hints_are_as_many_as_decorations_with_after() {
    let all = vec![with_after((0, 1), "a"), with_after((1, 1), "b"), with_after((2, 1), "c")];
    assert_eq!(decoration_hints(0, &all).len(), all.len());
    let some = vec![
        with_after((0, 1), "a"),
        without_after((1, 1), "h"),
        with_after((2, 1), "c"),
        without_after((3, 1), "h"),
    ];
    assert_eq!(decoration_hints(0, &some).len(), 2);
    let none = vec![without_after((0, 1), "h"), without_after((1, 1), "h")];
    assert_eq!(decoration_hints(0, &none).len(), 0);
    assert_eq!(decoration_hints(0, &vec![]).len(), 0);
}

#[test]
fn decoration_without_after_leaves_no_trace() {
    let ctx = store("a.scala", scala_document(3));
    let with_it = vec![
        with_after((10, 4), ": Int"),
        without_after((10, 9), "hover"),
        with_after((11, 8), ": String"),
    ];
    let without_it = vec![with_after((10, 4), ": Int"), with_after((11, 8), ": String")];
    assert_eq!(
        publish_decorations(&meta("a.scala"), 0, params(with_it), &ctx),
        publish_decorations(&meta("a.scala"), 0, params(without_it), &ctx)
    );
}

#[test]
fn hint_is_anchored_at_the_end_of_the_range() {
    let option = DecorationOptions {
        range: range((2, 1), (5, 9)),
        hover_message: Some(hover("the *type*")),
        render_options: after(": Int"),
    };
    assert_eq!(
        decoration_hints(6, &vec![option]),
        vec![(
            6,
            Hint {
                position: Position { line: 5, character: 9 },
                label: ": Int".to_string(),
                tooltip: Some(hover("the *type*")),
                padding_left: Some(true),
                padding_right: None,
            }
        )]
    );
}

#[test]
fn hints_keep_the_order_of_the_decorations() {
    let options = vec![
        with_after((11, 3), "last line first"),
        with_after((0, 2), "first line second"),
        without_after((5, 0), "skipped"),
        with_after((11, 3), "same place"),
    ];
    let hints = decoration_hints(3, &options);
    let labels: Vec<&str> = hints.iter().map(|(_, h)| h.label.as_str()).collect();
    assert_eq!(labels, vec!["last line first", "first line second", "same place"]);
    assert!(hints.iter().all(|(server, _)| *server == 3));
    let ctx = store("a.scala", scala_document(1));
    let command = publish_decorations(&meta("a.scala"), 3, params(options), &ctx).unwrap();
    let (_, ranges) = option_value(&command, "a.scala");
    assert_eq!(
        ranges,
        "'12.4+0|3|last line first' '1.3+0|3|first line second' '12.4+0|3|same place'"
    );
}

#[test]
fn stale_decoration_is_dropped_and_the_rest_kept() {
    let ctx = store("a.scala", scala_document(2));
    let options = vec![
        with_after((40, 0), "line is gone"),
        with_after((10, 200), "past the end"),
        with_after((11, 13), "é is two bytes"),
    ];
    let command = publish_decorations(&meta("a.scala"), 0, params(options), &ctx).unwrap();
    let (version, ranges) = option_value(&command, "a.scala");
    assert_eq!(version, "2");
    assert_eq!(ranges, "'11.10+0|0|past the end' '12.15+0|0|é is two bytes'");
}

#[test]
fn quotes_and_spaces_do_not_break_the_command() {
    let path = "my dir/it's a.scala";
    let ctx = store(path, scala_document(7));
    let options = vec![with_after((10, 4), ": 'a' | \\b"), with_after((10, 9), " = ''")];
    let command = publish_decorations(&meta(path), 2, params(options), &ctx).unwrap();
    assert_eq!(
        command,
        "evaluate-commands -buffer 'my dir/it''s a.scala' -- \
         'set-option buffer lsp_metals_decoration 7 \
         ''11.5+0|2|: ''''a'''' \\| \\\\b'' ''11.10+0|2| = '''''''''''"
    );
    let (version, ranges) = option_value(&command, path);
    assert_eq!(version, "7");
    assert_eq!(
        editor_unquote_list(&ranges),
        Some(vec!["11.5+0|2|: 'a' \\| \\\\b".to_string(), "11.10+0|2| = ''".to_string()])
    );
    let decoded = decode_ranges(&ranges).unwrap();
    assert_eq!(decoded.len(), 2);
    assert_eq!(decoded[0].label, ": 'a' | \\b");
    assert_eq!(decoded[1].label, " = ''");
}

#[test]
fn command_is_built_from_path_version_and_ranges() {
    assert_eq!(
        decoration_command("a.scala", 3, ""),
        "evaluate-commands -buffer 'a.scala' -- 'set-option buffer lsp_metals_decoration 3 '"
    );
    assert_eq!(
        decoration_command("a b", -1, "'x'"),
        "evaluate-commands -buffer 'a b' -- 'set-option buffer lsp_metals_decoration -1 ''x'''"
    );
}

#[test]
fn styling_and_inline_flag_do_not_change_the_command() {
    let ctx = store("a.scala", scala_document(3));
    let plain = params(vec![with_after((10, 4), ": Int")]);
    let mut styled = plain.clone();
    styled.inline = true;
    styled.uri = "file:///elsewhere.scala".to_string();
    styled.options[0].render_options = ThemableDecorationInstanceRenderOption {
        after: Some(ThemableDecorationAttachmentRenderOptions {
            content_text: ": Int".to_string(),
            color: "red".to_string(),
            font_style: "bold".to_string(),
        }),
    };
    styled.options[0].hover_message = Some(hover("a tooltip"));
    assert_eq!(
        publish_decorations(&meta("a.scala"), 0, plain, &ctx),
        publish_decorations(&meta("a.scala"), 0, styled, &ctx)
    );
}
