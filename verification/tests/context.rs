use metals_decorations::context::{Context, Document};

fn document(version: i32, lines: &[&str]) -> Document {
    Document { version, lines: lines.iter().map(|l| l.to_string()).collect() }
}

#[test]
fn new_store_has_no_documents() {
    let ctx = Context::new();
    assert_eq!(ctx.document(&"a.scala".to_string()), None);
    assert_eq!(ctx.document(&String::new()), None);
}

#[test]
fn inserted_document_is_found_by_its_path() {
    let mut ctx = Context::new();
    ctx.insert("a.scala".to_string(), document(3, &["x"]));
    ctx.insert("b.scala".to_string(), document(5, &["y", "z"]));
    assert_eq!(ctx.document(&"a.scala".to_string()), Some(&document(3, &["x"])));
    assert_eq!(ctx.document(&"b.scala".to_string()), Some(&document(5, &["y", "z"])));
    assert_eq!(ctx.document(&"c.scala".to_string()), None);
    assert_eq!(ctx.document(&"a.scal".to_string()), None);
    assert_eq!(ctx.document(&"A.scala".to_string()), None);
}

#[test]
fn inserting_again_replaces_the_document() {
    let mut ctx = Context::new();
    ctx.insert("a.scala".to_string(), document(3, &["x"]));
    ctx.insert("b.scala".to_string(), document(1, &[]));
    ctx.insert("a.scala".to_string(), document(4, &["x", "y"]));
    assert_eq!(ctx.document(&"a.scala".to_string()), Some(&document(4, &["x", "y"])));
    assert_eq!(ctx.document(&"b.scala".to_string()), Some(&document(1, &[])));
}

#[test]
fn removed_document_is_no_longer_found() {
    let mut ctx = Context::new();
    ctx.insert("a.scala".to_string(), document(3, &["x"]));
    ctx.insert("b.scala".to_string(), document(5, &["y"]));
    ctx.remove(&"a.scala".to_string());
    assert_eq!(ctx.document(&"a.scala".to_string()), None);
    assert_eq!(ctx.document(&"b.scala".to_string()), Some(&document(5, &["y"])));
    ctx.remove(&"a.scala".to_string());
    ctx.remove(&"never there".to_string());
    assert_eq!(ctx.document(&"b.scala".to_string()), Some(&document(5, &["y"])));
    ctx.insert("a.scala".to_string(), document(4, &[]));
    assert_eq!(ctx.document(&"a.scala".to_string()), Some(&document(4, &[])));
}

#[test]
fn text_is_split_at_line_feeds() {
    assert_eq!(Document::new(1, ""), document(1, &[""]));
    assert_eq!(Document::new(2, "one"), document(2, &["one"]));
    assert_eq!(Document::new(3, "one\n"), document(3, &["one", ""]));
    assert_eq!(Document::new(4, "one\ntwo"), document(4, &["one", "two"]));
    assert_eq!(Document::new(-5, "\n\nx\n"), document(-5, &["", "", "x", ""]));
    assert_eq!(Document::new(6, "a\r\nb"), document(6, &["a\r", "b"]));
}

#[test]
fn lines_joined_by_line_feeds_are_the_text() {
    for text in ["", "\n", "a", "a\n", "\na", "a\nb\n\nc", "é\n😀\n"] {
        let doc = Document::new(0, text);
        assert_eq!(doc.lines.join("\n"), text);
        assert_eq!(doc.lines.len(), text.matches('\n').count() + 1);
        assert!(doc.lines.iter().all(|line| !line.contains('\n')));
    }
}
