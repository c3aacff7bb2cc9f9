//! The documents that the editor has open, by buffer path.
use vstd::prelude::*;
use crate::strings::views;
use crate::types::option_view;

verus! {

/// A snapshot of one buffer: its version and its text, line by line. A line
/// does not include its line terminator.
#[derive(Debug, Clone, PartialEq, Eq)]
pub struct Document {
    pub version: i32,
    pub lines: Vec<String>,
}

/// What a `Document` holds, with each line as a sequence of characters.
pub ghost struct DocumentView {
    pub version: i32,
    pub lines: Seq<Seq<char>>,
}

impl View for Document {
    type V = DocumentView;

    open spec fn view(&self) -> DocumentView {
        DocumentView { version: self.version, lines: views(self.lines@) }
    }
}

/// The line that `text` ends with: what follows its last line feed, or all of
/// it if it holds none.
pub open spec fn last_line(text: Seq<char>) -> Seq<char>
    decreases text.len(),
{
    if text.len() == 0 || text.last() == '\n' {
        Seq::empty()
    } else {
        last_line(text.drop_last()).push(text.last())
    }
}

/// The lines of `text` that a line feed ends, without their line feeds.
pub open spec fn ended_lines(text: Seq<char>) -> Seq<Seq<char>>
    decreases text.len(),
{
    if text.len() == 0 {
        Seq::empty()
    } else if text.last() == '\n' {
        ended_lines(text.drop_last()).push(last_line(text.drop_last()))
    } else {
        ended_lines(text.drop_last())
    }
}

/// The lines of `text`: the stretches between its line feeds. A text with
/// `n` line feeds has `n + 1` lines; the last one is empty if the text is
/// empty or ends with a line feed.
pub open spec fn lines_of(text: Seq<char>) -> Seq<Seq<char>> {
    ended_lines(text).push(last_line(text))
}

/// The lines of `lines`, each but the last with a line feed after it.
pub open spec fn joined_lines(lines: Seq<Seq<char>>) -> Seq<char>
    decreases lines.len(),
{
    if lines.len() == 0 {
        Seq::empty()
    } else if lines.len() == 1 {
        lines[0]
    } else {
        joined_lines(lines.drop_last()) + seq!['\n'] + lines.last()
    }
}

/// Splitting a text into lines loses nothing: the lines, joined by line
/// feeds, are the text.
pub proof fn lemma_joined_lines_of(text: Seq<char>)
    ensures
        joined_lines(lines_of(text)) == text,
    decreases text.len(),
{
    let lines = lines_of(text);
    if text.len() > 0 {
        let before = text.drop_last();
        lemma_joined_lines_of(before);
        if text.last() == '\n' {
            assert(lines.drop_last() =~= lines_of(before));
        } else if ended_lines(before).len() > 0 {
            assert(lines.drop_last() =~= ended_lines(before));
            assert(lines_of(before).drop_last() =~= ended_lines(before));
            assert(before.push(text.last()) =~= text);
        }
    }
}

/// No line holds a line feed.
pub proof fn lemma_lines_hold_no_line_feed(text: Seq<char>)
    ensures
        forall|i: int, j: int|
            0 <= i < lines_of(text).len() && 0 <= j < lines_of(text)[i].len() ==> lines_of(
                text,
            )[i][j] != '\n',
    decreases text.len(),
{
    if text.len() > 0 {
        lemma_lines_hold_no_line_feed(text.drop_last());
        let before = lines_of(text.drop_last());
        assert forall|i: int, j: int|
            0 <= i < lines_of(text).len() && 0 <= j < lines_of(text)[i].len() implies lines_of(
            text,
        )[i][j] != '\n' by {
            if i < before.len() - 1 || text.last() == '\n' {
                assert(i < before.len() ==> lines_of(text)[i] == before[i]);
            } else if j < before[i].len() {
                assert(lines_of(text)[i][j] == before[i][j]);
            }
        }
    }
}

impl Document {
    /// The snapshot of a buffer that holds `text` at `version`.
    pub fn new(version: i32, text: &str) -> (document: Document)
        ensures
            document@ == (DocumentView { version, lines: lines_of(text@) }),
    {
        let mut lines: Vec<String> = Vec::new();
        let mut line = String::new();
        let it = text.chars();
        for c in iter: it
            invariant
                iter.seq() == text@,
                views(lines@) == ended_lines(text@.take(iter.index() as int)),
                line@ == last_line(text@.take(iter.index() as int)),
        {
            proof {
                let upto = text@.take(iter.index() + 1);
                assert(upto.drop_last() =~= text@.take(iter.index() as int));
            }
            if c == '\n' {
                lines.push(line);
                line = String::new();
            } else {
                line.push(c);
            }
        }
        let ghost ended = views(lines@);
        let ghost last = line@;
        lines.push(line);
        proof {
            assert(text@.take(text@.len() as int) =~= text@);
            assert(views(lines@) =~= ended.push(last));
        }
        Document { version, lines }
    }
}

/// The store of open documents. Viewed as a map from buffer path to document.
pub struct Context {
    documents: Vec<(String, Document)>,
}

/// The map that a list of entries stands for. Where two entries are filed
/// under one path, the earlier one counts.
spec fn map_of(entries: Seq<(String, Document)>) -> Map<Seq<char>, DocumentView>
    decreases entries.len(),
{
    if entries.len() == 0 {
        Map::empty()
    } else {
        map_of(entries.drop_first()).insert(entries[0].0@, entries[0].1@)
    }
}

/// Whether none of the first `n` entries is filed under `path`.
spec fn absent_before(entries: Seq<(String, Document)>, n: int, path: Seq<char>) -> bool {
    forall|j: int| 0 <= j < n && j < entries.len() ==> (#[trigger] entries[j]).0@ != path
}

/// A path under which no entry is filed is not in the map.
proof fn lemma_absent(entries: Seq<(String, Document)>, path: Seq<char>)
    requires
        absent_before(entries, entries.len() as int, path),
    ensures
        !map_of(entries).contains_key(path),
    decreases entries.len(),
{
    if entries.len() > 0 {
        assert forall|j: int| 0 <= j < entries.len() - 1 implies (#[trigger] entries.drop_first()[j]).0@
            != path by {}
        lemma_absent(entries.drop_first(), path);
    }
}

/// The map gives, for a path, the first entry that is filed under it.
proof fn lemma_first(entries: Seq<(String, Document)>, i: int, path: Seq<char>)
    requires
        0 <= i < entries.len(),
        absent_before(entries, i, path),
        entries[i].0@ == path,
    ensures
        map_of(entries).get(path) == Some(entries[i].1@),
    decreases i,
{
    if i > 0 {
        assert forall|j: int| 0 <= j < i - 1 implies (#[trigger] entries.drop_first()[j]).0@
            != path by {}
        lemma_first(entries.drop_first(), i - 1, path);
    }
}

/// Putting a new entry in the place of the first one filed under its path
/// changes the map as an insertion does.
proof fn lemma_replace(entries: Seq<(String, Document)>, i: int, entry: (String, Document))
    requires
        0 <= i < entries.len(),
        absent_before(entries, i, entry.0@),
        entries[i].0@ == entry.0@,
    ensures
        map_of(entries.update(i, entry)) == map_of(entries).insert(entry.0@, entry.1@),
    decreases i,
{
    let rest = entries.drop_first();
    if i == 0 {
        assert(entries.update(0, entry).drop_first() =~= rest);
    } else {
        assert forall|j: int| 0 <= j < i - 1 implies (#[trigger] rest[j]).0@ != entry.0@ by {}
        lemma_replace(rest, i - 1, entry);
        assert(entries.update(i, entry).drop_first() =~= rest.update(i - 1, entry));
    }
}

/// Adding an entry at the end, under a path that no entry is filed under,
/// changes the map as an insertion does.
proof fn lemma_append(entries: Seq<(String, Document)>, entry: (String, Document))
    requires
        absent_before(entries, entries.len() as int, entry.0@),
    ensures
        map_of(entries.push(entry)) == map_of(entries).insert(entry.0@, entry.1@),
    decreases entries.len(),
{
    if entries.len() == 0 {
        assert(entries.push(entry).drop_first() =~= entries);
    } else {
        let rest = entries.drop_first();
        assert forall|j: int| 0 <= j < rest.len() implies (#[trigger] rest[j]).0@ != entry.0@ by {}
        lemma_append(rest, entry);
        assert(entries.push(entry).drop_first() =~= rest.push(entry));
    }
}

/// Taking out an entry changes the map at most at the path of that entry.
proof fn lemma_take_out(entries: Seq<(String, Document)>, i: int)
    requires
        0 <= i < entries.len(),
    ensures
        map_of(entries.remove(i)).remove(entries[i].0@) == map_of(entries).remove(entries[i].0@),
    decreases i,
{
    let path = entries[i].0@;
    let rest = entries.drop_first();
    if i > 0 {
        lemma_take_out(rest, i - 1);
        assert(entries.remove(i).drop_first() =~= rest.remove(i - 1));
        let first = entries[0];
        assert(map_of(rest).insert(first.0@, first.1@).remove(path) =~= map_of(rest).remove(
            path,
        ).insert(first.0@, first.1@).remove(path));
    }
}

impl View for Context {
    type V = Map<Seq<char>, DocumentView>;

    closed spec fn view(&self) -> Map<Seq<char>, DocumentView> {
        map_of(self.documents@)
    }
}

impl Context {
    /// A store without documents.
    pub fn new() -> (ctx: Context)
        ensures
            ctx@ == Map::<Seq<char>, DocumentView>::empty(),
    {
        Context { documents: Vec::new() }
    }

    /// The index of the first entry filed under `path`, if there is one.
    fn find(&self, path: &String) -> (found: Option<usize>)
        ensures
            match found {
                Some(i) => {
                    &&& i < self.documents@.len()
                    &&& self.documents@[i as int].0@ == path@
                    &&& absent_before(self.documents@, i as int, path@)
                },
                None => absent_before(self.documents@, self.documents@.len() as int, path@),
            },
    {
        let mut i: usize = 0;
        while i < self.documents.len()
            invariant
                i <= self.documents.len(),
                absent_before(self.documents@, i as int, path@),
            decreases self.documents.len() - i,
        {
            if self.documents[i].0 == *path {
                return Some(i);
            }
            i = i + 1;
        }
        None
    }

    /// The document of the buffer at `path`, or `None` if the store has no
    /// document for that path.
    pub fn document(&self, path: &String) -> (found: Option<&Document>)
        ensures
            option_view(found) == self@.get(path@),
            found is Some <==> self@.contains_key(path@),
    {
        match self.find(path) {
            Some(i) => {
                proof {
                    lemma_first(self.documents@, i as int, path@);
                }
                Some(&self.documents[i].1)
            },
            None => {
                proof {
                    lemma_absent(self.documents@, path@);
                }
                None
            },
        }
    }

    /// Files `document` under `path`, in place of the document that was filed
    /// there before, if any.
    pub fn insert(&mut self, path: String, document: Document)
        ensures
            final(self)@ == old(self)@.insert(path@, document@),
    {
        let ghost before = self.documents@;
        match self.find(&path) {
            Some(i) => {
                proof {
                    lemma_replace(before, i as int, (path, document));
                }
                self.documents.set(i, (path, document));
            },
            None => {
                proof {
                    lemma_append(before, (path, document));
                }
                self.documents.push((path, document));
            },
        }
    }

    /// Takes the document at `path` out of the store, if there is one.
    pub fn remove(&mut self, path: &String)
        ensures
            final(self)@ == old(self)@.remove(path@),
    {
        let ghost before = self.documents@;
        loop
            invariant
                map_of(self.documents@).remove(path@) == map_of(before).remove(path@),
            ensures
                absent_before(self.documents@, self.documents@.len() as int, path@),
                map_of(self.documents@).remove(path@) == map_of(before).remove(path@),
            decreases self.documents.len(),
        {
            match self.find(path) {
                Some(i) => {
                    proof {
                        lemma_take_out(self.documents@, i as int);
                    }
                    self.documents.remove(i);
                },
                None => {
                    break ;
                },
            }
        }
        proof {
            lemma_absent(self.documents@, path@);
        }
    }
}

} // verus!
