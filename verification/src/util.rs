//! Quoting of text for the editor's command language, and its inverse.
//!
//! A word is quoted by putting it between single quotes and doubling every
//! single quote inside it. A list of words is written as its quoted words with
//! one space between neighbours.
use vstd::prelude::*;
use crate::strings::{chars_of, views};

verus! {

/// How one character is written inside a quoted word.
pub open spec fn escaped_char(c: char) -> Seq<char> {
    if c == '\'' {
        seq!['\'', '\'']
    } else {
        seq![c]
    }
}

/// `s` with every single quote doubled.
pub open spec fn escaped(s: Seq<char>) -> Seq<char>
    decreases s.len(),
{
    if s.len() == 0 {
        Seq::empty()
    } else {
        escaped_char(s[0]) + escaped(s.drop_first())
    }
}

/// `s` as one quoted word.
pub open spec fn quoted(s: Seq<char>) -> Seq<char> {
    seq!['\''] + escaped(s) + seq!['\'']
}

/// What follows the first word of a list: each further word, quoted, with a
/// space in front of it.
pub open spec fn joined_tail(words: Seq<Seq<char>>) -> Seq<char>
    decreases words.len(),
{
    if words.len() == 0 {
        Seq::empty()
    } else {
        seq![' '] + quoted(words[0]) + joined_tail(words.drop_first())
    }
}

/// The words of a list, each quoted, with one space between neighbours. The
/// empty list is written as the empty text.
pub open spec fn quoted_list(words: Seq<Seq<char>>) -> Seq<char> {
    if words.len() == 0 {
        Seq::empty()
    } else {
        quoted(words[0]) + joined_tail(words.drop_first())
    }
}

/// A scan result with `prefix` put in front of the word that was read.
pub open spec fn with_prefix(prefix: Seq<char>, scanned: Option<(Seq<char>, Seq<char>)>) -> Option<
    (Seq<char>, Seq<char>),
> {
    match scanned {
        Some((word, rest)) => Some((prefix + word, rest)),
        None => None,
    }
}

/// Reads the inside of a quoted word. `s` begins right after the opening
/// quote; a doubled quote stands for one quote, and the first quote that is
/// not doubled closes the word. The result is the word and what follows the
/// closing quote, or `None` if the word is never closed.
pub open spec fn scan_quoted(s: Seq<char>) -> Option<(Seq<char>, Seq<char>)>
    decreases s.len(),
{
    if s.len() == 0 {
        None
    } else if s[0] != '\'' {
        with_prefix(seq![s[0]], scan_quoted(s.drop_first()))
    } else if s.len() >= 2 && s[1] == '\'' {
        with_prefix(seq!['\''], scan_quoted(s.skip(2)))
    } else {
        Some((Seq::empty(), s.drop_first()))
    }
}

/// The word that `s` is the quoted form of, if it is one.
pub open spec fn unquoted(s: Seq<char>) -> Option<Seq<char>> {
    if s.len() > 0 && s[0] == '\'' {
        match scan_quoted(s.drop_first()) {
            Some((word, rest)) => if rest.len() == 0 {
                Some(word)
            } else {
                None
            },
            None => None,
        }
    } else {
        None
    }
}

/// A list that was read, with the words of `front` put in front of it.
pub open spec fn with_front(front: Seq<Seq<char>>, words: Option<Seq<Seq<char>>>) -> Option<
    Seq<Seq<char>>,
> {
    match words {
        Some(ws) => Some(front + ws),
        None => None,
    }
}

/// Reads a list of at least one quoted word: a quoted word, then either the
/// end of the text or one space and a further such list.
pub open spec fn unquoted_words(s: Seq<char>) -> Option<Seq<Seq<char>>>
    decreases s.len(),
{
    if s.len() == 0 || s[0] != '\'' {
        None
    } else {
        match scan_quoted(s.drop_first()) {
            None => None,
            Some((word, rest)) => {
                if rest.len() == 0 {
                    Some(seq![word])
                } else if rest[0] == ' ' {
                    proof {
                        lemma_scan_rest(s.drop_first());
                    }
                    with_front(seq![word], unquoted_words(rest.drop_first()))
                } else {
                    None
                }
            },
        }
    }
}

/// Reads a list of quoted words; the empty text is the empty list. `None` if
/// `s` is not the written form of a list.
pub open spec fn unquoted_list(s: Seq<char>) -> Option<Seq<Seq<char>>> {
    if s.len() == 0 {
        Some(Seq::empty())
    } else {
        unquoted_words(s)
    }
}

/// What a scan leaves over is a proper end piece of what it was given.
pub proof fn lemma_scan_rest(s: Seq<char>)
    ensures
        scan_quoted(s) matches Some((word, rest)) ==> rest.len() < s.len() && rest == s.skip(
            s.len() - rest.len(),
        ),
    decreases s.len(),
{
    if s.len() > 0 {
        if s[0] != '\'' {
            lemma_scan_rest(s.drop_first());
        } else if s.len() >= 2 && s[1] == '\'' {
            lemma_scan_rest(s.skip(2));
        }
    }
}

/// Scanning reads back what quoting wrote: after the escaped form of `word`
/// and the closing quote, the scan gives `word` and leaves `tail`, as long as
/// `tail` does not begin with a quote.
pub proof fn lemma_scan_escaped(word: Seq<char>, tail: Seq<char>)
    requires
        tail.len() == 0 || tail[0] != '\'',
    ensures
        scan_quoted(escaped(word) + seq!['\''] + tail) == Some((word, tail)),
    decreases word.len(),
{
    let s = escaped(word) + seq!['\''] + tail;
    if word.len() > 0 {
        let next = escaped(word.drop_first()) + seq!['\''] + tail;
        lemma_scan_escaped(word.drop_first(), tail);
        if word[0] == '\'' {
            assert(s.skip(2) =~= next);
        } else {
            assert(s.drop_first() =~= next);
        }
    }
}

/// Unquoting undoes quoting.
pub proof fn lemma_unquote_quoted(word: Seq<char>)
    ensures
        unquoted(quoted(word)) == Some(word),
{
    lemma_scan_escaped(word, Seq::empty());
    let s = quoted(word);
    assert(s.drop_first() =~= escaped(word) + seq!['\''] + Seq::<char>::empty());
}

/// Splitting undoes joining, for a list of at least one word.
pub proof fn lemma_unquote_words(word: Seq<char>, words: Seq<Seq<char>>)
    ensures
        unquoted_words(quoted(word) + joined_tail(words)) == Some(seq![word] + words),
    decreases words.len(),
{
    let tail = joined_tail(words);
    let s = quoted(word) + tail;
    lemma_scan_escaped(word, tail);
    assert(s.drop_first() =~= escaped(word) + seq!['\''] + tail);
    if words.len() > 0 {
        lemma_unquote_words(words[0], words.drop_first());
        assert(tail.drop_first() =~= quoted(words[0]) + joined_tail(words.drop_first()));
    }
}

/// Splitting undoes joining: the written form of a list of words is read
/// back as that list.
pub proof fn lemma_unquote_quoted_list(words: Seq<Seq<char>>)
    ensures
        unquoted_list(quoted_list(words)) == Some(words),
{
    if words.len() > 0 {
        lemma_unquote_words(words[0], words.drop_first());
    }
}

/// How one character is written inside an element of a `|`-separated tuple:
/// a backslash goes in front of a backslash and of a `|`.
pub open spec fn tuple_escaped_char(c: char) -> Seq<char> {
    if c == '\\' || c == '|' {
        seq!['\\', c]
    } else {
        seq![c]
    }
}

/// `s` as an element of a `|`-separated tuple.
pub open spec fn tuple_escaped(s: Seq<char>) -> Seq<char>
    decreases s.len(),
{
    if s.len() == 0 {
        Seq::empty()
    } else {
        tuple_escaped_char(s[0]) + tuple_escaped(s.drop_first())
    }
}

/// A text that was read, with `head` put in front of it.
pub open spec fn with_head(head: Seq<char>, text: Option<Seq<char>>) -> Option<Seq<char>> {
    match text {
        Some(t) => Some(head + t),
        None => None,
    }
}

/// The text that `s` is the tuple element of: a backslash must be followed by
/// a backslash or a `|` and stands for that character; a `|` without a
/// backslash in front of it does not belong to an element. `None` if `s` is
/// not the written form of an element.
pub open spec fn tuple_unescaped(s: Seq<char>) -> Option<Seq<char>>
    decreases s.len(),
{
    if s.len() == 0 {
        Some(Seq::empty())
    } else if s[0] == '\\' {
        if s.len() >= 2 && (s[1] == '\\' || s[1] == '|') {
            with_head(seq![s[1]], tuple_unescaped(s.skip(2)))
        } else {
            None
        }
    } else if s[0] == '|' {
        None
    } else {
        with_head(seq![s[0]], tuple_unescaped(s.drop_first()))
    }
}

/// Reading a tuple element gives back the text that was written.
pub proof fn lemma_tuple_unescape_escaped(s: Seq<char>)
    ensures
        tuple_unescaped(tuple_escaped(s)) == Some(s),
    decreases s.len(),
{
    if s.len() > 0 {
        let rest = tuple_escaped(s.drop_first());
        let e = tuple_escaped(s);
        lemma_tuple_unescape_escaped(s.drop_first());
        if s[0] == '\\' || s[0] == '|' {
            assert(e.skip(2) =~= rest);
        } else {
            assert(e.drop_first() =~= rest);
        }
    }
}

/// Appends `s` to `out` with every single quote doubled.
pub fn push_escaped(out: &mut String, s: &str)
    ensures
        final(out)@ == old(out)@ + escaped(s@),
{
    let ghost whole = out@ + escaped(s@);
    proof {
        assert(s@.skip(0) =~= s@);
    }
    let it = s.chars();
    for c in iter: it
        invariant
            iter.seq() == s@,
            out@ + escaped(s@.skip(iter.index() as int)) == whole,
    {
        let ghost rest = s@.skip(iter.index() as int);
        if c == '\'' {
            out.push('\'');
            out.push('\'');
        } else {
            out.push(c);
        }
        proof {
            assert(rest.drop_first() =~= s@.skip(iter.index() + 1));
        }
    }
}

/// Appends `s` to `out` as one quoted word.
pub fn push_quoted(out: &mut String, s: &str)
    ensures
        final(out)@ == old(out)@ + quoted(s@),
{
    out.push('\'');
    push_escaped(out, s);
    out.push('\'');
}

/// `s` with every single quote doubled.
pub fn editor_escape(s: &str) -> (r: String)
    ensures
        r@ == escaped(s@),
{
    let mut r = String::new();
    push_escaped(&mut r, s);
    r
}

/// `s` as one quoted word: between single quotes, with every single quote
/// inside it doubled.
pub fn editor_quote(s: &str) -> (r: String)
    ensures
        r@ == quoted(s@),
{
    let mut r = String::new();
    push_quoted(&mut r, s);
    r
}

/// The written form of a list of words: each word quoted, with one space
/// between neighbours.
pub fn editor_quote_list(words: &Vec<String>) -> (r: String)
    ensures
        r@ == quoted_list(views(words@)),
{
    let mut r = String::new();
    if words.len() == 0 {
        return r;
    }
    let ghost texts = views(words@);
    push_quoted(&mut r, words[0].as_str());
    let mut i: usize = 1;
    while i < words.len()
        invariant
            1 <= i <= words.len(),
            texts == views(words@),
            r@ + joined_tail(texts.skip(i as int)) == quoted_list(texts),
        decreases words.len() - i,
    {
        let ghost rest = texts.skip(i as int);
        r.push(' ');
        push_quoted(&mut r, words[i].as_str());
        proof {
            assert(rest.drop_first() =~= texts.skip(i + 1));
        }
        i = i + 1;
    }
    r
}

/// Reads the inside of a quoted word that begins at `start`, right after
/// its opening quote. Gives the word and the index of the first character
/// after the closing quote, or `None` if the word is never closed.
pub fn scan_quoted_at(chars: &Vec<char>, start: usize) -> (r: Option<(String, usize)>)
    requires
        start <= chars.len(),
    ensures
        match r {
            Some((word, end)) => {
                &&& start < end <= chars.len()
                &&& scan_quoted(chars@.skip(start as int)) == Some(
                    (word@, chars@.skip(end as int)),
                )
            },
            None => scan_quoted(chars@.skip(start as int)) is None,
        },
{
    let mut word = String::new();
    let mut i: usize = start;
    let ghost whole = scan_quoted(chars@.skip(start as int));
    while i < chars.len()
        invariant
            start <= i <= chars.len(),
            whole == scan_quoted(chars@.skip(start as int)),
            whole == with_prefix(word@, scan_quoted(chars@.skip(i as int))),
        decreases chars.len() - i,
    {
        let ghost here = chars@.skip(i as int);
        let c = chars[i];
        if c != '\'' {
            word.push(c);
            proof {
                assert(here.drop_first() =~= chars@.skip(i + 1));
            }
            i = i + 1;
        } else if i + 1 < chars.len() && chars[i + 1] == '\'' {
            word.push('\'');
            proof {
                assert(here.skip(2) =~= chars@.skip(i + 2));
            }
            i = i + 2;
        } else {
            return Some((word, i + 1));
        }
    }
    None
}

/// The word that `s` is the quoted form of, or `None` if `s` is not one
/// quoted word.
pub fn editor_unquote(s: &str) -> (r: Option<String>)
    ensures
        match r {
            Some(word) => unquoted(s@) == Some(word@),
            None => unquoted(s@) is None,
        },
{
    let chars = chars_of(s);
    if chars.len() == 0 || chars[0] != '\'' {
        return None;
    }
    match scan_quoted_at(&chars, 1) {
        Some((word, end)) => {
            if end == chars.len() {
                Some(word)
            } else {
                None
            }
        },
        None => None,
    }
}

/// Reads a list of quoted words. Gives the words, or `None` if `s` is not
/// the written form of a list.
pub fn editor_unquote_list(s: &str) -> (r: Option<Vec<String>>)
    ensures
        match r {
            Some(words) => unquoted_list(s@) == Some(views(words@)),
            None => unquoted_list(s@) is None,
        },
{
    let chars = chars_of(s);
    let mut words: Vec<String> = Vec::new();
    if chars.len() == 0 {
        return Some(words);
    }
    let mut i: usize = 0;
    proof {
        assert(chars@.skip(0) =~= chars@);
    }
    loop
        invariant
            i <= chars.len(),
            chars@ == s@,
            chars.len() > 0,
            unquoted_list(s@) == with_front(views(words@), unquoted_words(chars@.skip(i as int))),
        decreases chars.len() - i,
    {
        if i >= chars.len() || chars[i] != '\'' {
            return None;
        }
        let ghost here = chars@.skip(i as int);
        proof {
            assert(here.drop_first() =~= chars@.skip(i + 1));
        }
        match scan_quoted_at(&chars, i + 1) {
            None => {
                return None;
            },
            Some((word, end)) => {
                words.push(word);
                if end == chars.len() {
                    return Some(words);
                }
                if chars[end] != ' ' {
                    return None;
                }
                proof {
                    let rest = chars@.skip(end as int);
                    assert(rest.drop_first() =~= chars@.skip(end + 1));
                }
                i = end + 1;
            },
        }
    }
}

/// Appends `s` to `out` as an element of a `|`-separated tuple.
pub fn push_tuple_escaped(out: &mut String, s: &str)
    ensures
        final(out)@ == old(out)@ + tuple_escaped(s@),
{
    let ghost whole = out@ + tuple_escaped(s@);
    proof {
        assert(s@.skip(0) =~= s@);
    }
    let it = s.chars();
    for c in iter: it
        invariant
            iter.seq() == s@,
            out@ + tuple_escaped(s@.skip(iter.index() as int)) == whole,
    {
        let ghost rest = s@.skip(iter.index() as int);
        if c == '\\' || c == '|' {
            out.push('\\');
        }
        out.push(c);
        proof {
            assert(rest.drop_first() =~= s@.skip(iter.index() + 1));
        }
    }
}

/// `s` as an element of a `|`-separated tuple: with a backslash in front of
/// every backslash and every `|`.
pub fn escape_tuple_element(s: &str) -> (r: String)
    ensures
        r@ == tuple_escaped(s@),
{
    let mut r = String::new();
    push_tuple_escaped(&mut r, s);
    r
}

/// Reads the tuple element that `chars` holds from `start` to its end. Gives
/// its text, or `None` if what stands there is not the written form of an
/// element.
pub fn unescape_tuple_element_at(chars: &Vec<char>, start: usize) -> (r: Option<String>)
    requires
        start <= chars.len(),
    ensures
        match r {
            Some(text) => tuple_unescaped(chars@.skip(start as int)) == Some(text@),
            None => tuple_unescaped(chars@.skip(start as int)) is None,
        },
{
    let mut text = String::new();
    let mut i: usize = start;
    let ghost whole = tuple_unescaped(chars@.skip(start as int));
    while i < chars.len()
        invariant
            start <= i <= chars.len(),
            whole == tuple_unescaped(chars@.skip(start as int)),
            whole == with_head(text@, tuple_unescaped(chars@.skip(i as int))),
        decreases chars.len() - i,
    {
        let ghost here = chars@.skip(i as int);
        let c = chars[i];
        if c == '\\' {
            if i + 1 < chars.len() && (chars[i + 1] == '\\' || chars[i + 1] == '|') {
                let d = chars[i + 1];
                text.push(d);
                proof {
                    assert(here.skip(2) =~= chars@.skip(i + 2));
                }
                i = i + 2;
            } else {
                return None;
            }
        } else if c == '|' {
            return None;
        } else {
            text.push(c);
            proof {
                assert(here.drop_first() =~= chars@.skip(i + 1));
            }
            i = i + 1;
        }
    }
    Some(text)
}

/// The text that `s` is the tuple element of, or `None` if `s` is not the
/// written form of an element.
pub fn unescape_tuple_element(s: &str) -> (r: Option<String>)
    ensures
        match r {
            Some(text) => tuple_unescaped(s@) == Some(text@),
            None => tuple_unescaped(s@) is None,
        },
{
    let chars = chars_of(s);
    proof {
        assert(chars@.skip(0) =~= chars@);
    }
    unescape_tuple_element_at(&chars, 0)
}

} // verus!
