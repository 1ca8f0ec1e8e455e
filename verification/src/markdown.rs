//! A small Markdown writer for bug reports.

use vstd::prelude::*;

use crate::text::{push_char, push_chars, to_chars, trim, trimmed};

verus! {

/// The number of bytes of `c` in UTF-8.
pub open spec fn char_utf8_len(c: char) -> nat {
    if (c as u32) < 0x80 {
        1
    } else if (c as u32) < 0x800 {
        2
    } else if (c as u32) < 0x10000 {
        3
    } else {
        4
    }
}

/// The number of bytes of `s` in UTF-8 (what `str::len` gives).
pub open spec fn utf8_len(s: Seq<char>) -> nat
    decreases s.len(),
{
    if s.len() == 0 {
        0
    } else {
        utf8_len(s.drop_last()) + char_utf8_len(s.last())
    }
}

/// `s` with every `\n` replaced by `by`.
pub open spec fn replace_newlines(s: Seq<char>, by: Seq<char>) -> Seq<char>
    decreases s.len(),
{
    if s.len() == 0 {
        Seq::empty()
    } else if s.last() == '\n' {
        replace_newlines(s.drop_last(), by) + by
    } else {
        replace_newlines(s.drop_last(), by).push(s.last())
    }
}

/// `n` times `c`.
pub open spec fn repeat_char(c: char, n: nat) -> Seq<char> {
    Seq::new(n, |i: int| c)
}

/// A title or heading: the text on one line, underlined to its length in bytes.
pub open spec fn underlined(text: Seq<char>, line: char) -> Seq<char> {
    let t = replace_newlines(text, seq![' ']);
    t + seq!['\n'] + repeat_char(line, utf8_len(t)) + seq!['\n', '\n']
}

/// A paragraph: the trimmed text with each line break doubled.
pub open spec fn paragraph_text(text: Seq<char>) -> Seq<char> {
    replace_newlines(trim(text), seq!['\n', '\n']) + seq!['\n', '\n']
}

fn push_replaced(s: &mut String, text: &[char], by: &[char])
    ensures
        final(s)@ == old(s)@ + replace_newlines(text@, by@),
{
    let mut i: usize = 0;
    while i < text.len()
        invariant
            i <= text@.len(),
            s@ == old(s)@ + replace_newlines(text@.take(i as int), by@),
        decreases text@.len() - i,
    {
        assert(text@.take(i + 1).drop_last() =~= text@.take(i as int));
        if text[i] == '\n' {
            push_chars(s, by);
        } else {
            push_char(s, text[i]);
        }
        assert(s@ =~= old(s)@ + replace_newlines(text@.take(i + 1), by@));
        i = i + 1;
    }
    assert(text@.take(i as int) =~= text@);
}

fn utf8_len_exec(s: &[char]) -> (r: usize)
    requires
        s@.len() <= usize::MAX / 4,
    ensures
        r == utf8_len(s@),
{
    let mut n: usize = 0;
    let mut i: usize = 0;
    while i < s.len()
        invariant
            i <= s@.len(),
            s@.len() <= usize::MAX / 4,
            n == utf8_len(s@.take(i as int)),
            n <= 4 * i,
        decreases s@.len() - i,
    {
        assert(s@.take(i + 1).drop_last() =~= s@.take(i as int));
        let c = s[i];
        let code = c as u32;
        let k: usize = if code < 0x80 {
            1
        } else if code < 0x800 {
            2
        } else if code < 0x10000 {
            3
        } else {
            4
        };
        n = n + k;
        i = i + 1;
    }
    assert(s@.take(i as int) =~= s@);
    n
}

fn push_underlined(s: &mut String, text: &str, line: char)
    requires
        text@.len() <= usize::MAX / 4,
    ensures
        final(s)@ == old(s)@ + underlined(text@, line),
{
    let chars = to_chars(text);
    let space: Vec<char> = vec![' '];
    assert(space@ =~= seq![' ']);
    let mut t = String::new();
    push_replaced(&mut t, chars.as_slice(), space.as_slice());
    let tc = to_chars(t.as_str());
    proof {
        lemma_replace_len(chars@, seq![' ']);
    }
    let n = utf8_len_exec(tc.as_slice());
    push_chars(s, tc.as_slice());
    push_char(s, '\n');
    let ghost before = s@;
    let mut i: usize = 0;
    while i < n
        invariant
            i <= n,
            s@ == before + repeat_char(line, i as nat),
        decreases n - i,
    {
        push_char(s, line);
        i = i + 1;
        assert(s@ =~= before + repeat_char(line, i as nat));
    }
    push_char(s, '\n');
    push_char(s, '\n');
    assert(s@ =~= old(s)@ + underlined(text@, line));
}

proof fn lemma_replace_len(s: Seq<char>, by: Seq<char>)
    requires
        by.len() == 1,
    ensures
        replace_newlines(s, by).len() == s.len(),
    decreases s.len(),
{
    if s.len() > 0 {
        lemma_replace_len(s.drop_last(), by);
    }
}

/// A Markdown document under construction.
pub struct Markdown {
    pub content: String,
}

impl View for Markdown {
    type V = Seq<char>;

    open spec fn view(&self) -> Seq<char> {
        self.content@
    }
}

impl Markdown {
    /// A document with the title, underlined with `=`.
    pub fn new(title: String) -> (r: Self)
        requires
            title@.len() <= usize::MAX / 4,
        ensures
            r@ == underlined(title@, '='),
    {
        let mut content = String::new();
        push_underlined(&mut content, title.as_str(), '=');
        Self { content }
    }

    /// Appends a heading, underlined with `-`.
    pub fn heading(&mut self, text: String)
        requires
            text@.len() <= usize::MAX / 4,
        ensures
            final(self)@ == old(self)@ + underlined(text@, '-'),
    {
        push_underlined(&mut self.content, text.as_str(), '-');
    }

    /// Appends a paragraph; each line of the text becomes a paragraph.
    pub fn paragraph(&mut self, text: String)
        ensures
            final(self)@ == old(self)@ + paragraph_text(text@),
    {
        let chars = to_chars(text.as_str());
        let t = trimmed(chars.as_slice());
        let nn: Vec<char> = vec!['\n', '\n'];
        assert(nn@ =~= seq!['\n', '\n']);
        push_replaced(&mut self.content, t.as_slice(), nn.as_slice());
        push_char(&mut self.content, '\n');
        push_char(&mut self.content, '\n');
        assert(self@ =~= old(self)@ + paragraph_text(text@));
    }

    /// The document's text.
    pub fn to_string(&self) -> (r: String)
        ensures
            r@ == self@,
    {
        self.content.clone()
    }
}

} // verus!
