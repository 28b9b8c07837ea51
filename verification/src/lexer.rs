//! Lexical rules: character classes, the cursor over one line of text, and
//! the positions at which tokens start and end.

use vstd::prelude::*;
use vstd::std_specs::iter::IteratorSpec;

verus! {

/// The characters with the Unicode `White_Space` property: the space, the
/// controls from tab to carriage return, next line, the no-break spaces,
/// the Ogham space mark, the spaces of fixed width, the line and paragraph
/// separators, the mathematical space and the ideographic space.
pub open spec fn is_space(c: char) -> bool {
    ||| c == ' '
    ||| ('\u{9}' <= c && c <= '\u{d}')
    ||| c == '\u{85}'
    ||| c == '\u{a0}'
    ||| c == '\u{1680}'
    ||| ('\u{2000}' <= c && c <= '\u{200a}')
    ||| c == '\u{2028}'
    ||| c == '\u{2029}'
    ||| c == '\u{202f}'
    ||| c == '\u{205f}'
    ||| c == '\u{3000}'
}

/// An opening or closing parenthesis.
pub open spec fn is_paren(c: char) -> bool {
    c == '(' || c == ')'
}

/// A character that can stand in a label: neither whitespace nor a parenthesis.
pub open spec fn is_label_char(c: char) -> bool {
    !is_space(c) && !is_paren(c)
}

/// Every character of `s` can stand in a label.
pub open spec fn is_label_text(s: Seq<char>) -> bool {
    forall|i: int| 0 <= i < s.len() ==> is_label_char(#[trigger] s[i])
}

/// The first position at or after `i` that holds no whitespace, or the end of `s`.
pub open spec fn skip_spaces(s: Seq<char>, i: int) -> int
    decreases s.len() - i,
{
    if 0 <= i < s.len() && is_space(s[i]) {
        skip_spaces(s, i + 1)
    } else {
        i
    }
}

/// The first position at or after `i` that holds no label character, or the end of `s`.
pub open spec fn label_end(s: Seq<char>, i: int) -> int
    decreases s.len() - i,
{
    if 0 <= i < s.len() && is_label_char(s[i]) {
        label_end(s, i + 1)
    } else {
        i
    }
}

/// The token that starts at position `i`: nothing for whitespace, the
/// parenthesis itself, or the whole run of label characters.
pub open spec fn token_at(s: Seq<char>, i: int) -> Seq<char>
    recommends
        0 <= i < s.len(),
{
    if is_space(s[i]) {
        Seq::empty()
    } else if is_paren(s[i]) {
        seq![s[i]]
    } else {
        s.subrange(i, label_end(s, i))
    }
}

/// The position after the token that starts at `i` and the whitespace behind it.
pub open spec fn after_token(s: Seq<char>, i: int) -> int
    recommends
        0 <= i < s.len(),
{
    if is_label_char(s[i]) {
        skip_spaces(s, label_end(s, i))
    } else {
        skip_spaces(s, i + 1)
    }
}

/// `skip_spaces` never moves backwards nor past the end, and stops on a
/// character that is no whitespace.
pub proof fn lemma_skip_spaces(s: Seq<char>, i: int)
    requires
        0 <= i <= s.len(),
    ensures
        i <= skip_spaces(s, i) <= s.len(),
        skip_spaces(s, i) < s.len() ==> !is_space(s[skip_spaces(s, i)]),
        forall|k: int| i <= k < skip_spaces(s, i) ==> is_space(#[trigger] s[k]),
    decreases s.len() - i,
{
    if i < s.len() && is_space(s[i]) {
        lemma_skip_spaces(s, i + 1);
    }
}

/// `label_end` never moves backwards nor past the end, passes label
/// characters only, and stops on a character that is none.
pub proof fn lemma_label_end(s: Seq<char>, i: int)
    requires
        0 <= i <= s.len(),
    ensures
        i <= label_end(s, i) <= s.len(),
        label_end(s, i) < s.len() ==> !is_label_char(s[label_end(s, i)]),
        forall|k: int| i <= k < label_end(s, i) ==> is_label_char(#[trigger] s[k]),
    decreases s.len() - i,
{
    if i < s.len() && is_label_char(s[i]) {
        lemma_label_end(s, i + 1);
    }
}

/// A token ends behind the position at which it starts, and within the text.
pub proof fn lemma_after_token(s: Seq<char>, i: int)
    requires
        0 <= i < s.len(),
    ensures
        i < after_token(s, i) <= s.len(),
        after_token(s, i) < s.len() ==> !is_space(s[after_token(s, i)]),
{
    if is_label_char(s[i]) {
        lemma_label_end(s, i + 1);
        lemma_skip_spaces(s, label_end(s, i));
    } else {
        lemma_skip_spaces(s, i + 1);
    }
}

/// No token holds whitespace: whitespace separates tokens and belongs to none.
pub proof fn lemma_token_has_no_space(s: Seq<char>, i: int)
    requires
        0 <= i < s.len(),
    ensures
        forall|k: int|
            0 <= k < token_at(s, i).len() ==> !is_space(#[trigger] token_at(s, i)[k]),
{
    if is_label_char(s[i]) {
        lemma_label_end(s, i);
    }
}

/// `char::is_whitespace` of std: true exactly of the characters with the
/// Unicode `White_Space` property, which `is_space` lists.
#[verifier::external_body]
fn char_is_whitespace(c: char) -> (b: bool)
    ensures
        b == is_space(c),
{
    c.is_whitespace()
}

/// `String::push` of std: appends one character to the end of the string.
#[verifier::external_body]
pub(crate) fn string_push(s: &mut String, c: char)
    ensures
        final(s)@ == old(s)@.push(c),
{
    s.push(c)
}

/// A read position in one line of text.
pub struct Cursor {
    chars: Vec<char>,
    pos: usize,
}

impl Cursor {
    /// The whole line, read or not.
    pub closed spec fn text(&self) -> Seq<char> {
        self.chars@
    }

    /// The number of characters already read.
    pub closed spec fn pos(&self) -> int {
        self.pos as int
    }

    /// The position lies within the line or at its end.
    pub open spec fn wf(&self) -> bool {
        0 <= self.pos() <= self.text().len()
    }

    /// A cursor at the start of `s`.
    pub fn new(s: &str) -> (cur: Cursor)
        ensures
            cur.wf(),
            cur.text() == s@,
            cur.pos() == 0,
    {
        let mut rest = s.chars();
        let mut chars: Vec<char> = Vec::new();
        loop
            invariant
                chars@ + rest.remaining() == s@,
                rest.decrease() is Some,
            ensures
                chars@ == s@,
            decreases rest.decrease()->0,
        {
            let ghost before = rest.remaining();
            match rest.next() {
                Some(c) => {
                    chars.push(c);
                    assert(chars@ + rest.remaining() =~= s@) by {
                        assert(before =~= seq![c] + before.drop_first());
                    }
                },
                None => {
                    assert(chars@ =~= s@);
                    break ;
                },
            }
        }
        Cursor { chars, pos: 0 }
    }

    /// The next unread character, if any, without reading it.
    pub fn peek(&self) -> (c: Option<char>)
        requires
            self.wf(),
        ensures
            c == (if self.pos() < self.text().len() {
                Some(self.text()[self.pos()])
            } else {
                None
            }),
    {
        if self.pos < self.chars.len() {
            Some(self.chars[self.pos])
        } else {
            None
        }
    }

    /// Whether the next unread character exists and is whitespace.
    pub fn at_space(&self) -> (b: bool)
        requires
            self.wf(),
        ensures
            b == (self.pos() < self.text().len() && is_space(self.text()[self.pos()])),
    {
        self.pos < self.chars.len() && char_is_whitespace(self.chars[self.pos])
    }

    /// Whether the next unread character exists and can stand in a label.
    pub fn at_label_char(&self) -> (b: bool)
        requires
            self.wf(),
        ensures
            b == (self.pos() < self.text().len() && is_label_char(self.text()[self.pos()])),
    {
        if self.pos < self.chars.len() {
            let c: char = self.chars[self.pos];
            !char_is_whitespace(c) && c != '(' && c != ')'
        } else {
            false
        }
    }

    /// Reads one character.
    pub fn advance(&mut self)
        requires
            old(self).wf(),
            old(self).pos() < old(self).text().len(),
        ensures
            final(self).wf(),
            final(self).text() == old(self).text(),
            final(self).pos() == old(self).pos() + 1,
    {
        if self.pos < self.chars.len() {
            self.pos += 1;
        }
    }

    /// Reads the whitespace at the cursor, up to the next character that is none.
    pub fn skip_whitespace(&mut self)
        requires
            old(self).wf(),
        ensures
            final(self).wf(),
            final(self).text() == old(self).text(),
            final(self).pos() == skip_spaces(old(self).text(), old(self).pos()),
    {
        while self.at_space()
            invariant
                self.wf(),
                self.text() == old(self).text(),
                old(self).pos() <= self.pos(),
                skip_spaces(self.text(), self.pos()) == skip_spaces(
                    old(self).text(),
                    old(self).pos(),
                ),
            decreases self.text().len() - self.pos(),
        {
            self.advance();
        }
    }
}

} // verus!
