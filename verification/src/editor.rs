//! Single-line text editor with readline-style keys.

use crate::key::{KeyCode, KeyEvent};
use crate::text::{chars_of, push_char};
use vstd::prelude::*;
use vstd::utf8::{
    decode_utf8, decode_utf8_encode_utf8, decode_utf8_split, encode_utf8, encode_utf8_decode_utf8,
    encode_utf8_valid_utf8, is_char_boundary, valid_utf8_split,
};

verus! {

/// Whether the byte offset falls between two characters of the text.
pub open spec fn on_boundary(text: Seq<char>, offset: int) -> bool {
    is_char_boundary(encode_utf8(text), offset) && 0 <= offset <= encode_utf8(text).len()
}

/// The characters in front of a byte offset.
pub open spec fn chars_before(text: Seq<char>, offset: int) -> Seq<char> {
    decode_utf8(encode_utf8(text).subrange(0, offset))
}

/// The characters behind a byte offset.
pub open spec fn chars_after(text: Seq<char>, offset: int) -> Seq<char> {
    decode_utf8(encode_utf8(text).subrange(offset, encode_utf8(text).len() as int))
}

/// A boundary splits a text in two, and the offset is the length of the part
/// in front.
pub proof fn lemma_split(text: Seq<char>, offset: int)
    requires
        on_boundary(text, offset),
    ensures
        chars_before(text, offset) + chars_after(text, offset) == text,
        encode_utf8(chars_before(text, offset)) == encode_utf8(text).subrange(0, offset),
        encode_utf8(chars_after(text, offset)) == encode_utf8(text).subrange(
            offset,
            encode_utf8(text).len() as int,
        ),
{
    let bytes = encode_utf8(text);
    encode_utf8_valid_utf8(text);
    encode_utf8_decode_utf8(text);
    decode_utf8_split(bytes, offset);
    valid_utf8_split(bytes, offset);
    decode_utf8_encode_utf8(bytes.subrange(0, offset));
    decode_utf8_encode_utf8(bytes.subrange(offset, bytes.len() as int));
}

/// The encoding of a text is that of its parts, one after the other.
pub proof fn lemma_encode_concat(a: Seq<char>, b: Seq<char>)
    ensures
        encode_utf8(a + b) == encode_utf8(a) + encode_utf8(b),
    decreases a.len(),
{
    if a.len() == 0 {
        assert(a + b =~= b);
        assert(encode_utf8(a) + encode_utf8(b) =~= encode_utf8(b));
    } else {
        lemma_encode_concat(a.drop_first(), b);
        assert((a + b).drop_first() =~= a.drop_first() + b);
        assert(encode_utf8(a + b) =~= encode_utf8(a) + encode_utf8(b));
    }
}

/// Where a text is made of two parts, the length of the first is a boundary
/// that splits it into them.
pub proof fn lemma_join(a: Seq<char>, b: Seq<char>)
    ensures
        on_boundary(a + b, encode_utf8(a).len() as int),
        chars_before(a + b, encode_utf8(a).len() as int) == a,
        chars_after(a + b, encode_utf8(a).len() as int) == b,
    decreases a.len(),
{
    lemma_encode_concat(a, b);
    let bytes = encode_utf8(a + b);
    let offset = encode_utf8(a).len() as int;
    assert(bytes.subrange(0, offset) =~= encode_utf8(a));
    assert(bytes.subrange(offset, bytes.len() as int) =~= encode_utf8(b));
    encode_utf8_decode_utf8(a);
    encode_utf8_decode_utf8(b);
    lemma_prefix_is_boundary(a, b);
}

proof fn lemma_prefix_is_boundary(a: Seq<char>, b: Seq<char>)
    ensures
        is_char_boundary(encode_utf8(a) + encode_utf8(b), encode_utf8(a).len() as int),
    decreases a.len(),
{
    let bytes = encode_utf8(a) + encode_utf8(b);
    lemma_encode_concat(a, b);
    encode_utf8_valid_utf8(a + b);
    if a.len() == 0 {
        assert(encode_utf8(a).len() == 0);
    } else {
        vstd::utf8::encode_utf8_first_scalar(a + b);
        assert((a + b)[0] == a[0]);
        let first = vstd::utf8::encode_scalar(a[0] as u32);
        let rest = a.drop_first();
        lemma_prefix_is_boundary(rest, b);
        lemma_encode_concat(rest, b);
        assert(encode_utf8(a) =~= first + encode_utf8(rest));
        assert(vstd::utf8::pop_first_scalar(bytes) =~= encode_utf8(rest) + encode_utf8(b));
    }
}

/// Splits a text at a byte offset.
pub fn split_text(text: &str, offset: usize) -> (parts: (&str, &str))
    requires
        on_boundary(text@, offset as int),
    ensures
        parts.0@ == chars_before(text@, offset as int),
        parts.1@ == chars_after(text@, offset as int),
{
    let parts = text.split_at(offset);
    proof {
        encode_utf8_decode_utf8(parts.0@);
        encode_utf8_decode_utf8(parts.1@);
    }
    parts
}

/// The length of a text in bytes.
pub fn byte_len(text: &str) -> (len: usize)
    ensures
        len == encode_utf8(text@).len(),
{
    text.as_bytes().len()
}

/// A class of characters that a motion runs over.
#[derive(Clone, Copy, PartialEq, Eq, Structural)]
pub enum CharClass {
    /// ASCII letters and digits
    Word,
    /// everything else
    NotWord,
    /// ASCII white space
    Space,
    /// everything else
    NotSpace,
}

/// Whether the character is an ASCII letter or digit.
pub open spec fn is_word_char(c: char) -> bool {
    '0' <= c <= '9' || 'A' <= c <= 'Z' || 'a' <= c <= 'z'
}

/// Whether the character is ASCII white space.
pub open spec fn is_ascii_space(c: char) -> bool {
    c == ' ' || c == '\t' || c == '\n' || c == '\u{c}' || c == '\r'
}

impl CharClass {
    /// Whether the character belongs to the class.
    pub open spec fn has(self, c: char) -> bool {
        match self {
            CharClass::Word => is_word_char(c),
            CharClass::NotWord => !is_word_char(c),
            CharClass::Space => is_ascii_space(c),
            CharClass::NotSpace => !is_ascii_space(c),
        }
    }

    fn contains(self, c: char) -> (yes: bool)
        ensures
            yes == self.has(c),
    {
        let word = ('0' <= c && c <= '9') || ('A' <= c && c <= 'Z') || ('a' <= c && c <= 'z');
        let space = c == ' ' || c == '\t' || c == '\n' || c == '\u{c}' || c == '\r';
        match self {
            CharClass::Word => word,
            CharClass::NotWord => !word,
            CharClass::Space => space,
            CharClass::NotSpace => !space,
        }
    }
}

/// The text without its longest tail of characters of the class.
pub open spec fn drop_tail(text: Seq<char>, class: CharClass) -> Seq<char>
    decreases text.len(),
{
    if text.len() > 0 && class.has(text.last()) {
        drop_tail(text.drop_last(), class)
    } else {
        text
    }
}

/// The text without its longest head of characters of the class.
pub open spec fn drop_head(text: Seq<char>, class: CharClass) -> Seq<char>
    decreases text.len(),
{
    if text.len() > 0 && class.has(text[0]) {
        drop_head(text.drop_first(), class)
    } else {
        text
    }
}

/// What stays in front of the cursor when it moves back a word: the run of
/// other characters and then the run of letters and digits are passed.
pub open spec fn word_back(before: Seq<char>) -> Seq<char> {
    drop_tail(drop_tail(before, CharClass::NotWord), CharClass::Word)
}

/// What stays behind the cursor when it moves on a word.
pub open spec fn word_ahead(after: Seq<char>) -> Seq<char> {
    drop_head(drop_head(after, CharClass::NotWord), CharClass::Word)
}

/// What stays in front of the cursor when the word before it is killed:
/// words are what white space separates.
pub open spec fn space_word_back(before: Seq<char>) -> Seq<char> {
    drop_tail(drop_tail(before, CharClass::Space), CharClass::NotSpace)
}

fn tail_start(chars: &Vec<char>, len: usize, class: CharClass) -> (start: usize)
    requires
        len <= chars@.len(),
    ensures
        start <= len,
        chars@.take(start as int) == drop_tail(chars@.take(len as int), class),
{
    let mut start: usize = len;
    while start > 0 && class.contains(chars[start - 1])
        invariant
            start <= len <= chars@.len(),
            drop_tail(chars@.take(start as int), class) == drop_tail(
                chars@.take(len as int),
                class,
            ),
        decreases start,
    {
        assert(chars@.take(start as int).drop_last() =~= chars@.take(start - 1));
        start = start - 1;
    }
    start
}

fn head_end(chars: &Vec<char>, from: usize, class: CharClass) -> (end: usize)
    requires
        from <= chars@.len(),
    ensures
        from <= end <= chars@.len(),
        chars@.skip(end as int) == drop_head(chars@.skip(from as int), class),
{
    let mut end: usize = from;
    while end < chars.len() && class.contains(chars[end])
        invariant
            from <= end <= chars@.len(),
            drop_head(chars@.skip(end as int), class) == drop_head(
                chars@.skip(from as int),
                class,
            ),
        decreases chars@.len() - end,
    {
        assert(chars@.skip(end as int).drop_first() =~= chars@.skip(end + 1));
        end = end + 1;
    }
    end
}

/// The byte offset in front of which the first `keep` characters of `before`
/// lie, in a text that `before` begins.
fn offset_of(before: &str, keep: usize, Ghost(after): Ghost<Seq<char>>) -> (offset: usize)
    requires
        keep <= before@.len(),
    ensures
        on_boundary(before@ + after, offset as int),
        chars_before(before@ + after, offset as int) == before@.take(keep as int),
        chars_after(before@ + after, offset as int) == before@.skip(keep as int) + after,
        offset == encode_utf8(before@.take(keep as int)).len(),
{
    let kept = before.substring_char(0, keep);
    proof {
        assert(kept@ =~= before@.take(keep as int));
        let rest = before@.skip(keep as int) + after;
        assert(before@ + after =~= kept@ + rest);
        lemma_join(kept@, rest);
    }
    byte_len(kept)
}

/// The boundary in front of the character before `byte_idx`, or the start.
pub fn prev_char_boundary(s: &str, byte_idx: usize) -> (prev: usize)
    requires
        on_boundary(s@, byte_idx as int),
    ensures
        on_boundary(s@, prev as int),
        ({
            let before = chars_before(s@, byte_idx as int);
            chars_before(s@, prev as int) == if before.len() == 0 {
                before
            } else {
                before.drop_last()
            }
        }),
{
    proof {
        lemma_split(s@, byte_idx as int);
    }
    let (before, after) = split_text(s, byte_idx);
    let count: usize = before.unicode_len();
    if count == 0 {
        assert(encode_utf8(before@).len() == 0);
        return byte_idx;
    }
    assert(before@.take(count - 1) =~= before@.drop_last());
    offset_of(before, count - 1, Ghost(after@))
}

/// The boundary behind the character at `byte_idx`, or `byte_idx` at the
/// end.
pub fn next_char_boundary(s: &str, byte_idx: usize) -> (next: usize)
    requires
        on_boundary(s@, byte_idx as int),
    ensures
        on_boundary(s@, next as int),
        ({
            let after = chars_after(s@, byte_idx as int);
            chars_after(s@, next as int) == if after.len() == 0 {
                after
            } else {
                after.drop_first()
            }
        }),
{
    proof {
        lemma_split(s@, byte_idx as int);
    }
    let (before, after) = split_text(s, byte_idx);
    let passed: usize = if after.unicode_len() == 0 {
        0
    } else {
        1
    };
    move_on(s, byte_idx, passed)
}

/// The boundary `count` characters behind `byte_idx`.
fn move_on(s: &str, byte_idx: usize, count: usize) -> (next: usize)
    requires
        on_boundary(s@, byte_idx as int),
        count <= chars_after(s@, byte_idx as int).len(),
    ensures
        on_boundary(s@, next as int),
        chars_before(s@, next as int) == chars_before(s@, byte_idx as int) + chars_after(
            s@,
            byte_idx as int,
        ).take(count as int),
        chars_after(s@, next as int) == chars_after(s@, byte_idx as int).skip(count as int),
{
    proof {
        lemma_split(s@, byte_idx as int);
    }
    let (before, after) = split_text(s, byte_idx);
    let passed = after.substring_char(0, count);
    let mut head = before.to_owned();
    head.append(passed);
    proof {
        assert(passed@ =~= after@.take(count as int));
        assert(s@ =~= head@ + after@.skip(count as int));
        lemma_join(head@, after@.skip(count as int));
    }
    byte_len(head.as_str())
}

/// Readline `forward-word`: the boundary behind the next run of letters and
/// digits, or the end.
pub fn forward_word(s: &str, byte_idx: usize) -> (next: usize)
    requires
        on_boundary(s@, byte_idx as int),
    ensures
        on_boundary(s@, next as int),
        chars_after(s@, next as int) == word_ahead(chars_after(s@, byte_idx as int)),
{
    let (_, after) = split_text(s, byte_idx);
    let chars = chars_of(after);
    let gap: usize = head_end(&chars, 0, CharClass::NotWord);
    let end: usize = head_end(&chars, gap, CharClass::Word);
    assert(chars@.skip(0) =~= chars@);
    move_on(s, byte_idx, end)
}

/// Readline `backward-word`: the boundary in front of the previous run of
/// letters and digits, or the start.
pub fn backward_word(s: &str, byte_idx: usize) -> (prev: usize)
    requires
        on_boundary(s@, byte_idx as int),
    ensures
        on_boundary(s@, prev as int),
        chars_before(s@, prev as int) == word_back(chars_before(s@, byte_idx as int)),
{
    proof {
        lemma_split(s@, byte_idx as int);
    }
    let (before, after) = split_text(s, byte_idx);
    let chars = chars_of(before);
    let gap: usize = tail_start(&chars, chars.len(), CharClass::NotWord);
    let start: usize = tail_start(&chars, gap, CharClass::Word);
    assert(chars@.take(chars@.len() as int) =~= chars@);
    offset_of(before, start, Ghost(after@))
}

/// The boundary in front of the previous word, where words are what white
/// space separates: a whole `name=Nexus` is one word.
pub fn backward_whitespace_word(s: &str, byte_idx: usize) -> (prev: usize)
    requires
        on_boundary(s@, byte_idx as int),
    ensures
        on_boundary(s@, prev as int),
        chars_before(s@, prev as int) == space_word_back(chars_before(s@, byte_idx as int)),
{
    proof {
        lemma_split(s@, byte_idx as int);
    }
    let (before, after) = split_text(s, byte_idx);
    let chars = chars_of(before);
    let gap: usize = tail_start(&chars, chars.len(), CharClass::Space);
    let start: usize = tail_start(&chars, gap, CharClass::NotSpace);
    assert(chars@.take(chars@.len() as int) =~= chars@);
    offset_of(before, start, Ghost(after@))
}

/// What a [`LineEditor`] shows: the text in front of the cursor and the text
/// behind it.
#[verifier::ext_equal]
pub struct EditorView {
    pub before: Seq<char>,
    pub after: Seq<char>,
}

impl EditorView {
    /// The whole text.
    pub open spec fn text(self) -> Seq<char> {
        self.before + self.after
    }

    /// With a character typed at the cursor.
    pub open spec fn typed(self, c: char) -> EditorView {
        EditorView { before: self.before.push(c), after: self.after }
    }

    /// Without the character in front of the cursor.
    pub open spec fn backspaced(self) -> EditorView {
        if self.before.len() == 0 {
            self
        } else {
            EditorView { before: self.before.drop_last(), after: self.after }
        }
    }

    /// Without the character behind the cursor.
    pub open spec fn deleted(self) -> EditorView {
        if self.after.len() == 0 {
            self
        } else {
            EditorView { before: self.before, after: self.after.drop_first() }
        }
    }

    /// With the cursor where `before` lies in front of it; `before` begins
    /// the text.
    pub open spec fn at(self, before: Seq<char>) -> EditorView {
        EditorView { before, after: self.text().skip(before.len() as int) }
    }

    /// With the cursor one character further left.
    pub open spec fn moved_left(self) -> EditorView {
        if self.before.len() == 0 {
            self
        } else {
            self.at(self.before.drop_last())
        }
    }

    /// With the cursor one character further right.
    pub open spec fn moved_right(self) -> EditorView {
        if self.after.len() == 0 {
            self
        } else {
            self.at(self.before.push(self.after[0]))
        }
    }

    /// With the cursor at the start.
    pub open spec fn at_start(self) -> EditorView {
        EditorView { before: Seq::empty(), after: self.text() }
    }

    /// With the cursor at the end.
    pub open spec fn at_end(self) -> EditorView {
        EditorView { before: self.text(), after: Seq::empty() }
    }

    /// The editor after a key, or nothing where the key is not for it.
    pub open spec fn edited(self, key: KeyEvent) -> Option<EditorView> {
        if key.code == KeyCode::Backspace {
            Some(self.backspaced())
        } else if key.code == KeyCode::Delete {
            Some(self.deleted())
        } else if key.bare(KeyCode::Left) {
            Some(self.moved_left())
        } else if key.bare(KeyCode::Right) {
            Some(self.moved_right())
        } else if key.bare(KeyCode::Home) || key.control(KeyCode::Char('a')) {
            Some(self.at_start())
        } else if key.bare(KeyCode::End) || key.control(KeyCode::Char('e')) {
            Some(self.at_end())
        } else if key.control(KeyCode::Char('u')) {
            Some(EditorView { before: Seq::empty(), after: self.after })
        } else if key.control(KeyCode::Char('k')) {
            Some(EditorView { before: self.before, after: Seq::empty() })
        } else if key.control(KeyCode::Char('w')) {
            Some(EditorView { before: space_word_back(self.before), after: self.after })
        } else if key.alt(KeyCode::Char('b')) {
            Some(self.at(word_back(self.before)))
        } else if key.alt(KeyCode::Char('f')) {
            Some(
                EditorView {
                    before: self.text().take(self.text().len() - word_ahead(self.after).len()),
                    after: word_ahead(self.after),
                },
            )
        } else {
            match key.code {
                KeyCode::Char(c) => if key.plain(key.code) {
                    Some(self.typed(c))
                } else {
                    None
                },
                _ => None,
            }
        }
    }
}

/// Whether [`LineEditor::handle_edit`] consumed the key.
#[derive(Debug, Clone, Copy, PartialEq, Eq, Structural)]
pub enum EditAction {
    /// The key is an editing key; text and cursor may have changed.
    Handled,
    /// The key is not for the editor.
    Unhandled,
}

/// Single-line text editor: a text and a cursor in it.
#[derive(Debug)]
pub struct LineEditor {
    /// the text
    pub text: String,
    /// insertion point, as a byte offset into `text` on a character boundary
    pub cursor: usize,
}

impl View for LineEditor {
    type V = EditorView;

    open spec fn view(&self) -> EditorView {
        EditorView {
            before: chars_before(self.text@, self.cursor as int),
            after: chars_after(self.text@, self.cursor as int),
        }
    }
}

impl LineEditor {
    /// The cursor sits on a character boundary.
    pub open spec fn wf(self) -> bool {
        on_boundary(self.text@, self.cursor as int)
    }

    /// In a well-formed editor the parts around the cursor make up the text,
    /// and the cursor is the length of the first in bytes.
    pub proof fn lemma_view(self)
        requires
            self.wf(),
        ensures
            self@.text() == self.text@,
            encode_utf8(self@.before).len() == self.cursor,
    {
        lemma_split(self.text@, self.cursor as int);
    }

    /// An editor of `text` with the cursor at its end.
    pub fn new(text: String) -> (editor: Self)
        ensures
            editor.wf(),
            editor.text == text,
            editor@ == (EditorView { before: text@, after: Seq::empty() }),
    {
        let cursor = byte_len(text.as_str());
        proof {
            assert(text@ + Seq::<char>::empty() =~= text@);
            lemma_join(text@, Seq::empty());
        }
        LineEditor { text, cursor }
    }

    /// Shows `before` in front of the cursor and `after` behind it.
    fn assign(&mut self, before: &str, after: &str)
        ensures
            final(self).wf(),
            final(self)@ == (EditorView { before: before@, after: after@ }),
            final(self).text@ == before@ + after@,
    {
        let mut text = before.to_owned();
        let cursor = byte_len(before);
        text.append(after);
        proof {
            lemma_join(before@, after@);
        }
        self.text = text;
        self.cursor = cursor;
    }

    /// The texts on both sides of the cursor.
    fn parts(&self) -> (parts: (String, String))
        requires
            self.wf(),
        ensures
            parts.0@ == self@.before,
            parts.1@ == self@.after,
    {
        let (before, after) = split_text(self.text.as_str(), self.cursor);
        (before.to_owned(), after.to_owned())
    }

    /// Removes what is in front of the cursor.
    pub fn kill_to_start(&mut self)
        requires
            old(self).wf(),
        ensures
            final(self).wf(),
            final(self)@ == (EditorView { before: Seq::empty(), after: old(self)@.after }),
    {
        let (_, after) = self.parts();
        let empty = String::new();
        self.assign(empty.as_str(), after.as_str());
    }

    /// Removes what is behind the cursor.
    pub fn kill_to_end(&mut self)
        requires
            old(self).wf(),
        ensures
            final(self).wf(),
            final(self)@ == (EditorView { before: old(self)@.before, after: Seq::empty() }),
    {
        let (before, _) = self.parts();
        let empty = String::new();
        self.assign(before.as_str(), empty.as_str());
    }

    /// Removes the word in front of the cursor, as white space delimits it.
    pub fn kill_word_backward(&mut self)
        requires
            old(self).wf(),
        ensures
            final(self).wf(),
            final(self)@ == (EditorView {
                before: space_word_back(old(self)@.before),
                after: old(self)@.after,
            }),
    {
        let start = backward_whitespace_word(self.text.as_str(), self.cursor);
        let (_, after) = self.parts();
        let (kept, _) = split_text(self.text.as_str(), start);
        let kept = kept.to_owned();
        self.assign(kept.as_str(), after.as_str());
    }

    /// Removes the character in front of the cursor.
    pub fn backspace(&mut self)
        requires
            old(self).wf(),
        ensures
            final(self).wf(),
            final(self)@ == old(self)@.backspaced(),
    {
        let prev = prev_char_boundary(self.text.as_str(), self.cursor);
        let (_, after) = self.parts();
        let (kept, _) = split_text(self.text.as_str(), prev);
        let kept = kept.to_owned();
        self.assign(kept.as_str(), after.as_str());
    }

    /// Removes the character behind the cursor.
    pub fn delete(&mut self)
        requires
            old(self).wf(),
        ensures
            final(self).wf(),
            final(self)@ == old(self)@.deleted(),
    {
        let next = next_char_boundary(self.text.as_str(), self.cursor);
        let (before, _) = self.parts();
        let (_, kept) = split_text(self.text.as_str(), next);
        let kept = kept.to_owned();
        self.assign(before.as_str(), kept.as_str());
    }

    /// Puts the cursor on another boundary of the text.
    fn place(&mut self, cursor: usize)
        requires
            on_boundary(old(self).text@, cursor as int),
        ensures
            final(self).wf(),
            final(self).text == old(self).text,
            final(self)@ == (EditorView {
                before: chars_before(old(self).text@, cursor as int),
                after: chars_after(old(self).text@, cursor as int),
            }),
    {
        self.cursor = cursor;
    }

    /// Moves the cursor one character to the left.
    pub fn move_left(&mut self)
        requires
            old(self).wf(),
        ensures
            final(self).wf(),
            final(self).text == old(self).text,
            final(self)@ == old(self)@.moved_left(),
    {
        let prev = prev_char_boundary(self.text.as_str(), self.cursor);
        proof {
            lemma_split(self.text@, prev as int);
            lemma_split(self.text@, self.cursor as int);
            let moved = chars_after(self.text@, prev as int);
            assert(moved =~= self.text@.skip(chars_before(self.text@, prev as int).len() as int));
            if self@.before.len() == 0 {
                assert(self@.after =~= self.text@.skip(0));
            }
        }
        self.place(prev);
    }

    /// Moves the cursor one character to the right.
    pub fn move_right(&mut self)
        requires
            old(self).wf(),
        ensures
            final(self).wf(),
            final(self).text == old(self).text,
            final(self)@ == old(self)@.moved_right(),
    {
        let next = next_char_boundary(self.text.as_str(), self.cursor);
        proof {
            lemma_split(self.text@, next as int);
            lemma_split(self.text@, self.cursor as int);
            let passed = chars_before(self.text@, next as int);
            let rest = chars_after(self.text@, next as int);
            assert(passed =~= self.text@.take(self.text@.len() - rest.len()));
            if self@.after.len() == 0 {
                assert(passed =~= self@.before);
            } else {
                assert(passed =~= self@.before.push(self@.after[0]));
                assert(rest =~= self.text@.skip(passed.len() as int));
            }
        }
        self.place(next);
    }

    fn go_to_start(&mut self)
        requires
            old(self).wf(),
        ensures
            final(self).wf(),
            final(self)@ == old(self)@.at_start(),
    {
        proof {
            self.lemma_view();
            let none: Seq<char> = Seq::empty();
            assert(none + self.text@ =~= self.text@);
            lemma_join(none, self.text@);
            assert(encode_utf8(none).len() == 0);
        }
        self.place(0);
    }

    fn go_to_end(&mut self)
        requires
            old(self).wf(),
        ensures
            final(self).wf(),
            final(self)@ == old(self)@.at_end(),
    {
        proof {
            self.lemma_view();
            assert(self.text@ + Seq::<char>::empty() =~= self.text@);
            lemma_join(self.text@, Seq::empty());
        }
        let end = byte_len(self.text.as_str());
        self.place(end);
    }

    fn insert(&mut self, c: char)
        requires
            old(self).wf(),
        ensures
            final(self).wf(),
            final(self)@ == old(self)@.typed(c),
    {
        let (before, after) = self.parts();
        let mut before = before;
        push_char(&mut before, c);
        self.assign(before.as_str(), after.as_str());
    }

    /// Applies a key.  Typing inserts at the cursor; ^A and ^E mirror Home
    /// and End; ^U and ^K kill to the start and the end of the line; ^W kills
    /// the previous word as white space delimits it; Alt-B and Alt-F move by
    /// words of letters and digits.
    pub fn handle_edit(&mut self, key: KeyEvent) -> (action: EditAction)
        requires
            old(self).wf(),
        ensures
            final(self).wf(),
            match old(self)@.edited(key) {
                Some(after) => action == EditAction::Handled && final(self)@ == after,
                None => action == EditAction::Unhandled && *final(self) == *old(self),
            },
    {
        if key.code == KeyCode::Backspace {
            self.backspace();
        } else if key.code == KeyCode::Delete {
            self.delete();
        } else if key.is_bare(KeyCode::Left) {
            self.move_left();
        } else if key.is_bare(KeyCode::Right) {
            self.move_right();
        } else if key.is_bare(KeyCode::Home) || key.is_control(KeyCode::Char('a')) {
            self.go_to_start();
        } else if key.is_bare(KeyCode::End) || key.is_control(KeyCode::Char('e')) {
            self.go_to_end();
        } else if key.is_control(KeyCode::Char('u')) {
            self.kill_to_start();
        } else if key.is_control(KeyCode::Char('k')) {
            self.kill_to_end();
        } else if key.is_control(KeyCode::Char('w')) {
            self.kill_word_backward();
        } else if key.is_alt(KeyCode::Char('b')) {
            let start = backward_word(self.text.as_str(), self.cursor);
            proof {
                self.lemma_view();
                lemma_split(self.text@, start as int);
                let kept = chars_before(self.text@, start as int);
                assert(chars_after(self.text@, start as int) =~= self.text@.skip(
                    kept.len() as int,
                ));
            }
            self.place(start);
        } else if key.is_alt(KeyCode::Char('f')) {
            let end = forward_word(self.text.as_str(), self.cursor);
            proof {
                self.lemma_view();
                lemma_split(self.text@, end as int);
                let rest = chars_after(self.text@, end as int);
                assert(chars_before(self.text@, end as int) =~= self.text@.take(
                    self.text@.len() - rest.len(),
                ));
            }
            self.place(end);
        } else {
            match key.code {
                KeyCode::Char(c) => {
                    if !key.is_plain(key.code) {
                        return EditAction::Unhandled;
                    }
                    self.insert(c);
                },
                _ => {
                    return EditAction::Unhandled;
                },
            }
        }
        EditAction::Handled
    }
}

impl Clone for LineEditor {
    fn clone(&self) -> (copy: Self)
        ensures
            copy == *self,
    {
        LineEditor { text: self.text.clone(), cursor: self.cursor }
    }
}

/// Keys that move the cursor leave the text alone.
pub proof fn law_motion_keeps_the_text(editor: EditorView, key: KeyEvent)
    requires
        key.bare(KeyCode::Left) || key.bare(KeyCode::Right) || key.bare(KeyCode::Home) || key.bare(
            KeyCode::End,
        ) || key.control(KeyCode::Char('a')) || key.control(KeyCode::Char('e')) || key.alt(
            KeyCode::Char('b'),
        ) || key.alt(KeyCode::Char('f')),
    ensures
        editor.edited(key) is Some,
        editor.edited(key)->Some_0.text() == editor.text(),
{
    let after = editor.edited(key)->Some_0;
    lemma_drop_tail_prefix(editor.before, CharClass::NotWord);
    lemma_drop_tail_prefix(drop_tail(editor.before, CharClass::NotWord), CharClass::Word);
    lemma_drop_head_suffix(editor.after, CharClass::NotWord);
    lemma_drop_head_suffix(drop_head(editor.after, CharClass::NotWord), CharClass::Word);
    assert(after.text() =~= editor.text());
}

proof fn lemma_drop_tail_prefix(text: Seq<char>, class: CharClass)
    ensures
        drop_tail(text, class).len() <= text.len(),
        drop_tail(text, class) == text.take(drop_tail(text, class).len() as int),
    decreases text.len(),
{
    if text.len() > 0 && class.has(text.last()) {
        lemma_drop_tail_prefix(text.drop_last(), class);
        let kept = drop_tail(text.drop_last(), class);
        assert(text.drop_last().take(kept.len() as int) =~= text.take(kept.len() as int));
    } else {
        assert(text.take(text.len() as int) =~= text);
    }
}

proof fn lemma_drop_head_suffix(text: Seq<char>, class: CharClass)
    ensures
        drop_head(text, class).len() <= text.len(),
        drop_head(text, class) == text.skip(text.len() - drop_head(text, class).len()),
    decreases text.len(),
{
    if text.len() > 0 && class.has(text[0]) {
        lemma_drop_head_suffix(text.drop_first(), class);
        let kept = drop_head(text.drop_first(), class);
        assert(text.drop_first().skip(text.drop_first().len() - kept.len()) =~= text.skip(
            text.len() - kept.len(),
        ));
    } else {
        assert(text.skip(0) =~= text);
    }
}

/// Typing a character and then pressing Backspace changes nothing.
pub proof fn law_backspace_undoes_typing(editor: EditorView, c: char)
    ensures
        editor.typed(c).backspaced() == editor,
{
    assert(editor.before.push(c).drop_last() =~= editor.before);
}

/// Moving left and then right, or right and then left, returns the cursor,
/// unless it stood at the end that the first move runs into.
pub proof fn law_left_and_right_undo_each_other(editor: EditorView)
    ensures
        editor.before.len() > 0 ==> editor.moved_left().moved_right() == editor,
        editor.after.len() > 0 ==> editor.moved_right().moved_left() == editor,
{
    if editor.before.len() > 0 {
        let left = editor.moved_left();
        assert(left.text() =~= editor.text());
        assert(left.before.push(left.after[0]) =~= editor.before);
        assert(left.moved_right().after =~= editor.after);
    }
    if editor.after.len() > 0 {
        let right = editor.moved_right();
        assert(right.text() =~= editor.text());
        assert(right.before.drop_last() =~= editor.before);
        assert(right.moved_left().after =~= editor.after);
    }
}

/// What each editing key leaves in front of the cursor and behind it.
#[verifier::spinoff_prover]
pub proof fn law_editing_changes_only_at_the_cursor(editor: EditorView, c: char)
    ensures
        editor.typed(c).before == editor.before.push(c),
        editor.typed(c).after == editor.after,
        editor.typed(c).text() == editor.before.push(c) + editor.after,
        editor.before.len() > 0 ==> {
            &&& editor.backspaced().before.push(editor.before.last()) == editor.before
            &&& editor.backspaced().after == editor.after
        },
        editor.before.len() == 0 ==> editor.backspaced() == editor,
        editor.after.len() > 0 ==> {
            &&& seq![editor.after[0]] + editor.deleted().after == editor.after
            &&& editor.deleted().before == editor.before
        },
        editor.after.len() == 0 ==> editor.deleted() == editor,
        editor.before.len() > 0 ==> editor.moved_left().before.push(editor.before.last())
            == editor.before && editor.moved_left().text() == editor.text(),
        editor.after.len() > 0 ==> editor.moved_right().before == editor.before.push(
            editor.after[0],
        ) && editor.moved_right().text() == editor.text(),
        editor.at_start().before.len() == 0 && editor.at_start().after == editor.text(),
        editor.at_end().before == editor.text() && editor.at_end().after.len() == 0,
{
    assert(editor.typed(c).text() =~= editor.before.push(c) + editor.after);
    if editor.before.len() > 0 {
        let left = editor.moved_left();
        assert(editor.before.drop_last().push(editor.before.last()) =~= editor.before);
        assert(left.before =~= editor.before.drop_last());
        assert(left.after =~= editor.text().skip(left.before.len() as int));
        assert(left.text() =~= editor.text());
    }
    if editor.after.len() > 0 {
        let right = editor.moved_right();
        assert(seq![editor.after[0]] + editor.after.drop_first() =~= editor.after);
        assert(right.before =~= editor.before.push(editor.after[0]));
        assert(right.after =~= editor.text().skip(right.before.len() as int));
        assert(right.text() =~= editor.text());
    }
}

/// The editing keys: which key does what.
pub proof fn law_editing_keys_do_what_they_stand_for(editor: EditorView, key: KeyEvent, c: char)
    ensures
        key.code == KeyCode::Backspace ==> editor.edited(key) == Some(editor.backspaced()),
        key.code == KeyCode::Delete ==> editor.edited(key) == Some(editor.deleted()),
        key.bare(KeyCode::Left) ==> editor.edited(key) == Some(editor.moved_left()),
        key.bare(KeyCode::Right) ==> editor.edited(key) == Some(editor.moved_right()),
        key.bare(KeyCode::Home) || key.control(KeyCode::Char('a')) ==> editor.edited(key) == Some(
            EditorView { before: Seq::empty(), after: editor.before + editor.after },
        ),
        key.bare(KeyCode::End) || key.control(KeyCode::Char('e')) ==> editor.edited(key) == Some(
            EditorView { before: editor.before + editor.after, after: Seq::empty() },
        ),
        key.control(KeyCode::Char('u')) ==> editor.edited(key) == Some(
            EditorView { before: Seq::empty(), after: editor.after },
        ),
        key.control(KeyCode::Char('k')) ==> editor.edited(key) == Some(
            EditorView { before: editor.before, after: Seq::empty() },
        ),
        key.bare(KeyCode::Char(c)) || key.shifted(KeyCode::Char(c)) ==> editor.edited(key) == Some(
            EditorView { before: editor.before.push(c), after: editor.after },
        ),
        key.bare(KeyCode::Up) || key.bare(KeyCode::Down) || key.bare(KeyCode::Tab)
            ==> editor.edited(key) is None,
{
}

proof fn lemma_drop_tail_stops(text: Seq<char>, class: CharClass)
    ensures
        ({
            let kept = drop_tail(text, class);
            &&& kept.len() <= text.len()
            &&& kept == text.take(kept.len() as int)
            &&& kept.len() > 0 ==> !class.has(kept.last())
            &&& forall|i: int| kept.len() <= i < text.len() ==> class.has(#[trigger] text[i])
        }),
    decreases text.len(),
{
    lemma_drop_tail_prefix(text, class);
    if text.len() > 0 && class.has(text.last()) {
        lemma_drop_tail_stops(text.drop_last(), class);
        let kept = drop_tail(text, class);
        assert forall|i: int| kept.len() <= i < text.len() implies class.has(
            #[trigger] text[i],
        ) by {
            if i < text.len() - 1 {
                assert(text[i] == text.drop_last()[i]);
            }
        }
    }
}

proof fn lemma_drop_head_stops(text: Seq<char>, class: CharClass)
    ensures
        ({
            let kept = drop_head(text, class);
            let gone = text.len() - kept.len();
            &&& 0 <= gone
            &&& kept == text.skip(gone)
            &&& kept.len() > 0 ==> !class.has(kept[0])
            &&& forall|i: int| 0 <= i < gone ==> class.has(#[trigger] text[i])
        }),
    decreases text.len(),
{
    lemma_drop_head_suffix(text, class);
    if text.len() > 0 && class.has(text[0]) {
        let rest = text.drop_first();
        lemma_drop_head_stops(rest, class);
        let gone = text.len() - drop_head(text, class).len();
        assert forall|i: int| 0 <= i < gone implies class.has(#[trigger] text[i]) by {
            if i > 0 {
                assert(text[i] == rest[i - 1]);
            }
        }
    }
}

/// Control and `w` take away the word in front of the cursor: the white space
/// there, and before it everything back to the last white space.
pub proof fn law_word_is_taken_back_to_white_space(editor: EditorView, key: KeyEvent)
    requires
        key.control(KeyCode::Char('w')),
    ensures
        editor.edited(key) is Some,
        ({
            let after = editor.edited(key)->Some_0;
            let left = after.before.len() as int;
            let white = |c: char| c == ' ' || c == '\t' || c == '\n' || c == '\u{c}' || c == '\r';
            &&& after.after == editor.after
            &&& left <= editor.before.len() && after.before == editor.before.take(left)
            &&& left > 0 ==> white(after.before.last())
            &&& exists|m: int|
                {
                    &&& left <= m <= editor.before.len()
                    &&& forall|i: int| left <= i < m ==> !white(#[trigger] editor.before[i])
                    &&& forall|i: int|
                        m <= i < editor.before.len() ==> white(#[trigger] editor.before[i])
                    &&& (#[trigger] editor.before.take(m)).len() == m
                }
        }),
{
    lemma_drop_tail_stops(editor.before, CharClass::Space);
    let word = drop_tail(editor.before, CharClass::Space);
    lemma_drop_tail_stops(word, CharClass::NotSpace);
    let after = editor.edited(key)->Some_0;
    let left = after.before.len() as int;
    let m = word.len() as int;
    assert(after.before =~= editor.before.take(left));
    assert(editor.before.take(m).len() == m);
    assert forall|i: int| left <= i < m implies !is_ascii_space(#[trigger] editor.before[i]) by {
        assert(editor.before[i] == word[i]);
    }
}

/// Alt and `b` go back to the start of the word in front of the cursor, a word
/// being letters and digits: over what is no word, then over the word.
pub proof fn law_cursor_goes_back_by_words(editor: EditorView, key: KeyEvent)
    requires
        key.alt(KeyCode::Char('b')),
    ensures
        editor.edited(key) is Some,
        ({
            let after = editor.edited(key)->Some_0;
            let left = after.before.len() as int;
            let inside = |c: char| '0' <= c <= '9' || 'A' <= c <= 'Z' || 'a' <= c <= 'z';
            &&& after.before + after.after == editor.before + editor.after
            &&& left <= editor.before.len() && after.before == editor.before.take(left)
            &&& left > 0 ==> !inside(after.before.last())
            &&& exists|m: int|
                {
                    &&& left <= m <= editor.before.len()
                    &&& forall|i: int| left <= i < m ==> inside(#[trigger] editor.before[i])
                    &&& forall|i: int|
                        m <= i < editor.before.len() ==> !inside(#[trigger] editor.before[i])
                    &&& (#[trigger] editor.before.take(m)).len() == m
                }
        }),
{
    lemma_drop_tail_stops(editor.before, CharClass::NotWord);
    let word = drop_tail(editor.before, CharClass::NotWord);
    lemma_drop_tail_stops(word, CharClass::Word);
    let after = editor.edited(key)->Some_0;
    let left = after.before.len() as int;
    let m = word.len() as int;
    assert(after.before =~= editor.before.take(left));
    assert(after.before + after.after =~= editor.before + editor.after);
    assert(editor.before.take(m).len() == m);
    assert forall|i: int| left <= i < m implies is_word_char(#[trigger] editor.before[i]) by {
        assert(editor.before[i] == word[i]);
    }
}

/// Alt and `f` go on past the end of the word behind the cursor.
pub proof fn law_cursor_goes_on_by_words(editor: EditorView, key: KeyEvent)
    requires
        key.alt(KeyCode::Char('f')),
    ensures
        editor.edited(key) is Some,
        ({
            let after = editor.edited(key)->Some_0;
            let gone = editor.after.len() - after.after.len();
            let inside = |c: char| '0' <= c <= '9' || 'A' <= c <= 'Z' || 'a' <= c <= 'z';
            &&& after.before + after.after == editor.before + editor.after
            &&& 0 <= gone && after.after == editor.after.skip(gone)
            &&& after.after.len() > 0 ==> !inside(after.after[0])
            &&& exists|m: int|
                {
                    &&& 0 <= m <= gone
                    &&& forall|i: int| 0 <= i < m ==> !inside(#[trigger] editor.after[i])
                    &&& forall|i: int| m <= i < gone ==> inside(#[trigger] editor.after[i])
                    &&& (#[trigger] editor.after.take(m)).len() == m
                }
        }),
{
    lemma_drop_head_stops(editor.after, CharClass::NotWord);
    let word = drop_head(editor.after, CharClass::NotWord);
    lemma_drop_head_stops(word, CharClass::Word);
    let after = editor.edited(key)->Some_0;
    let gone = editor.after.len() - after.after.len();
    let m = editor.after.len() - word.len();
    assert(after.after =~= editor.after.skip(gone));
    assert(after.before + after.after =~= editor.before + editor.after);
    assert(editor.after.take(m).len() == m);
    assert forall|i: int| m <= i < gone implies is_word_char(#[trigger] editor.after[i]) by {
        assert(editor.after[i] == word[i - m]);
    }
}

} // verus!
