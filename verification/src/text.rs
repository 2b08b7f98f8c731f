//! Measuring, cutting and wrapping text.

use vstd::prelude::*;
use vstd::utf8::{encode_utf8, encode_utf8_decode_utf8};

verus! {

/// Two texts with the same encoding are the same text.
pub proof fn lemma_encode_utf8_injective(a: Seq<char>, b: Seq<char>)
    requires
        encode_utf8(a) == encode_utf8(b),
    ensures
        a == b,
{
    encode_utf8_decode_utf8(a);
    encode_utf8_decode_utf8(b);
}

/// Whether the two texts are equal.
pub fn same_text(a: &str, b: &str) -> (yes: bool)
    ensures
        yes == (a@ == b@),
{
    let x = a.as_bytes();
    let y = b.as_bytes();
    if x.len() != y.len() {
        return false;
    }
    let mut i: usize = 0;
    while i < x.len()
        invariant
            x@ == encode_utf8(a@),
            y@ == encode_utf8(b@),
            x@.len() == y@.len(),
            i <= x@.len(),
            forall|k: int| 0 <= k < i ==> x@[k] == y@[k],
        decreases x@.len() - i,
    {
        if x[i] != y[i] {
            return false;
        }
        i = i + 1;
    }
    proof {
        assert(x@ =~= y@);
        lemma_encode_utf8_injective(a@, b@);
    }
    true
}

/// Appends a character, by `std::string::String::push`.
#[verifier::external_body]
pub(crate) fn push_char(text: &mut String, c: char)
    ensures
        final(text)@ == old(text)@.push(c),
{
    text.push(c)
}

/// The characters of a text.
pub fn chars_of(text: &str) -> (chars: Vec<char>)
    ensures
        chars@ == text@,
{
    let mut chars: Vec<char> = Vec::new();
    for c in text_iter: text.chars()
        invariant
            text_iter.seq() == text@,
            chars@ == text@.take(text_iter.index()),
    {
        chars.push(c);
    }
    assert(text@.take(text@.len() as int) =~= text@);
    chars
}

/// The text made of some of the characters.
pub fn text_of(chars: &Vec<char>, from: usize, to: usize) -> (text: String)
    requires
        from <= to <= chars@.len(),
    ensures
        text@ == chars@.subrange(from as int, to as int),
{
    let mut text = String::new();
    let mut i: usize = from;
    while i < to
        invariant
            from <= i <= to <= chars@.len(),
            text@ == chars@.subrange(from as int, i as int),
        decreases to - i,
    {
        push_char(&mut text, chars[i]);
        i = i + 1;
        assert(chars@.subrange(from as int, i as int) =~= chars@.subrange(
            from as int,
            i - 1,
        ).push(chars@[i - 1]));
    }
    text
}

/// The quotient of `n` by `d`, rounded up.
pub open spec fn div_up(n: int, d: int) -> int {
    (n + d - 1) / d
}

/// The number of rows that a line takes when it is wrapped at `width`
/// columns: at least one, and one at no width at all.
pub open spec fn visual_rows(chars: int, width: int) -> int {
    if width == 0 || chars == 0 {
        1
    } else {
        div_up(chars, width)
    }
}

/// The rows that `chars` characters take at `width` columns.
fn rows_for(chars: usize, width: usize) -> (rows: usize)
    ensures
        rows == visual_rows(chars as int, width as int),
        rows >= 1,
{
    if width == 0 || chars == 0 {
        return 1;
    }
    let whole: usize = chars / width;
    let rest: usize = chars % width;
    proof {
        let n = chars as int;
        let d = width as int;
        assert(n == d * (n / d) + n % d) by (nonlinear_arith)
            requires
                d > 0,
        ;
        let q = n / d;
        let r = n % d;
        if r == 0 {
            assert((n + d - 1) / d == q) by (nonlinear_arith)
                requires
                    n == d * q + r,
                    r == 0,
                    d > 0,
            ;
            assert(q >= 1) by (nonlinear_arith)
                requires
                    n == d * q + r,
                    r == 0,
                    n > 0,
                    d > 0,
            ;
        } else {
            assert((n + d - 1) / d == q + 1) by (nonlinear_arith)
                requires
                    n == d * q + r,
                    0 < r < d,
                    d > 0,
            ;
            assert(q + 1 <= n) by (nonlinear_arith)
                requires
                    n == d * q + r,
                    0 < r,
                    q >= 0,
                    d > 0,
            ;
        }
    }
    if rest == 0 {
        whole
    } else {
        whole + 1
    }
}

/// Returns the number of visual rows a line occupies when wrapped at `width`
/// columns.
pub fn visual_rows_for(line: &str, width: u16) -> (rows: usize)
    ensures
        rows == visual_rows(line@.len() as int, width as int),
        rows >= 1,
{
    rows_for(line.unicode_len(), width as usize)
}

/// Chunk `i` of a text cut into chunks of `width` characters.
pub open spec fn chunk(text: Seq<char>, width: int, i: int) -> Seq<char> {
    let end = if (i + 1) * width < text.len() {
        (i + 1) * width
    } else {
        text.len() as int
    };
    text.subrange(i * width, end)
}

/// A text cut into chunks of `width` characters, the last of which may be
/// shorter.  The empty text, and any text at no width, is one chunk.
pub open spec fn chunks(text: Seq<char>, width: int) -> Seq<Seq<char>> {
    if width == 0 || text.len() == 0 {
        seq![text]
    } else {
        Seq::new(div_up(text.len() as int, width) as nat, |i: int| chunk(text, width, i))
    }
}

/// Splits `text` into successive slices of at most `width` characters,
/// breaking at the column boundary regardless of words, so that joining the
/// slices gives back the text.
pub fn column_chunks(text: &str, width: u16) -> (cut: Vec<&str>)
    ensures
        cut@.map_values(|c: &str| c@) == chunks(text@, width as int),
{
    cut_at(text, width as usize)
}

fn cut_at(text: &str, width: usize) -> (cut: Vec<&str>)
    ensures
        cut@.map_values(|c: &str| c@) == chunks(text@, width as int),
{
    if width == 0 || text.is_empty() {
        let mut cut: Vec<&str> = Vec::new();
        cut.push(text);
        assert(cut@.map_values(|c: &str| c@) =~= seq![text@]);
        return cut;
    }
    let len: usize = text.unicode_len();
    let count: usize = rows_for(len, width);
    let mut cut: Vec<&str> = Vec::new();
    let mut from: usize = 0;
    let mut i: usize = 0;
    while i < count
        invariant
            width > 0,
            len == text@.len(),
            len > 0,
            count == div_up(len as int, width as int),
            i <= count,
            cut@.len() == i,
            i < count ==> from == i * width,
            forall|k: int|
                0 <= k < i ==> (#[trigger] cut@[k])@ == chunk(text@, width as int, k),
        decreases count - i,
    {
        proof {
            lemma_chunk_bounds(len as int, width as int, i as int);
        }
        let to: usize = if len - from > width {
            from + width
        } else {
            len
        };
        proof {
            assert((i + 1) * width == i * width + width) by (nonlinear_arith);
        }
        cut.push(text.substring_char(from, to));
        from = to;
        i = i + 1;
    }
    assert(cut@.map_values(|c: &str| c@) =~= chunks(text@, width as int));
    cut
}

proof fn lemma_chunk_bounds(len: int, w: int, i: int)
    requires
        len > 0,
        w > 0,
        0 <= i < div_up(len, w),
    ensures
        0 <= i * w < len,
        i + 1 < div_up(len, w) ==> (i + 1) * w < len,
        i + 1 == div_up(len, w) ==> (i + 1) * w >= len,
{
    let q = div_up(len, w);
    let m = len + w - 1;
    assert(m == w * (m / w) + m % w && 0 <= m % w < w) by (nonlinear_arith)
        requires
            w > 0,
    ;
    let r = m % w;
    assert(w * q == q * w) by (nonlinear_arith);
    assert(i * w < len) by (nonlinear_arith)
        requires
            len + w - 1 == q * w + r,
            r >= 0,
            i + 1 <= q,
            w > 0,
    ;
    assert(0 <= i * w) by (nonlinear_arith)
        requires
            i >= 0,
            w > 0,
    ;
    if i + 1 < q {
        assert((i + 1) * w < len) by (nonlinear_arith)
            requires
                len + w - 1 == q * w + r,
                r >= 0,
                i + 2 <= q,
                w > 0,
        ;
    }
}

/// All texts of a list, one after the other.
pub open spec fn joined(parts: Seq<Seq<char>>) -> Seq<char>
    decreases parts.len(),
{
    if parts.len() == 0 {
        Seq::empty()
    } else {
        joined(parts.drop_last()) + parts.last()
    }
}

/// Cutting a text into columns loses nothing: the chunks joined are the
/// text, and no chunk is wider than the column.
pub proof fn law_column_chunks_rejoin(text: Seq<char>, width: int)
    requires
        width >= 0,
    ensures
        joined(chunks(text, width)) == text,
        width > 0 ==> forall|i: int|
            0 <= i < chunks(text, width).len() ==> (#[trigger] chunks(text, width)[i]).len()
                <= width,
{
    let cut = chunks(text, width);
    if width == 0 || text.len() == 0 {
        assert(cut.drop_last() =~= Seq::<Seq<char>>::empty());
        assert(joined(cut.drop_last()) =~= Seq::<char>::empty());
        assert(joined(cut) =~= text);
    } else {
        assert forall|i: int| 0 <= i < cut.len() implies (#[trigger] cut[i]).len() <= width by {
            lemma_chunk_bounds(text.len() as int, width, i);
            assert((i + 1) * width == i * width + width) by (nonlinear_arith);
        }
        lemma_chunks_joined(text, width, cut.len() as int);
        assert(cut.take(cut.len() as int) =~= cut);
        let n = text.len() as int;
        assert((n + width - 1) / width >= 1) by (nonlinear_arith)
            requires
                n >= 1,
                width > 0,
        ;
        let last = cut.len() - 1;
        lemma_chunk_bounds(text.len() as int, width, last);
        assert(text.subrange(0, text.len() as int) =~= text);
    }
}

proof fn lemma_chunks_joined(text: Seq<char>, width: int, n: int)
    requires
        width > 0,
        text.len() > 0,
        0 <= n <= chunks(text, width).len(),
    ensures
        joined(chunks(text, width).take(n)) == text.subrange(
            0,
            if n * width < text.len() {
                n * width
            } else {
                text.len() as int
            },
        ),
        n * width >= 0,
    decreases n,
{
    let cut = chunks(text, width);
    assert(n * width >= 0) by (nonlinear_arith)
        requires
            n >= 0,
            width > 0,
    ;
    if n == 0 {
        assert(0 * width == 0) by (nonlinear_arith);
        assert(joined(cut.take(0)) =~= text.subrange(0, 0));
    } else {
        lemma_chunks_joined(text, width, n - 1);
        lemma_chunk_bounds(text.len() as int, width, n - 1);
        assert(cut.take(n).drop_last() =~= cut.take(n - 1));
        assert(n * width == (n - 1) * width + width) by (nonlinear_arith);
        let end = if n * width < text.len() {
            n * width
        } else {
            text.len() as int
        };
        assert(text.subrange(0, (n - 1) * width) + chunk(text, width, n - 1) =~= text.subrange(
            0,
            end,
        ));
    }
}

/// Whether the character is white space in the sense of Unicode's
/// `White_Space` property.
pub open spec fn is_white_space(c: char) -> bool {
    ||| '\u{9}' <= c <= '\u{d}'
    ||| c == ' '
    ||| c == '\u{85}'
    ||| c == '\u{a0}'
    ||| c == '\u{1680}'
    ||| '\u{2000}' <= c <= '\u{200a}'
    ||| c == '\u{2028}'
    ||| c == '\u{2029}'
    ||| c == '\u{202f}'
    ||| c == '\u{205f}'
    ||| c == '\u{3000}'
}

/// Whether the character is white space in the sense of Unicode's
/// `White_Space` property.
pub fn white_space(c: char) -> (yes: bool)
    ensures
        yes == is_white_space(c),
{
    ('\u{9}' <= c && c <= '\u{d}') || c == ' ' || c == '\u{85}' || c == '\u{a0}' || c
        == '\u{1680}' || ('\u{2000}' <= c && c <= '\u{200a}') || c == '\u{2028}' || c == '\u{2029}' || c
        == '\u{202f}' || c == '\u{205f}' || c == '\u{3000}'
}

/// The words of a text read so far, and the word being read.
pub struct Words {
    pub done: Seq<Seq<char>>,
    pub open: Seq<char>,
}

/// Reads a text character by character: white space ends a word, anything
/// else continues it.
pub open spec fn read_words(text: Seq<char>) -> Words
    decreases text.len(),
{
    if text.len() == 0 {
        Words { done: Seq::empty(), open: Seq::empty() }
    } else {
        let before = read_words(text.drop_last());
        if !is_white_space(text.last()) {
            Words { done: before.done, open: before.open.push(text.last()) }
        } else if before.open.len() > 0 {
            Words { done: before.done.push(before.open), open: Seq::empty() }
        } else {
            before
        }
    }
}

/// The words of a text: its maximal runs of characters that are not white
/// space.
pub open spec fn words(text: Seq<char>) -> Seq<Seq<char>> {
    let read = read_words(text);
    if read.open.len() > 0 {
        read.done.push(read.open)
    } else {
        read.done
    }
}

/// The views of a list of texts.
pub open spec fn views(texts: Seq<String>) -> Seq<Seq<char>> {
    texts.map_values(|t: String| t@)
}

/// The words of a text.
pub fn words_of(text: &str) -> (found: Vec<String>)
    ensures
        views(found@) == words(text@),
{
    let chars = chars_of(text);
    let mut found: Vec<String> = Vec::new();
    let mut start: usize = 0;
    let mut i: usize = 0;
    assert(views(found@) =~= read_words(chars@.take(0)).done);
    assert(chars@.subrange(0, 0) =~= read_words(chars@.take(0)).open);
    while i < chars.len()
        invariant
            start <= i <= chars@.len(),
            views(found@) == read_words(chars@.take(i as int)).done,
            chars@.subrange(start as int, i as int) == read_words(chars@.take(i as int)).open,
        decreases chars@.len() - i,
    {
        let ghost before = found@;
        assert(chars@.take(i + 1).drop_last() =~= chars@.take(i as int));
        let c = chars[i];
        if white_space(c) {
            if start < i {
                found.push(text_of(&chars, start, i));
                assert(views(found@) =~= views(before).push(
                    chars@.subrange(start as int, i as int),
                ));
            }
            i = i + 1;
            start = i;
            assert(chars@.subrange(start as int, i as int) =~= Seq::<char>::empty());
        } else {
            i = i + 1;
            assert(chars@.subrange(start as int, i as int) =~= chars@.subrange(
                start as int,
                i - 1,
            ).push(c));
        }
    }
    assert(chars@.take(i as int) =~= text@);
    if start < i {
        let ghost before = found@;
        found.push(text_of(&chars, start, i));
        assert(views(found@) =~= views(before).push(chars@.subrange(start as int, i as int)));
    }
    found
}

/// The words with a single space between each two.
pub open spec fn spaced(parts: Seq<Seq<char>>) -> Seq<char>
    decreases parts.len(),
{
    if parts.len() == 0 {
        Seq::empty()
    } else if parts.len() == 1 {
        parts[0]
    } else {
        spaced(parts.drop_last()).push(' ') + parts.last()
    }
}

/// Collapses a text to one line: every run of white space becomes a single
/// space, and none is left at either end.
pub fn one_line(text: &str) -> (line: String)
    ensures
        line@ == spaced(words(text@)),
{
    let parts = words_of(text);
    let mut line = String::new();
    let mut i: usize = 0;
    let ghost all = words(text@);
    assert(all.take(0) =~= Seq::<Seq<char>>::empty());
    while i < parts.len()
        invariant
            i <= parts@.len(),
            views(parts@) == all,
            line@ == spaced(all.take(i as int)),
        decreases parts@.len() - i,
    {
        assert(all[i as int] == parts@[i as int]@);
        assert(all.take(i + 1).drop_last() =~= all.take(i as int));
        if i > 0 {
            push_char(&mut line, ' ');
        }
        line.append(parts[i].as_str());
        if i == 0 {
            assert(line@ =~= all.take(1)[0]);
        }
        i = i + 1;
    }
    assert(all.take(i as int) =~= all);
    line
}

/// Lines filled so far, and the line being filled.
pub struct Filling {
    pub lines: Seq<Seq<char>>,
    pub current: Seq<char>,
}

/// The lines so far, the one being filled among them unless it is empty.
pub open spec fn flushed(filling: Filling) -> Seq<Seq<char>> {
    if filling.current.len() > 0 {
        filling.lines.push(filling.current)
    } else {
        filling.lines
    }
}

/// Places a word: on the current line where it fits, on a fresh line where
/// it does not, and cut into columns on lines of its own where it is wider
/// than any line.
pub open spec fn placed(filling: Filling, word: Seq<char>, width: int) -> Filling {
    let space: int = if filling.current.len() > 0 {
        1
    } else {
        0
    };
    if word.len() > width {
        Filling {
            lines: flushed(filling) + chunks(word, width),
            current: Seq::empty(),
        }
    } else if filling.current.len() + space + word.len() > width {
        Filling { lines: filling.lines.push(filling.current), current: word }
    } else if filling.current.len() > 0 {
        Filling { lines: filling.lines, current: filling.current.push(' ') + word }
    } else {
        Filling { lines: filling.lines, current: word }
    }
}

/// Places words one after the other.
pub open spec fn filled(words: Seq<Seq<char>>, width: int) -> Filling
    decreases words.len(),
{
    if words.len() == 0 {
        Filling { lines: Seq::empty(), current: Seq::empty() }
    } else {
        placed(filled(words.drop_last(), width), words.last(), width)
    }
}

/// A text wrapped to `width` columns; at least one line, and a single empty
/// one at no width.
pub open spec fn wrapped(text: Seq<char>, width: int) -> Seq<Seq<char>> {
    let lines = flushed(filled(words(text), width));
    if width == 0 || lines.len() == 0 {
        seq![Seq::empty()]
    } else {
        lines
    }
}

fn push_chunks(lines: &mut Vec<String>, word: &str, width: usize)
    ensures
        views(final(lines)@) == views(old(lines)@) + chunks(word@, width as int),
{
    let cut = cut_at(word, width);
    let ghost all = chunks(word@, width as int);
    let ghost start = views(lines@);
    let mut i: usize = 0;
    assert(start + all.take(0) =~= start);
    while i < cut.len()
        invariant
            i <= cut@.len(),
            cut@.map_values(|c: &str| c@) == all,
            views(lines@) == start + all.take(i as int),
        decreases cut@.len() - i,
    {
        let ghost before = lines@;
        assert(all[i as int] == cut@[i as int]@);
        lines.push(cut[i].to_owned());
        i = i + 1;
        assert(views(lines@) =~= views(before).push(all[i - 1]));
        assert(start + all.take(i as int) =~= (start + all.take(i - 1)).push(all[i - 1]));
    }
    assert(all.take(i as int) =~= all);
}

/// Wraps `text` to fit `width` columns.
///
/// Breaks at white space where possible; a word wider than `width` is cut at
/// column boundaries.  The empty text, and any text at no width, gives one
/// empty line, so that callers always have a row to draw.
pub fn wrap_to_width(text: &str, width: usize) -> (lines: Vec<String>)
    ensures
        views(lines@) == wrapped(text@, width as int),
{
    if width == 0 || text.is_empty() {
        let mut lines: Vec<String> = Vec::new();
        lines.push(String::new());
        assert(views(lines@) =~= seq![Seq::<char>::empty()]);
        assert(words(text@).len() == 0 || width == 0);
        return lines;
    }
    let parts = words_of(text);
    let ghost all = words(text@);
    let mut lines: Vec<String> = Vec::new();
    let mut current = String::new();
    let mut current_chars: usize = 0;
    let mut i: usize = 0;
    assert(views(lines@) =~= filled(all.take(0), width as int).lines);
    while i < parts.len()
        invariant
            i <= parts@.len(),
            width > 0,
            views(parts@) == all,
            current_chars == current@.len(),
            current_chars <= width,
            views(lines@) == filled(all.take(i as int), width as int).lines,
            current@ == filled(all.take(i as int), width as int).current,
        decreases parts@.len() - i,
    {
        let word = parts[i].as_str();
        assert(all[i as int] == word@);
        assert(all.take(i + 1).drop_last() =~= all.take(i as int));
        let ghost before = filled(all.take(i as int), width as int);
        let ghost before_lines = lines@;
        i = i + 1;
        let word_chars: usize = word.unicode_len();
        if word_chars > width {
            if current_chars > 0 {
                lines.push(current);
                assert(views(lines@) =~= views(before_lines).push(before.current));
            }
            current = String::new();
            current_chars = 0;
            push_chunks(&mut lines, word, width);
        } else {
            let room: usize = width - current_chars;
            let space: usize = if current_chars > 0 {
                1
            } else {
                0
            };
            if room < space || room - space < word_chars {
                lines.push(current);
                assert(views(lines@) =~= views(before_lines).push(before.current));
                current = word.to_owned();
                current_chars = word_chars;
            } else {
                if current_chars > 0 {
                    push_char(&mut current, ' ');
                    current.append(word);
                    assert(current@ =~= before.current.push(' ') + word@);
                } else {
                    current = word.to_owned();
                }
                current_chars = current_chars + space + word_chars;
            }
        }
    }
    assert(all.take(i as int) =~= all);
    if current_chars > 0 {
        let ghost before_lines = lines@;
        lines.push(current);
        assert(views(lines@) =~= views(before_lines).push(current@));
    }
    if lines.len() == 0 {
        lines.push(String::new());
        assert(views(lines@) =~= seq![Seq::<char>::empty()]);
    }
    lines
}

/// The text without its white space.
pub open spec fn solid(text: Seq<char>) -> Seq<char>
    decreases text.len(),
{
    if text.len() == 0 {
        Seq::empty()
    } else if is_white_space(text.last()) {
        solid(text.drop_last())
    } else {
        solid(text.drop_last()).push(text.last())
    }
}

proof fn lemma_solid_concat(a: Seq<char>, b: Seq<char>)
    ensures
        solid(a + b) == solid(a) + solid(b),
    decreases b.len(),
{
    if b.len() == 0 {
        assert(a + b =~= a);
        assert(solid(a) + solid(b) =~= solid(a));
    } else {
        lemma_solid_concat(a, b.drop_last());
        assert((a + b).drop_last() =~= a + b.drop_last());
        if !is_white_space(b.last()) {
            assert(solid(a + b) =~= solid(a) + solid(b));
        }
    }
}

proof fn lemma_joined_concat(a: Seq<Seq<char>>, b: Seq<Seq<char>>)
    ensures
        joined(a + b) == joined(a) + joined(b),
    decreases b.len(),
{
    if b.len() == 0 {
        assert(a + b =~= a);
        assert(joined(a) + joined(b) =~= joined(a));
    } else {
        lemma_joined_concat(a, b.drop_last());
        assert((a + b).drop_last() =~= a + b.drop_last());
        assert(joined(a + b) =~= joined(a) + joined(b));
    }
}

proof fn lemma_joined_push(a: Seq<Seq<char>>, b: Seq<char>)
    ensures
        joined(a.push(b)) == joined(a) + b,
{
    assert(a.push(b).drop_last() =~= a);
}

proof fn lemma_read_words(text: Seq<char>)
    ensures
        joined(read_words(text).done) + read_words(text).open == solid(text),
        forall|i: int|
            0 <= i < read_words(text).done.len() ==> {
                &&& (#[trigger] read_words(text).done[i]).len() > 0
                &&& solid(read_words(text).done[i]) == read_words(text).done[i]
            },
        solid(read_words(text).open) == read_words(text).open,
    decreases text.len(),
{
    let read = read_words(text);
    if text.len() == 0 {
        assert(joined(read.done) + read.open =~= solid(text));
    } else {
        let before = read_words(text.drop_last());
        lemma_read_words(text.drop_last());
        if !is_white_space(text.last()) {
            assert(read.open.drop_last() =~= before.open);
            assert(joined(read.done) + read.open =~= (joined(before.done) + before.open).push(
                text.last(),
            ));
        } else if before.open.len() > 0 {
            lemma_joined_push(before.done, before.open);
            assert(joined(read.done) + read.open =~= joined(before.done) + before.open);
        }
    }
}

proof fn lemma_words(text: Seq<char>)
    ensures
        joined(words(text)) == solid(text),
        forall|i: int|
            0 <= i < words(text).len() ==> (#[trigger] words(text)[i]).len() > 0 && solid(
                words(text)[i],
            ) == words(text)[i],
{
    lemma_read_words(text);
    let read = read_words(text);
    if read.open.len() > 0 {
        lemma_joined_push(read.done, read.open);
    } else {
        assert(joined(read.done) + read.open =~= joined(read.done));
    }
}

proof fn lemma_filled_keeps(parts: Seq<Seq<char>>, width: int)
    requires
        0 < width,
        forall|i: int|
            0 <= i < parts.len() ==> (#[trigger] parts[i]).len() > 0 && solid(parts[i]) == parts[i],
    ensures
        solid(joined(filled(parts, width).lines) + filled(parts, width).current) == joined(parts),
        filled(parts, width).current.len() <= width,
        forall|i: int|
            0 <= i < filled(parts, width).lines.len() ==> (#[trigger] filled(
                parts,
                width,
            ).lines[i]).len() <= width,
    decreases parts.len(),
{
    if parts.len() == 0 {
        assert(joined(filled(parts, width).lines) + filled(parts, width).current =~= Seq::<
            char,
        >::empty());
    } else {
        let rest = parts.drop_last();
        let word = parts.last();
        assert(forall|i: int| 0 <= i < rest.len() ==> rest[i] == parts[i]);
        assert(parts[parts.len() - 1] == word);
        lemma_filled_keeps(rest, width);
        let before = filled(rest, width);
        let after = placed(before, word, width);
        let old_text = joined(before.lines) + before.current;
        let new_text = joined(after.lines) + after.current;
        assert(solid(word) == word) by {
            assert(parts[parts.len() - 1] == word);
        }
        if word.len() > width {
            law_column_chunks_rejoin(word, width);
            lemma_joined_concat(flushed(before), chunks(word, width));
            lemma_joined_push(before.lines, before.current);
            assert(joined(flushed(before)) =~= old_text);
            assert(new_text =~= old_text + word);
            lemma_solid_concat(old_text, word);
        } else if before.current.len() + (if before.current.len() > 0 {
            1int
        } else {
            0int
        }) + word.len() > width {
            lemma_joined_push(before.lines, before.current);
            assert(new_text =~= old_text + word);
            lemma_solid_concat(old_text, word);
        } else if before.current.len() > 0 {
            assert(new_text =~= (old_text + seq![' ']) + word);
            lemma_solid_concat(old_text + seq![' '], word);
            assert((old_text + seq![' ']).drop_last() =~= old_text);
            assert((old_text + seq![' ']).last() == ' ');
        } else {
            assert(new_text =~= old_text + word);
            lemma_solid_concat(old_text, word);
        }
    }
}

/// Wrapping drops no character but white space, gives at least one line, and
/// no line is wider than the column.
pub proof fn law_wrapping_keeps_the_text(text: Seq<char>, width: int)
    requires
        0 < width,
    ensures
        solid(joined(wrapped(text, width))) == solid(text),
        wrapped(text, width).len() > 0,
        forall|i: int|
            0 <= i < wrapped(text, width).len() ==> (#[trigger] wrapped(text, width)[i]).len()
                <= width,
{
    lemma_words(text);
    lemma_filled_keeps(words(text), width);
    let filling = filled(words(text), width);
    lemma_joined_push(filling.lines, filling.current);
    assert(joined(flushed(filling)) =~= joined(filling.lines) + filling.current);
    if flushed(filling).len() == 0 {
        let empty: Seq<Seq<char>> = seq![Seq::empty()];
        assert(empty.drop_last() =~= Seq::<Seq<char>>::empty());
        assert(joined(empty) =~= joined(flushed(filling)));
    }
    lemma_solid_idempotent(text);
}

proof fn lemma_solid_idempotent(text: Seq<char>)
    ensures
        solid(solid(text)) == solid(text),
    decreases text.len(),
{
    if text.len() > 0 {
        lemma_solid_idempotent(text.drop_last());
        if !is_white_space(text.last()) {
            assert(solid(text).drop_last() =~= solid(text.drop_last()));
        }
    }
}

/// The text with its front cut off to at most `max_len` characters, the cut
/// marked by three dots, or by as many as there is room for.
pub open spec fn head_truncated(text: Seq<char>, max_len: int) -> Seq<char> {
    if text.len() <= max_len {
        text
    } else if max_len < 3 {
        "..."@.take(max_len)
    } else {
        "..."@ + text.skip(text.len() - (max_len - 3))
    }
}

/// Truncates `s` to at most `max_len` characters by chopping the front and
/// prefixing `...`: the tail of a path is what tells rows apart.  Where not
/// even the dots fit, only as many of them are left.
pub fn truncate_path_head(s: &str, max_len: usize) -> (short: String)
    ensures
        short@ == head_truncated(s@, max_len as int),
{
    let count: usize = s.unicode_len();
    if count <= max_len {
        return s.to_owned();
    }
    if max_len < 3 {
        proof {
            reveal_strlit("...");
        }
        let dots = "...".substring_char(0, max_len);
        assert(dots@ =~= "..."@.take(max_len as int));
        return dots.to_owned();
    }
    let skip: usize = count - (max_len - 3);
    let mut short = "...".to_owned();
    short.append(s.substring_char(skip, count));
    assert(s@.subrange(skip as int, count as int) =~= s@.skip(skip as int));
    short
}

/// A truncated path is never longer than asked for, and keeps the end of the
/// path where there is room for more than the dots.
pub proof fn law_truncated_path_fits(text: Seq<char>, max_len: int)
    requires
        max_len >= 0,
    ensures
        head_truncated(text, max_len).len() <= max_len,
        text.len() > max_len >= 3 ==> head_truncated(text, max_len).skip(3) == text.skip(
            text.len() - (max_len - 3),
        ),
{
    reveal_strlit("...");
    if text.len() > max_len >= 3 {
        assert(head_truncated(text, max_len).skip(3) =~= text.skip(text.len() - (max_len - 3)));
    }
}

/// Whether the text `a` sorts in front of `b`: by the first character in
/// which they differ, a text that runs out first coming first.
pub open spec fn precedes(a: Seq<char>, b: Seq<char>) -> bool
    decreases a.len(),
{
    if b.len() == 0 {
        false
    } else if a.len() == 0 {
        true
    } else if a[0] == b[0] {
        precedes(a.skip(1), b.skip(1))
    } else {
        a[0] < b[0]
    }
}

/// Of two texts that differ, exactly one sorts in front of the other, and
/// none in front of itself.
pub proof fn law_texts_are_ordered(a: Seq<char>, b: Seq<char>)
    ensures
        precedes(a, b) || precedes(b, a) || a == b,
        !(precedes(a, b) && precedes(b, a)),
        !precedes(a, a),
    decreases a.len() + b.len(),
{
    if a.len() > 0 {
        law_texts_are_ordered(a.skip(1), Seq::empty());
    }
    if a.len() > 0 && b.len() > 0 && a[0] == b[0] {
        law_texts_are_ordered(a.skip(1), b.skip(1));
        if a.skip(1) == b.skip(1) {
            assert(a =~= seq![a[0]] + a.skip(1));
            assert(b =~= seq![b[0]] + b.skip(1));
        }
    }
    if a.len() == 0 && b.len() == 0 {
        assert(a =~= b);
    }
}

/// The order of texts carries over.
pub proof fn law_text_order_is_transitive(a: Seq<char>, b: Seq<char>, c: Seq<char>)
    requires
        precedes(a, b),
        precedes(b, c),
    ensures
        precedes(a, c),
    decreases a.len(),
{
    if a.len() > 0 && a[0] == b[0] && b[0] == c[0] {
        law_text_order_is_transitive(a.skip(1), b.skip(1), c.skip(1));
    }
}

/// Whether the text `a` sorts in front of `b`.
pub fn sorts_before(a: &str, b: &str) -> (yes: bool)
    ensures
        yes == precedes(a@, b@),
{
    let left = chars_of(a);
    let right = chars_of(b);
    let mut i: usize = 0;
    assert(left@.skip(0) =~= left@);
    assert(right@.skip(0) =~= right@);
    while i < left.len() && i < right.len() && left[i] == right[i]
        invariant
            left@ == a@,
            right@ == b@,
            i <= left@.len(),
            i <= right@.len(),
            precedes(a@, b@) == precedes(left@.skip(i as int), right@.skip(i as int)),
        decreases left@.len() - i,
    {
        assert(left@.skip(i as int).skip(1) =~= left@.skip(i + 1));
        assert(right@.skip(i as int).skip(1) =~= right@.skip(i + 1));
        i = i + 1;
    }
    if i == right.len() {
        false
    } else if i == left.len() {
        true
    } else {
        left[i] < right[i]
    }
}

/// One text precedes another exactly where it has the smaller character at the
/// first place at which they differ, or ends there.
pub proof fn law_texts_are_ordered_by_their_first_difference(
    a: Seq<char>,
    b: Seq<char>,
    k: int,
)
    requires
        0 <= k <= a.len(),
        k <= b.len(),
        forall|i: int| 0 <= i < k ==> #[trigger] a[i] == b[i],
        k == a.len() || k == b.len() || a[k] != b[k],
    ensures
        precedes(a, b) <==> k < b.len() && (k == a.len() || a[k] < b[k]),
    decreases k,
{
    if k > 0 {
        let (c, d) = (a.skip(1), b.skip(1));
        assert forall|i: int| 0 <= i < k - 1 implies #[trigger] c[i] == d[i] by {
            assert(a[i + 1] == b[i + 1]);
        }
        assert(a[0] == b[0]);
        law_texts_are_ordered_by_their_first_difference(c, d, k - 1);
    }
}

/// A line takes as many rows as it takes to hold its characters, and no more;
/// an empty one takes one.
pub proof fn law_rows_hold_the_line(chars: int, width: int)
    requires
        0 <= chars,
        0 < width,
    ensures
        visual_rows(chars, width) >= 1,
        visual_rows(chars, width) * width >= chars,
        chars > 0 ==> (visual_rows(chars, width) - 1) * width < chars,
        chars == 0 ==> visual_rows(chars, width) == 1,
{
    if chars > 0 {
        let n = chars + width - 1;
        let q = n / width;
        vstd::arithmetic::div_mod::lemma_fundamental_div_mod(n, width);
        vstd::arithmetic::div_mod::lemma_mod_bound(n, width);
        assert(n == width * q + n % width);
        assert(q * width >= chars && (q - 1) * width < chars && q >= 1) by (nonlinear_arith)
            requires
                n == chars + width - 1,
                n == width * q + n % width,
                0 <= n % width < width,
                chars > 0,
                width > 0,
        ;
    } else {
        assert(1 * width >= 0) by (nonlinear_arith)
            requires
                width > 0,
        ;
    }
}

/// A truncated path keeps its end, behind three dots.
pub proof fn law_truncated_path_keeps_its_end(text: Seq<char>, max_len: int)
    requires
        3 <= max_len < text.len(),
    ensures
        head_truncated(text, max_len) == "..."@ + text.skip(text.len() - max_len + 3),
        forall|i: int|
            3 <= i < max_len ==> #[trigger] head_truncated(text, max_len)[i] == text[text.len()
                - max_len + i],
{
    reveal_strlit("...");
}

proof fn lemma_all_on_one_line(parts: Seq<Seq<char>>, width: int)
    requires
        forall|i: int| 0 <= i < parts.len() ==> (#[trigger] parts[i]).len() > 0,
        spaced(parts).len() <= width,
    ensures
        filled(parts, width).lines.len() == 0,
        filled(parts, width).current == spaced(parts),
        parts.len() > 0 ==> spaced(parts).len() > 0,
    decreases parts.len(),
{
    if parts.len() > 0 {
        let shorter = parts.drop_last();
        let last = parts.last();
        assert(parts[parts.len() - 1] == last);
        assert forall|i: int| 0 <= i < shorter.len() implies (#[trigger] shorter[i]).len() > 0 by {
            assert(parts[i].len() > 0);
        }
        if parts.len() == 1 {
            assert(shorter.len() == 0);
            assert(spaced(shorter).len() == 0);
        }
        lemma_all_on_one_line(shorter, width);
    }
}

/// Text whose words fit on one line, with a space between any two, is wrapped
/// to that line.
pub proof fn law_text_that_fits_stays_on_one_line(text: Seq<char>, width: int)
    requires
        0 < width,
        words(text).len() > 0,
        spaced(words(text)).len() <= width,
    ensures
        wrapped(text, width) == seq![spaced(words(text))],
{
    lemma_words(text);
    lemma_all_on_one_line(words(text), width);
    assert(wrapped(text, width) =~= seq![spaced(words(text))]);
}

/// A word is a stretch without white space, ended by white space or the end;
/// what follows white space begins a new one.
pub proof fn law_words_end_at_white_space(text: Seq<char>, c: char)
    ensures
        words(Seq::empty()).len() == 0,
        is_white_space(c) ==> words(text.push(c)) == words(text),
        !is_white_space(c) && (text.len() == 0 || is_white_space(text.last())) ==> words(
            text.push(c),
        ) == words(text).push(seq![c]),
        !is_white_space(c) && text.len() > 0 && !is_white_space(text.last()) ==> {
            &&& words(text).len() > 0
            &&& words(text.push(c)) == words(text).drop_last().push(words(text).last().push(c))
        },
{
    assert(text.push(c).drop_last() =~= text);
    let read = read_words(text);
    if text.len() > 0 {
        let before = read_words(text.drop_last());
        assert(!is_white_space(text.last()) ==> read.open.len() > 0);
        assert(is_white_space(text.last()) ==> read.open.len() == 0);
    }
    if !is_white_space(c) {
        assert(Seq::<char>::empty().push(c) =~= seq![c]);
        if read.open.len() > 0 {
            assert(words(text).drop_last() =~= read.done);
        } else {
            assert(read.open =~= Seq::<char>::empty());
        }
    }
}

/// Cut to a width, every row but the last is full.
pub proof fn law_rows_but_the_last_are_full(text: Seq<char>, width: int, i: int)
    requires
        0 < width,
        0 < text.len(),
        0 <= i < chunks(text, width).len() - 1,
    ensures
        chunks(text, width)[i].len() == width,
{
    lemma_chunk_bounds(text.len() as int, width, i);
    assert((i + 1) * width == i * width + width) by (nonlinear_arith);
}

proof fn lemma_spaced_keeps(parts: Seq<Seq<char>>)
    requires
        forall|i: int| 0 <= i < parts.len() ==> solid(#[trigger] parts[i]) == parts[i],
    ensures
        solid(spaced(parts)) == joined(parts),
        forall|k: int|
            0 <= k < spaced(parts).len() && is_white_space(#[trigger] spaced(parts)[k])
                ==> spaced(parts)[k] == ' ',
    decreases parts.len(),
{
    if parts.len() > 0 {
        let shorter = parts.drop_last();
        let last = parts.last();
        assert(parts[parts.len() - 1] == last);
        assert forall|i: int| 0 <= i < shorter.len() implies solid(#[trigger] shorter[i])
            == shorter[i] by {
            assert(parts[i] == shorter[i]);
        }
        lemma_spaced_keeps(shorter);
        lemma_solid_has_no_blanks(last);
        if parts.len() == 1 {
            assert(shorter =~= Seq::<Seq<char>>::empty());
            assert(joined(parts) =~= last);
            assert(parts[0] == last);
        } else {
            let front = spaced(shorter).push(' ');
            assert(front.drop_last() =~= spaced(shorter));
            assert(solid(front) == solid(spaced(shorter)));
            lemma_solid_concat(front, last);
            assert forall|k: int|
                0 <= k < spaced(parts).len() && is_white_space(
                    #[trigger] spaced(parts)[k],
                ) implies spaced(parts)[k] == ' ' by {
                if k >= front.len() {
                    assert(spaced(parts)[k] == last[k - front.len()]);
                } else if k < spaced(shorter).len() {
                    assert(spaced(parts)[k] == spaced(shorter)[k]);
                }
            }
        }
    }
}

proof fn lemma_solid_has_no_blanks(text: Seq<char>)
    ensures
        forall|i: int| 0 <= i < solid(text).len() ==> !is_white_space(#[trigger] solid(text)[i]),
    decreases text.len(),
{
    if text.len() > 0 {
        let rest = solid(text.drop_last());
        lemma_solid_has_no_blanks(text.drop_last());
        assert forall|i: int| 0 <= i < solid(text).len() implies !is_white_space(
            #[trigger] solid(text)[i],
        ) by {
            if i < rest.len() {
                assert(solid(text)[i] == rest[i]);
            }
        }
    }
}

/// Put on one line, a text keeps all that is not white space, in order, and
/// has no white space but blanks.
pub proof fn law_one_line_keeps_the_words(text: Seq<char>)
    ensures
        solid(spaced(words(text))) == solid(text),
        forall|k: int|
            0 <= k < spaced(words(text)).len() && is_white_space(
                #[trigger] spaced(words(text))[k],
            ) ==> spaced(words(text))[k] == ' ',
{
    lemma_words(text);
    lemma_spaced_keeps(words(text));
}

/// Where there is room for less than three dots, a path that does not fit is
/// dots alone.
pub proof fn law_tiny_paths_are_dots(text: Seq<char>, max_len: int, i: int)
    requires
        0 <= i < max_len < 3,
        max_len < text.len(),
    ensures
        head_truncated(text, max_len).len() == max_len,
        head_truncated(text, max_len)[i] == '.',
{
    reveal_strlit("...");
}

/// White space is what Unicode counts as such, by code point.
pub proof fn law_white_space_is_that_of_unicode(c: char)
    ensures
        is_white_space(c) <==> {
            let n = c as int;
            9 <= n <= 13 || n == 32 || n == 133 || n == 160 || n == 5760 || 8192 <= n <= 8202 || n
                == 8232 || n == 8233 || n == 8239 || n == 8287 || n == 12288
        },
{
}

} // verus!
