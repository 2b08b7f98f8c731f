//! Searching the displayed lines.

use crate::editor::{byte_len, chars_after, chars_before, lemma_split, on_boundary, split_text};
use crate::pattern::{ranges_in_order, regex_find_all, regex_is_match, Pattern};
use crate::text::{joined, one_line, spaced, views, words};
use vstd::prelude::*;
use vstd::utf8::{
    decode_utf8, encode_utf8, encode_utf8_decode_utf8, encode_utf8_valid_utf8,
    is_char_boundary_start_end_of_seq,
};

verus! {

/// Direction of a `less`-style search.
#[derive(Debug, Clone, Copy, PartialEq, Eq, Structural)]
pub enum SearchDirection {
    Forward,
    Backward,
}

/// Whether a search may land on the line where it starts.
#[derive(Debug, Clone, Copy, PartialEq, Eq, Structural)]
pub enum SearchAnchor {
    Include,
    Skip,
}

impl SearchDirection {
    /// The other direction.
    pub open spec fn turned(self) -> SearchDirection {
        match self {
            SearchDirection::Forward => SearchDirection::Backward,
            SearchDirection::Backward => SearchDirection::Forward,
        }
    }

    /// The other direction.
    pub fn opposite(self) -> (other: Self)
        ensures
            other == self.turned(),
    {
        match self {
            SearchDirection::Forward => SearchDirection::Backward,
            SearchDirection::Backward => SearchDirection::Forward,
        }
    }

    /// The character that opens the prompt and heads it.
    pub open spec fn prompt_char(self) -> char {
        match self {
            SearchDirection::Forward => '/',
            SearchDirection::Backward => '?',
        }
    }

    /// The character drawn at the left of the search prompt.
    pub fn prompt(&self) -> (c: char)
        ensures
            c == self.prompt_char(),
    {
        match self {
            SearchDirection::Forward => '/',
            SearchDirection::Backward => '?',
        }
    }
}

/// The indices of the rows in which the pattern occurs, in ascending order.
pub open spec fn matching(rows: Seq<Seq<char>>, pattern: Seq<char>) -> Seq<usize>
    decreases rows.len(),
{
    if rows.len() == 0 {
        Seq::empty()
    } else {
        let before = matching(rows.drop_last(), pattern);
        if regex_is_match(pattern, rows.last()) {
            before.push((rows.len() - 1) as usize)
        } else {
            before
        }
    }
}

/// Indices of every row that contains at least one match for `pattern`.
pub fn compute_matches(rows: &Vec<String>, pattern: &Pattern) -> (matches: Vec<usize>)
    ensures
        matches@ == matching(views(rows@), pattern@),
{
    let mut matches: Vec<usize> = Vec::new();
    let ghost all = views(rows@);
    let mut i: usize = 0;
    assert(matches@ =~= matching(all.take(0), pattern@));
    while i < rows.len()
        invariant
            i <= rows@.len(),
            all == views(rows@),
            matches@ == matching(all.take(i as int), pattern@),
        decreases rows@.len() - i,
    {
        assert(all.take(i + 1).drop_last() =~= all.take(i as int));
        assert(all[i as int] == rows@[i as int]@);
        if pattern.is_match(rows[i].as_str()) {
            matches.push(i);
        }
        i = i + 1;
    }
    assert(all.take(i as int) =~= all);
    matches
}

/// The listed rows are those that match, and they ascend.
pub proof fn law_matches_ascend(rows: Seq<Seq<char>>, pattern: Seq<char>)
    requires
        rows.len() <= usize::MAX,
    ensures
        forall|i: int, j: int|
            0 <= i < j < matching(rows, pattern).len() ==> (#[trigger] matching(rows, pattern)[i])
                < (#[trigger] matching(rows, pattern)[j]),
        forall|i: int|
            0 <= i < matching(rows, pattern).len() ==> {
                let row = #[trigger] matching(rows, pattern)[i];
                row < rows.len() && regex_is_match(pattern, rows[row as int])
            },
        forall|row: int|
            0 <= row < rows.len() && regex_is_match(pattern, #[trigger] rows[row]) ==> matching(
                rows,
                pattern,
            ).contains(row as usize),
    decreases rows.len(),
{
    if rows.len() > 0 {
        let rest = rows.drop_last();
        law_matches_ascend(rest, pattern);
        let before = matching(rest, pattern);
        let all = matching(rows, pattern);
        assert forall|i: int| 0 <= i < all.len() implies ({
            let row = #[trigger] all[i];
            row < rows.len() && regex_is_match(pattern, rows[row as int])
        }) by {
            if i < before.len() {
                assert(all[i] == before[i]);
                assert(rest[before[i] as int] == rows[before[i] as int]);
            }
        }
        assert forall|row: int|
            0 <= row < rows.len() && regex_is_match(pattern, #[trigger] rows[row]) implies all.contains(
            row as usize,
        ) by {
            if row < rest.len() {
                assert(rest[row] == rows[row]);
                assert(before.contains(row as usize));
                let k = choose|k: int| 0 <= k < before.len() && before[k] == row as usize;
                assert(all[k] == row as usize);
            } else {
                assert(all[before.len() as int] == row as usize);
            }
        }
    }
}

/// Whether a search from line `from` may land on line `line`.
pub open spec fn qualifies(
    line: usize,
    from: usize,
    direction: SearchDirection,
    anchor: SearchAnchor,
) -> bool {
    match (direction, anchor) {
        (SearchDirection::Forward, SearchAnchor::Skip) => line > from,
        (SearchDirection::Forward, SearchAnchor::Include) => line >= from,
        (SearchDirection::Backward, SearchAnchor::Skip) => line < from,
        (SearchDirection::Backward, SearchAnchor::Include) => line <= from,
    }
}

/// The line that a search lands on: forward the first match that qualifies,
/// backward the last.
pub open spec fn target_line(
    matches: Seq<usize>,
    from: usize,
    direction: SearchDirection,
    anchor: SearchAnchor,
) -> Option<usize>
    decreases matches.len(),
{
    if matches.len() == 0 {
        None
    } else {
        let here = if qualifies(matches.last(), from, direction, anchor) {
            Some(matches.last())
        } else {
            None
        };
        let before = target_line(matches.drop_last(), from, direction, anchor);
        match direction {
            SearchDirection::Forward => if before is Some {
                before
            } else {
                here
            },
            SearchDirection::Backward => if here is Some {
                here
            } else {
                before
            },
        }
    }
}

/// The line among `matches` that a search from `from` lands on.
pub fn find_target(
    matches: &Vec<usize>,
    from: usize,
    direction: SearchDirection,
    anchor: SearchAnchor,
) -> (target: Option<usize>)
    ensures
        target == target_line(matches@, from, direction, anchor),
{
    let mut target: Option<usize> = None;
    let mut i: usize = 0;
    while i < matches.len()
        invariant
            i <= matches@.len(),
            target == target_line(matches@.take(i as int), from, direction, anchor),
        decreases matches@.len() - i,
    {
        assert(matches@.take(i + 1).drop_last() =~= matches@.take(i as int));
        let line: usize = matches[i];
        let lands = match (direction, anchor) {
            (SearchDirection::Forward, SearchAnchor::Skip) => line > from,
            (SearchDirection::Forward, SearchAnchor::Include) => line >= from,
            (SearchDirection::Backward, SearchAnchor::Skip) => line < from,
            (SearchDirection::Backward, SearchAnchor::Include) => line <= from,
        };
        if lands && (target.is_none() || direction == SearchDirection::Backward) {
            target = Some(line);
        }
        i = i + 1;
    }
    assert(matches@.take(i as int) =~= matches@);
    target
}

/// Repeating a search moves on strictly, and a fresh search may stay: the
/// line that a search lands on is a match on the asked side, and none lies
/// between it and where the search began.
pub proof fn law_search_lands_on_the_nearest_match(
    matches: Seq<usize>,
    from: usize,
    direction: SearchDirection,
    anchor: SearchAnchor,
)
    requires
        forall|i: int, j: int|
            0 <= i < j < matches.len() ==> (#[trigger] matches[i]) < (#[trigger] matches[j]),
    ensures
        match target_line(matches, from, direction, anchor) {
            Some(line) => {
                &&& matches.contains(line)
                &&& qualifies(line, from, direction, anchor)
                &&& forall|i: int|
                    0 <= i < matches.len() && qualifies(
                        #[trigger] matches[i],
                        from,
                        direction,
                        anchor,
                    ) ==> match direction {
                        SearchDirection::Forward => line <= matches[i],
                        SearchDirection::Backward => line >= matches[i],
                    }
            },
            None => forall|i: int|
                0 <= i < matches.len() ==> !qualifies(
                    #[trigger] matches[i],
                    from,
                    direction,
                    anchor,
                ),
        },
    decreases matches.len(),
{
    if matches.len() > 0 {
        let rest = matches.drop_last();
        let last = matches.len() - 1;
        assert(forall|i: int| 0 <= i < rest.len() ==> rest[i] == matches[i]);
        law_search_lands_on_the_nearest_match(rest, from, direction, anchor);
        match target_line(rest, from, direction, anchor) {
            Some(line) => {
                let k = choose|k: int| 0 <= k < rest.len() && rest[k] == line;
                assert(matches[k] == line);
                assert(matches[k] < matches[last]);
            },
            None => {},
        }
        assert(matches[last] == matches.last());
        assert forall|i: int| 0 <= i < last implies (#[trigger] matches[i]) == rest[i] by {}
    }
}

/// How a stretch of text is shown.
#[derive(Debug, Clone, Copy, PartialEq, Eq, Structural)]
pub enum Emphasis {
    Plain,
    Reversed,
    Bold,
    Error,
    /// on the bar that marks a selected row
    Selected,
}

/// A stretch of text in one style.
#[derive(Debug)]
pub struct Span {
    pub content: String,
    pub style: Emphasis,
}

/// What a [`Span`] shows.
#[verifier::ext_equal]
pub struct SpanView {
    pub content: Seq<char>,
    pub style: Emphasis,
}

impl View for Span {
    type V = SpanView;

    open spec fn view(&self) -> SpanView {
        SpanView { content: self.content@, style: self.style }
    }
}

/// The views of a list of spans.
pub open spec fn span_views(spans: Seq<Span>) -> Seq<SpanView> {
    spans.map_values(|s: Span| s@)
}

/// The characters between two byte offsets of a text.
pub open spec fn part(text: Seq<char>, from: int, to: int) -> Seq<char> {
    decode_utf8(encode_utf8(text).subrange(from, to))
}

/// Spans up to a byte offset.
pub struct Highlighting {
    pub spans: Seq<SpanView>,
    pub end: int,
}

/// Highlights the ranges of a text, one after the other: the text between
/// two ranges is plain, and an empty range shows nothing.
pub open spec fn highlighting(text: Seq<char>, ranges: Seq<(usize, usize)>) -> Highlighting
    decreases ranges.len(),
{
    if ranges.len() == 0 {
        Highlighting { spans: Seq::empty(), end: 0 }
    } else {
        let before = highlighting(text, ranges.drop_last());
        let (from, to) = ranges.last();
        if from == to {
            before
        } else {
            let gap = if from > before.end {
                before.spans.push(
                    SpanView {
                        content: part(text, before.end, from as int),
                        style: Emphasis::Plain,
                    },
                )
            } else {
                before.spans
            };
            Highlighting {
                spans: gap.push(
                    SpanView {
                        content: part(text, from as int, to as int),
                        style: Emphasis::Reversed,
                    },
                ),
                end: to as int,
            }
        }
    }
}

/// A text with the ranges highlighted.
pub open spec fn highlighted(text: Seq<char>, ranges: Seq<(usize, usize)>) -> Seq<SpanView> {
    let shown = highlighting(text, ranges);
    if shown.end < encode_utf8(text).len() {
        shown.spans.push(
            SpanView {
                content: part(text, shown.end, encode_utf8(text).len() as int),
                style: Emphasis::Plain,
            },
        )
    } else {
        shown.spans
    }
}

/// Splitting off a front keeps the boundaries in front of it.
proof fn lemma_boundary_in_front(text: Seq<char>, from: int, to: int)
    requires
        on_boundary(text, from),
        on_boundary(text, to),
        from <= to,
    ensures
        on_boundary(chars_before(text, to), from),
        part(text, from, to) == chars_after(chars_before(text, to), from),
{
    lemma_split(text, from);
    lemma_split(text, to);
    let bytes = encode_utf8(text);
    let front = chars_before(text, to);
    let first = chars_before(text, from);
    encode_utf8_valid_utf8(text);
    encode_utf8_valid_utf8(front);
    assert(encode_utf8(front) == bytes.subrange(0, to));
    if from == to {
        is_char_boundary_start_end_of_seq(encode_utf8(front));
    } else {
        vstd::utf8::is_char_boundary_iff_not_is_continuation_byte(bytes, from);
        vstd::utf8::is_char_boundary_iff_not_is_continuation_byte(encode_utf8(front), from);
        assert(encode_utf8(front)[from] == bytes[from]);
    }
    assert(bytes.subrange(0, to).subrange(from, to) =~= bytes.subrange(from, to));
}

/// The characters between two byte offsets of a text.
pub(crate) fn slice(text: &str, from: usize, to: usize) -> (content: String)
    requires
        on_boundary(text@, from as int),
        on_boundary(text@, to as int),
        from <= to,
    ensures
        content@ == part(text@, from as int, to as int),
{
    proof {
        lemma_boundary_in_front(text@, from as int, to as int);
    }
    let (front, _) = split_text(text, to);
    let (_, content) = split_text(front, from);
    content.to_owned()
}

/// Splits `text` into spans with the given ranges highlighted.
pub fn highlight_ranges(text: &str, ranges: &Vec<(usize, usize)>) -> (spans: Vec<Span>)
    requires
        ranges_in_order(ranges@, text@),
    ensures
        span_views(spans@) == highlighted(text@, ranges@),
{
    let mut spans: Vec<Span> = Vec::new();
    let mut last_end: usize = 0;
    let mut i: usize = 0;
    let end: usize = byte_len(text);
    proof {
        encode_utf8_valid_utf8(text@);
        is_char_boundary_start_end_of_seq(encode_utf8(text@));
        assert(span_views(spans@) =~= highlighting(text@, ranges@.take(0)).spans);
    }
    while i < ranges.len()
        invariant
            i <= ranges@.len(),
            ranges_in_order(ranges@, text@),
            end == encode_utf8(text@).len(),
            span_views(spans@) == highlighting(text@, ranges@.take(i as int)).spans,
            last_end == highlighting(text@, ranges@.take(i as int)).end,
            on_boundary(text@, last_end as int),
            forall|k: int| i <= k < ranges@.len() ==> last_end <= (#[trigger] ranges@[k]).0,
        decreases ranges@.len() - i,
    {
        let from: usize = ranges[i].0;
        let to: usize = ranges[i].1;
        assert(ranges@[i as int] == (from, to));
        assert(ranges@.take(i + 1).drop_last() =~= ranges@.take(i as int));
        if from != to {
            if from > last_end {
                let ghost before = spans@;
                let span = Span { content: slice(text, last_end, from), style: Emphasis::Plain };
                spans.push(span);
                assert(span_views(spans@) =~= span_views(before).push(span@));
            }
            let ghost before = spans@;
            let span = Span { content: slice(text, from, to), style: Emphasis::Reversed };
            spans.push(span);
            assert(span_views(spans@) =~= span_views(before).push(span@));
            last_end = to;
        }
        i = i + 1;
    }
    assert(ranges@.take(i as int) =~= ranges@);
    if last_end < end {
        let ghost before = spans@;
        let span = Span { content: slice(text, last_end, end), style: Emphasis::Plain };
        spans.push(span);
        assert(span_views(spans@) =~= span_views(before).push(span@));
    }
    spans
}

/// Splits `text` into spans, highlighting every non-empty match of
/// `pattern`.
pub fn highlight_line(text: &str, pattern: &Pattern) -> (spans: Vec<Span>)
    ensures
        span_views(spans@) == highlighted(text@, regex_find_all(pattern@, text@)),
{
    let ranges = pattern.find_all(text);
    highlight_ranges(text, &ranges)
}

/// The texts of spans.
pub open spec fn span_texts(spans: Seq<SpanView>) -> Seq<Seq<char>> {
    spans.map_values(|s: SpanView| s.content)
}

proof fn lemma_joined_snoc(parts: Seq<Seq<char>>, last: Seq<char>)
    ensures
        joined(parts.push(last)) == joined(parts) + last,
{
    assert(parts.push(last).drop_last() =~= parts);
}

pub(crate) proof fn lemma_part_concat(text: Seq<char>, from: int, to: int)
    requires
        on_boundary(text, from),
        on_boundary(text, to),
        from <= to,
    ensures
        chars_before(text, from) + part(text, from, to) == chars_before(text, to),
{
    lemma_boundary_in_front(text, from, to);
    let front = chars_before(text, to);
    lemma_split(front, from);
    lemma_split(text, to);
    lemma_split(text, from);
    let bytes = encode_utf8(text);
    assert(bytes.subrange(0, to).subrange(0, from) =~= bytes.subrange(0, from));
}

proof fn lemma_highlighting_keeps(text: Seq<char>, ranges: Seq<(usize, usize)>)
    requires
        ranges_in_order(ranges, text),
    ensures
        on_boundary(text, highlighting(text, ranges).end),
        joined(span_texts(highlighting(text, ranges).spans)) == chars_before(
            text,
            highlighting(text, ranges).end,
        ),
        ranges.len() > 0 ==> highlighting(text, ranges).end <= ranges.last().1,
    decreases ranges.len(),
{
    encode_utf8_valid_utf8(text);
    is_char_boundary_start_end_of_seq(encode_utf8(text));
    if ranges.len() == 0 {
        assert(encode_utf8(text).subrange(0, 0) =~= Seq::<u8>::empty());
        assert(decode_utf8(Seq::<u8>::empty()) =~= Seq::<char>::empty());
        assert(span_texts(highlighting(text, ranges).spans) =~= Seq::<Seq<char>>::empty());
    } else {
        let rest = ranges.drop_last();
        let last = ranges.len() - 1;
        assert forall|i: int| 0 <= i < rest.len() implies (#[trigger] rest[i]) == ranges[i] by {}
        lemma_highlighting_keeps(text, rest);
        let before = highlighting(text, rest);
        let after = highlighting(text, ranges);
        let (from, to) = ranges.last();
        assert(ranges[last] == (from, to));
        if rest.len() > 0 {
            assert(ranges[last - 1].1 <= ranges[last].0);
            assert(rest.last() == ranges[last - 1]);
        }
        if from != to {
            let gap = SpanView {
                content: part(text, before.end, from as int),
                style: Emphasis::Plain,
            };
            let hit = SpanView {
                content: part(text, from as int, to as int),
                style: Emphasis::Reversed,
            };
            lemma_part_concat(text, before.end, from as int);
            lemma_part_concat(text, from as int, to as int);
            if from > before.end {
                assert(span_texts(before.spans.push(gap)) =~= span_texts(before.spans).push(
                    gap.content,
                ));
                lemma_joined_snoc(span_texts(before.spans), gap.content);
                assert(span_texts(after.spans) =~= span_texts(before.spans.push(gap)).push(
                    hit.content,
                ));
                lemma_joined_snoc(span_texts(before.spans.push(gap)), hit.content);
            } else {
                assert(span_texts(after.spans) =~= span_texts(before.spans).push(hit.content));
                lemma_joined_snoc(span_texts(before.spans), hit.content);
            }
        }
    }
}

/// Highlighting changes how a line looks, not what it says: the spans joined
/// are the line.
pub proof fn law_highlighting_keeps_the_line(text: Seq<char>, ranges: Seq<(usize, usize)>)
    requires
        ranges_in_order(ranges, text),
    ensures
        joined(span_texts(highlighted(text, ranges))) == text,
{
    lemma_highlighting_keeps(text, ranges);
    let shown = highlighting(text, ranges);
    let end = encode_utf8(text).len() as int;
    encode_utf8_valid_utf8(text);
    is_char_boundary_start_end_of_seq(encode_utf8(text));
    encode_utf8_decode_utf8(text);
    assert(encode_utf8(text).subrange(0, end) =~= encode_utf8(text));
    assert(chars_before(text, end) == text);
    if shown.end < end {
        let tail = SpanView { content: part(text, shown.end, end), style: Emphasis::Plain };
        lemma_part_concat(text, shown.end, end);
        assert(span_texts(highlighted(text, ranges)) =~= span_texts(shown.spans).push(
            tail.content,
        ));
        lemma_joined_snoc(span_texts(shown.spans), tail.content);
    }
}

/// A pattern's compile error on one line: all runs of white space, line
/// breaks among them, become single spaces.
pub fn regex_error_summary(error: &str) -> (summary: String)
    ensures
        summary@ == spaced(words(error@)),
{
    one_line(error)
}

/// A search forward lands on the first matching line from where it starts on,
/// one backward on the last up to there; the line where it starts counts only
/// where it may.
pub proof fn law_search_goes_its_way(matches: Seq<usize>, from: usize)
    requires
        forall|i: int, j: int|
            0 <= i < j < matches.len() ==> (#[trigger] matches[i]) < (#[trigger] matches[j]),
    ensures
        match target_line(matches, from, SearchDirection::Forward, SearchAnchor::Skip) {
            Some(line) => matches.contains(line) && line > from && forall|i: int|
                0 <= i < matches.len() ==> !(from < #[trigger] matches[i] < line),
            None => forall|i: int| 0 <= i < matches.len() ==> #[trigger] matches[i] <= from,
        },
        match target_line(matches, from, SearchDirection::Forward, SearchAnchor::Include) {
            Some(line) => matches.contains(line) && line >= from && forall|i: int|
                0 <= i < matches.len() ==> !(from <= #[trigger] matches[i] < line),
            None => forall|i: int| 0 <= i < matches.len() ==> #[trigger] matches[i] < from,
        },
        match target_line(matches, from, SearchDirection::Backward, SearchAnchor::Skip) {
            Some(line) => matches.contains(line) && line < from && forall|i: int|
                0 <= i < matches.len() ==> !(line < #[trigger] matches[i] < from),
            None => forall|i: int| 0 <= i < matches.len() ==> #[trigger] matches[i] >= from,
        },
        match target_line(matches, from, SearchDirection::Backward, SearchAnchor::Include) {
            Some(line) => matches.contains(line) && line <= from && forall|i: int|
                0 <= i < matches.len() ==> !(line < #[trigger] matches[i] <= from),
            None => forall|i: int| 0 <= i < matches.len() ==> #[trigger] matches[i] > from,
        },
{
    law_search_lands_on_the_nearest_match(
        matches,
        from,
        SearchDirection::Forward,
        SearchAnchor::Skip,
    );
    law_search_lands_on_the_nearest_match(
        matches,
        from,
        SearchDirection::Forward,
        SearchAnchor::Include,
    );
    law_search_lands_on_the_nearest_match(
        matches,
        from,
        SearchDirection::Backward,
        SearchAnchor::Skip,
    );
    law_search_lands_on_the_nearest_match(
        matches,
        from,
        SearchDirection::Backward,
        SearchAnchor::Include,
    );
}

/// Turning a direction gives the other one, and turning it again gives it
/// back; a slash prompts for a search forward, a question mark for one back.
pub proof fn law_directions_are_opposite(direction: SearchDirection)
    ensures
        direction.turned() != direction,
        direction.turned().turned() == direction,
        direction.prompt_char() == '/' <==> direction == SearchDirection::Forward,
        direction.prompt_char() == '?' <==> direction == SearchDirection::Backward,
{
}

proof fn lemma_highlighting_marks(text: Seq<char>, ranges: Seq<(usize, usize)>)
    ensures
        ({
            let spans = highlighting(text, ranges).spans;
            &&& forall|k: int|
                0 <= k < spans.len() && (#[trigger] spans[k]).style == Emphasis::Reversed
                    ==> exists|i: int|
                    0 <= i < ranges.len() && (#[trigger] ranges[i]).0 != ranges[i].1
                        && spans[k].content == decode_utf8(
                        encode_utf8(text).subrange(ranges[i].0 as int, ranges[i].1 as int),
                    )
            &&& forall|i: int|
                0 <= i < ranges.len() && (#[trigger] ranges[i]).0 != ranges[i].1
                    ==> spans.contains(
                    SpanView {
                        content: decode_utf8(
                            encode_utf8(text).subrange(ranges[i].0 as int, ranges[i].1 as int),
                        ),
                        style: Emphasis::Reversed,
                    },
                )
        }),
    decreases ranges.len(),
{
    if ranges.len() > 0 {
        let shorter = ranges.drop_last();
        let n = shorter.len() as int;
        lemma_highlighting_marks(text, shorter);
        let before = highlighting(text, shorter).spans;
        let spans = highlighting(text, ranges).spans;
        assert forall|k: int| 0 <= k < before.len() implies #[trigger] spans[k] == before[k] by {}
        assert forall|s: SpanView| before.contains(s) implies spans.contains(s) by {
            let k = choose|k: int| 0 <= k < before.len() && before[k] == s;
            assert(spans[k] == s);
        }
        if ranges[n].0 != ranges[n].1 {
            assert(spans[spans.len() - 1] == spans.last());
            assert(spans.contains(spans.last()));
        }
        assert forall|k: int|
            0 <= k < spans.len() && (#[trigger] spans[k]).style
                == Emphasis::Reversed implies exists|i: int|
            0 <= i < ranges.len() && (#[trigger] ranges[i]).0 != ranges[i].1 && spans[k].content
                == decode_utf8(
                encode_utf8(text).subrange(ranges[i].0 as int, ranges[i].1 as int),
            ) by {
            if k < before.len() {
                let i = choose|i: int|
                    0 <= i < shorter.len() && (#[trigger] shorter[i]).0 != shorter[i].1
                        && before[k].content == decode_utf8(
                        encode_utf8(text).subrange(shorter[i].0 as int, shorter[i].1 as int),
                    );
                assert(ranges[i] == shorter[i]);
            } else {
                assert(ranges[n].0 != ranges[n].1);
            }
        }
        assert forall|i: int|
            0 <= i < ranges.len() && (#[trigger] ranges[i]).0
                != ranges[i].1 implies spans.contains(
            SpanView {
                content: decode_utf8(
                    encode_utf8(text).subrange(ranges[i].0 as int, ranges[i].1 as int),
                ),
                style: Emphasis::Reversed,
            },
        ) by {
            if i < n {
                assert(shorter[i] == ranges[i]);
            }
        }
    }
}

/// What a highlighted line shows reversed is what matched, every match that
/// is not empty and nothing else.
pub proof fn law_highlighting_marks_the_matches(text: Seq<char>, ranges: Seq<(usize, usize)>)
    ensures
        ({
            let spans = highlighted(text, ranges);
            &&& forall|k: int|
                0 <= k < spans.len() && (#[trigger] spans[k]).style == Emphasis::Reversed
                    ==> exists|i: int|
                    0 <= i < ranges.len() && (#[trigger] ranges[i]).0 != ranges[i].1
                        && spans[k].content == decode_utf8(
                        encode_utf8(text).subrange(ranges[i].0 as int, ranges[i].1 as int),
                    )
            &&& forall|i: int|
                0 <= i < ranges.len() && (#[trigger] ranges[i]).0 != ranges[i].1
                    ==> spans.contains(
                    SpanView {
                        content: decode_utf8(
                            encode_utf8(text).subrange(ranges[i].0 as int, ranges[i].1 as int),
                        ),
                        style: Emphasis::Reversed,
                    },
                )
        }),
{
    lemma_highlighting_marks(text, ranges);
    let before = highlighting(text, ranges).spans;
    let spans = highlighted(text, ranges);
    assert forall|k: int| 0 <= k < before.len() implies #[trigger] spans[k] == before[k] by {}
    assert forall|s: SpanView| before.contains(s) implies spans.contains(s) by {
        let k = choose|k: int| 0 <= k < before.len() && before[k] == s;
        assert(spans[k] == s);
    }
}

} // verus!
