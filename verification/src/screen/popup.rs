//! Popups over the screen.

use super::{line_views, plain_line, push_line, Line, LineView};
use crate::area::{
    at_most_of, divides, fixed_heights, grows_alone, percent_of, percent_width, popup_area,
    popup_area_with_width, row_top, rows_of, stacked, Area, RowSize,
};
use crate::dialog::{Dialog, DialogView};
use crate::display::{display_field_item, item_at, DISPLAY_FIELD_COUNT};
use crate::editor::{
    byte_len, chars_after, chars_before, lemma_encode_concat, lemma_join, lemma_split, on_boundary,
    LineEditor,
};
use crate::help::{build_help_lines, help, help_lines, keys_width};
use crate::search::{
    lemma_part_concat, part, slice, span_views, Emphasis, SearchDirection, Span, SpanView,
};
use crate::session::RenderOpts;
use crate::text::{joined, push_char, views};
use vstd::prelude::*;
use vstd::utf8::{
    encode_utf8, encode_utf8_decode_utf8, encode_utf8_valid_utf8, is_char_boundary,
    is_char_boundary_start_end_of_seq,
};

verus! {

/// The offset at or before `limit` that falls between two characters.
pub open spec fn boundary_at_or_before(text: Seq<char>, limit: int) -> int
    decreases limit,
{
    if limit <= 0 || on_boundary(text, limit) {
        limit
    } else {
        boundary_at_or_before(text, limit - 1)
    }
}

/// The first offset from `from` on that falls between two characters.
pub open spec fn boundary_from(text: Seq<char>, from: int) -> int
    decreases encode_utf8(text).len() - from,
{
    if from >= encode_utf8(text).len() || on_boundary(text, from) {
        from
    } else {
        boundary_from(text, from + 1)
    }
}

/// Where the row that begins at byte `start` ends: after as many characters
/// as fit in `width` bytes, and one at least.
pub open spec fn row_end(text: Seq<char>, start: int, width: int) -> int {
    let len = encode_utf8(text).len() as int;
    let limit = if start + width < len {
        start + width
    } else {
        len
    };
    let end = boundary_at_or_before(text, limit);
    if end > start {
        end
    } else {
        boundary_from(text, start + 1)
    }
}

/// The rows of a text from byte `start` on.
pub open spec fn rows_on(text: Seq<char>, start: int, width: int) -> Seq<Seq<char>>
    decreases encode_utf8(text).len() - start,
    via rows_on_decreases
{
    if start < 0 || start >= encode_utf8(text).len() {
        Seq::empty()
    } else {
        let end = row_end(text, start, width);
        seq![part(text, start, end)] + rows_on(text, end, width)
    }
}

#[via_fn]
proof fn rows_on_decreases(text: Seq<char>, start: int, width: int) {
    if 0 <= start < encode_utf8(text).len() {
        lemma_boundary_from(text, start + 1);
        let len = encode_utf8(text).len() as int;
        let limit = if start + width < len {
            start + width
        } else {
            len
        };
        if limit >= 0 {
            lemma_boundary_before(text, limit);
        }
    }
}

proof fn lemma_boundary_from(text: Seq<char>, from: int)
    requires
        from <= encode_utf8(text).len(),
    ensures
        from <= boundary_from(text, from) <= encode_utf8(text).len(),
        0 <= from ==> on_boundary(text, boundary_from(text, from)),
    decreases encode_utf8(text).len() - from,
{
    encode_utf8_valid_utf8(text);
    is_char_boundary_start_end_of_seq(encode_utf8(text));
    if !(from >= encode_utf8(text).len() || on_boundary(text, from)) {
        lemma_boundary_from(text, from + 1);
    }
}

proof fn lemma_boundary_before(text: Seq<char>, limit: int)
    requires
        0 <= limit <= encode_utf8(text).len(),
    ensures
        0 <= boundary_at_or_before(text, limit) <= limit,
        on_boundary(text, boundary_at_or_before(text, limit)),
    decreases limit,
{
    encode_utf8_valid_utf8(text);
    is_char_boundary_start_end_of_seq(encode_utf8(text));
    if !(limit <= 0 || on_boundary(text, limit)) {
        lemma_boundary_before(text, limit - 1);
    }
}

proof fn lemma_row_end(text: Seq<char>, start: int, width: int)
    requires
        0 <= start < encode_utf8(text).len(),
        width >= 0,
    ensures
        start < row_end(text, start, width) <= encode_utf8(text).len(),
        on_boundary(text, row_end(text, start, width)),
{
    let len = encode_utf8(text).len() as int;
    lemma_boundary_before(
        text,
        if start + width < len {
            start + width
        } else {
            len
        },
    );
    lemma_boundary_from(text, start + 1);
}

/// A text cut into rows of `width` bytes, never within a character; the
/// empty text is one row.
pub open spec fn dialog_rows(text: Seq<char>, width: int) -> Seq<Seq<char>> {
    if text.len() == 0 {
        seq![Seq::empty()]
    } else {
        rows_on(text, 0, width)
    }
}

/// Cuts a text into rows of `width` bytes, never within a character.
pub fn wrap_dialog_text(text: &str, width: usize) -> (rows: Vec<String>)
    ensures
        views(rows@) == dialog_rows(text@, width as int),
{
    let mut rows: Vec<String> = Vec::new();
    if text.is_empty() {
        rows.push(String::new());
        assert(views(rows@) =~= dialog_rows(text@, width as int));
        return rows;
    }
    let len: usize = byte_len(text);
    let mut start: usize = 0;
    proof {
        encode_utf8_valid_utf8(text@);
        is_char_boundary_start_end_of_seq(encode_utf8(text@));
        assert(views(rows@) + rows_on(text@, 0, width as int) =~= rows_on(
            text@,
            0,
            width as int,
        ));
    }
    while start < len
        invariant
            start <= len,
            len == encode_utf8(text@).len(),
            on_boundary(text@, start as int),
            views(rows@) + rows_on(text@, start as int, width as int) == rows_on(
                text@,
                0,
                width as int,
            ),
        decreases len - start,
    {
        let limit: usize = if width < len - start {
            start + width
        } else {
            len
        };
        let mut end: usize = limit;
        proof {
            lemma_row_end(text@, start as int, width as int);
        }
        while end > start && !text.is_char_boundary(end)
            invariant
                start <= end <= len,
                len == encode_utf8(text@).len(),
                on_boundary(text@, start as int),
                boundary_at_or_before(text@, end as int) == boundary_at_or_before(
                    text@,
                    limit as int,
                ),
            decreases end,
        {
            end = end - 1;
        }
        if end == start {
            end = start + 1;
            while end < len && !text.is_char_boundary(end)
                invariant
                    start < end <= len,
                    len == encode_utf8(text@).len(),
                    boundary_from(text@, end as int) == boundary_from(text@, start + 1),
                decreases len - end,
            {
                end = end + 1;
            }
        }
        assert(end == row_end(text@, start as int, width as int));
        let row = slice(text, start, end);
        let ghost before = rows@;
        rows.push(row);
        proof {
            assert(views(rows@) =~= views(before).push(row@));
            assert(views(rows@) + rows_on(text@, end as int, width as int) =~= views(before)
                + rows_on(text@, start as int, width as int));
        }
        start = end;
    }
    proof {
        assert(rows_on(text@, start as int, width as int) =~= Seq::empty());
        assert(views(rows@) =~= rows_on(text@, 0, width as int));
    }
    rows
}

proof fn lemma_joined_cons(first: Seq<char>, rest: Seq<Seq<char>>)
    ensures
        joined(seq![first] + rest) == first + joined(rest),
    decreases rest.len(),
{
    let all = seq![first] + rest;
    if rest.len() == 0 {
        assert(all.drop_last() =~= Seq::<Seq<char>>::empty());
        assert(all.last() == first);
        assert(joined(all.drop_last()) =~= Seq::<char>::empty());
        assert(joined(all) =~= first + joined(rest));
    } else {
        assert(all.drop_last() =~= seq![first] + rest.drop_last());
        lemma_joined_cons(first, rest.drop_last());
        assert(all.last() == rest.last());
        assert(joined(all) =~= first + joined(rest));
    }
}

proof fn lemma_rows_on_joined(text: Seq<char>, start: int, width: int)
    requires
        on_boundary(text, start),
        0 <= start <= encode_utf8(text).len(),
        width >= 0,
    ensures
        chars_before(text, start) + joined(rows_on(text, start, width)) == text,
    decreases encode_utf8(text).len() - start,
{
    let len = encode_utf8(text).len() as int;
    if start >= len {
        encode_utf8_decode_utf8(text);
        assert(encode_utf8(text).subrange(0, len) =~= encode_utf8(text));
        assert(rows_on(text, start, width) =~= Seq::empty());
        assert(chars_before(text, start) + joined(Seq::empty()) =~= text);
    } else {
        let end = row_end(text, start, width);
        lemma_row_end(text, start, width);
        lemma_rows_on_joined(text, end, width);
        lemma_part_concat(text, start, end);
        let row = part(text, start, end);
        let rest = rows_on(text, end, width);
        lemma_joined_cons(row, rest);
        assert(chars_before(text, start) + (row + joined(rest)) =~= (chars_before(text, start)
            + row) + joined(rest));
    }
}

/// Cutting a dialog's text into rows loses nothing: the rows joined are the
/// text.
pub proof fn law_dialog_rows_rejoin(text: Seq<char>, width: int)
    requires
        width >= 0,
    ensures
        joined(dialog_rows(text, width)) == text,
{
    encode_utf8_valid_utf8(text);
    is_char_boundary_start_end_of_seq(encode_utf8(text));
    if text.len() == 0 {
        let none = Seq::<Seq<char>>::empty();
        lemma_joined_cons(Seq::empty(), none);
        assert(seq![Seq::<char>::empty()] + none =~= dialog_rows(text, width));
        assert(joined(dialog_rows(text, width)) =~= text);
    } else {
        lemma_rows_on_joined(text, 0, width);
        assert(encode_utf8(text).subrange(0, 0) =~= Seq::<u8>::empty());
        assert(chars_before(text, 0) =~= Seq::empty()) by {
            lemma_split(text, 0);
        }
        assert(Seq::<char>::empty() + joined(rows_on(text, 0, width)) =~= joined(
            rows_on(text, 0, width),
        ));
    }
}

proof fn lemma_no_longer_than_bytes(text: Seq<char>)
    ensures
        text.len() <= encode_utf8(text).len(),
    decreases text.len(),
{
    if text.len() > 0 {
        lemma_no_longer_than_bytes(text.drop_first());
    }
}

proof fn lemma_boundary_from_is_first(text: Seq<char>, from: int, other: int)
    requires
        from <= other,
        on_boundary(text, other),
    ensures
        boundary_from(text, from) <= other,
    decreases encode_utf8(text).len() - from,
{
    if !(from >= encode_utf8(text).len() || on_boundary(text, from)) {
        lemma_boundary_from_is_first(text, from + 1, other);
    }
}

proof fn lemma_row_fits(text: Seq<char>, start: int, width: int)
    requires
        on_boundary(text, start),
        0 <= start < encode_utf8(text).len(),
        width >= 1,
    ensures
        part(text, start, row_end(text, start, width)).len() <= width,
{
    let len = encode_utf8(text).len() as int;
    let limit = if start + width < len {
        start + width
    } else {
        len
    };
    let end = row_end(text, start, width);
    let row = part(text, start, end);
    let front = chars_before(text, start);
    lemma_row_end(text, start, width);
    lemma_part_concat(text, start, end);
    lemma_split(text, start);
    lemma_split(text, end);
    lemma_encode_concat(front, row);
    assert(encode_utf8(row).len() == end - start);
    lemma_no_longer_than_bytes(row);
    lemma_boundary_before(text, limit);
    if boundary_at_or_before(text, limit) <= start {
        let behind = chars_after(text, start);
        assert(behind.len() > 0) by {
            assert(encode_utf8(behind).len() == len - start);
        }
        let first = seq![behind[0]];
        let rest = behind.drop_first();
        assert((front + first) + rest =~= text) by {
            assert(behind =~= first + rest);
        }
        lemma_join(front + first, rest);
        lemma_encode_concat(front, first);
        lemma_no_longer_than_bytes(first);
        lemma_boundary_from_is_first(text, start + 1, encode_utf8(front + first).len() as int);
        if row.len() >= 2 {
            assert(row[0] == behind[0]) by {
                assert(text[front.len() as int] == behind[0]);
                assert(text[front.len() as int] == chars_before(text, end)[front.len() as int]);
            }
            assert(row =~= first + row.drop_first());
            lemma_encode_concat(first, row.drop_first());
            lemma_no_longer_than_bytes(row.drop_first());
        }
    }
}

proof fn lemma_rows_on_fit(text: Seq<char>, start: int, width: int)
    requires
        on_boundary(text, start),
        width >= 1,
    ensures
        forall|i: int|
            0 <= i < rows_on(text, start, width).len() ==> (#[trigger] rows_on(
                text,
                start,
                width,
            )[i]).len() <= width,
    decreases encode_utf8(text).len() - start,
{
    if start < encode_utf8(text).len() {
        let end = row_end(text, start, width);
        lemma_row_end(text, start, width);
        lemma_row_fits(text, start, width);
        lemma_rows_on_fit(text, end, width);
        let rows = rows_on(text, start, width);
        assert forall|i: int| 0 <= i < rows.len() implies (#[trigger] rows[i]).len() <= width by {
            if i > 0 {
                assert(rows[i] == rows_on(text, end, width)[i - 1]);
            }
        }
    }
}

/// No row of a dialog's text is longer than the width that it was cut to.
pub proof fn law_dialog_rows_fit(text: Seq<char>, width: int)
    requires
        width >= 1,
    ensures
        forall|i: int|
            0 <= i < dialog_rows(text, width).len() ==> (#[trigger] dialog_rows(
                text,
                width,
            )[i]).len() <= width,
{
    encode_utf8_valid_utf8(text);
    is_char_boundary_start_end_of_seq(encode_utf8(text));
    if text.len() > 0 {
        lemma_rows_on_fit(text, 0, width);
    }
}

/// A popup.
#[derive(Debug)]
pub struct Popup {
    pub area: Area,
    pub title: String,
    /// where the body is drawn
    pub body_area: Area,
    pub body: Vec<Line>,
    /// where the cursor is drawn
    pub cursor: Option<(u16, u16)>,
    /// an error, and where it is drawn
    pub error: Option<(Area, String)>,
}

/// What a [`Popup`] shows.
#[verifier::ext_equal]
pub struct PopupView {
    pub area: Area,
    pub title: Seq<char>,
    pub body_area: Area,
    pub body: Seq<LineView>,
    pub cursor: Option<(u16, u16)>,
    pub error: Option<(Area, Seq<char>)>,
}

impl View for Popup {
    type V = PopupView;

    open spec fn view(&self) -> PopupView {
        PopupView {
            area: self.area,
            title: self.title@,
            body_area: self.body_area,
            body: line_views(self.body@),
            cursor: self.cursor,
            error: match self.error {
                Some(error) => Some((error.0, error.1@)),
                None => None,
            },
        }
    }
}

/// The columns inside a popup that takes 70 percent of the width.
pub open spec fn inside_width(area: Area) -> int {
    let width = percent_of(area.width, 70);
    if width > 3 {
        width - 2
    } else {
        1
    }
}

fn inner_width(area: Area) -> (width: usize)
    ensures
        width == inside_width(area),
{
    let width: u16 = percent_width(area.width, 70);
    if width > 3 {
        (width - 2) as usize
    } else {
        1
    }
}

/// The rows that `bytes` bytes take: as many as they fill, and one at least.
pub open spec fn rows_for_bytes(bytes: int, width: int) -> int {
    if bytes == 0 {
        1
    } else {
        (bytes + width - 1) / width
    }
}

fn count_rows(bytes: usize, width: usize) -> (rows: usize)
    requires
        width > 0,
    ensures
        rows == rows_for_bytes(bytes as int, width as int),
{
    if bytes == 0 {
        return 1;
    }
    let (n, d) = (bytes as u128, width as u128);
    proof {
        let (a, b) = (bytes as int, width as int);
        assert((a + b - 1) / b <= a) by (nonlinear_arith)
            requires
                a >= 1,
                b >= 1,
        ;
        assert((a + b - 1) / b >= 0) by (nonlinear_arith)
            requires
                a >= 1,
                b >= 1,
        ;
    }
    ((n + d - 1) / d) as usize
}

/// The number, held at the largest that a cell count can be.
pub open spec fn cells(n: int) -> u16 {
    if n <= u16::MAX {
        n as u16
    } else {
        u16::MAX
    }
}

pub(crate) fn as_cells(n: usize) -> (held: u16)
    ensures
        held == cells(n as int),
{
    if n <= u16::MAX as usize {
        n as u16
    } else {
        u16::MAX
    }
}

/// Both together, held at the largest cell count.
pub open spec fn sum_of_cells(a: u16, b: u16) -> u16 {
    cells(a + b)
}

/// Lines of plain text.
pub open spec fn plain_lines(texts: Seq<Seq<char>>) -> Seq<LineView> {
    texts.map_values(|t: Seq<char>| plain_line(t, Emphasis::Plain))
}

fn lines_of(texts: Vec<String>) -> (lines: Vec<Line>)
    ensures
        line_views(lines@) == plain_lines(views(texts@)),
{
    let ghost all = plain_lines(views(texts@));
    let mut lines: Vec<Line> = Vec::new();
    assert(line_views(lines@) =~= all.take(0));
    for text in it: texts
        invariant
            it.seq() == texts@,
            all == plain_lines(views(texts@)),
            line_views(lines@) == all.take(it.index() as int),
    {
        let ghost i = it.index() as int;
        assert(views(texts@)[i] == text@);
        push_line(&mut lines, Line::plain(text, Emphasis::Plain));
        assert(all.take(i + 1) =~= all.take(i).push(all[i]));
    }
    assert(all.take(all.len() as int) =~= all);
    lines
}

/// The rows that an editor's text takes in a popup over the area.
pub open spec fn edit_rows(dialog: DialogView, area: Area) -> u16 {
    match dialog.editor() {
        Some(editor) => cells(
            rows_for_bytes(encode_utf8(editor.text()).len() as int, inside_width(area)),
        ),
        None => 1,
    }
}

/// The popup of a dialog with an editor, or with only a question.
pub open spec fn editor_area(dialog: DialogView, area: Area) -> Area {
    area.centred(
        percent_of(area.width, 70),
        at_most_of(sum_of_cells(edit_rows(dialog, area), 4), area.height),
    )
}

/// How the inside of that popup is divided: the editor, then the error.
pub open spec fn editor_division(dialog: DialogView, area: Area) -> Seq<RowSize> {
    seq![RowSize::Length(edit_rows(dialog, area)), RowSize::Min(0)]
}

/// Where the editor stands in that popup: at the top of its inside, cut off
/// where it is too tall.
pub open spec fn edit_part(dialog: DialogView, area: Area) -> Area {
    let inside = editor_area(dialog, area).bordered();
    Area { height: at_most_of(edit_rows(dialog, area), inside.height), ..inside }
}

/// What is left below the editor.
pub open spec fn error_part(dialog: DialogView, area: Area) -> Area {
    let inside = editor_area(dialog, area).bordered();
    let taken = edit_part(dialog, area).height;
    Area {
        y: (inside.y + taken) as u16,
        height: (inside.height - taken) as u16,
        ..inside
    }
}

/// Where the cursor stands in rows of `width`: at the end of a full last row
/// it stays on that row.
pub open spec fn cursor_cell(cursor: int, len: int, width: int) -> (int, int) {
    if cursor > 0 && cursor == len && cursor % width == 0 {
        (cursor / width - 1, width)
    } else {
        (cursor / width, cursor % width)
    }
}

/// Where the cursor is drawn, kept within the editor's area.
pub open spec fn cursor_position(cell: (int, int), edit: Area) -> (u16, u16) {
    (
        at_most_of(
            sum_of_cells(edit.x, cells(cell.1)),
            sum_of_cells(edit.x, edit.width),
        ),
        at_most_of(
            sum_of_cells(edit.y, cells(cell.0)),
            sum_of_cells(
                edit.y,
                if edit.height > 0 {
                    (edit.height - 1) as u16
                } else {
                    0
                },
            ),
        ),
    )
}

/// What is wrong with the dialog's text.
pub open spec fn dialog_error(dialog: DialogView) -> Option<Seq<char>> {
    match dialog {
        DialogView::Filter { parse_error, .. } => parse_error,
        DialogView::Search { parse_error, .. } => parse_error,
        _ => None,
    }
}

/// The popup of a dialog with an editor or a question, once its inside has
/// been divided.
pub open spec fn editor_popup(dialog: DialogView, area: Area, edit: Area, below: Area) -> PopupView {
    let width = inside_width(area);
    PopupView {
        area: editor_area(dialog, area),
        title: dialog.title(),
        body_area: edit,
        body: match dialog.editor() {
            Some(editor) => plain_lines(dialog_rows(editor.text(), width)),
            None => Seq::empty(),
        },
        cursor: match dialog.editor() {
            Some(editor) => Some(
                cursor_position(
                    cursor_cell(
                        encode_utf8(editor.before).len() as int,
                        encode_utf8(editor.text()).len() as int,
                        width,
                    ),
                    edit,
                ),
            ),
            None => None,
        },
        error: match dialog_error(dialog) {
            Some(error) => if below.height > 0 {
                Some((below, error))
            } else {
                None
            },
            None => None,
        },
    }
}

/// Where the cursor is drawn, kept within the editor's area.
fn place_cursor(cursor: usize, len: usize, width: usize, edit: Area) -> (at: (u16, u16))
    requires
        width > 0,
    ensures
        at == cursor_position(cursor_cell(cursor as int, len as int, width as int), edit),
{
    let row: usize;
    let col: usize;
    if cursor > 0 && cursor == len && cursor % width == 0 {
        proof {
            let (a, b) = (cursor as int, width as int);
            assert(a / b >= 1) by (nonlinear_arith)
                requires
                    a > 0,
                    b > 0,
                    a % b == 0,
            ;
        }
        row = cursor / width - 1;
        col = width;
    } else {
        row = cursor / width;
        col = cursor % width;
    }
    let x: u16 = edit.x.saturating_add(as_cells(col));
    let right: u16 = edit.x.saturating_add(edit.width);
    let y: u16 = edit.y.saturating_add(as_cells(row));
    let bottom: u16 = edit.y.saturating_add(edit.height.saturating_sub(1));
    (
        if x <= right {
            x
        } else {
            right
        },
        if y <= bottom {
            y
        } else {
            bottom
        },
    )
}

/// The popup of a dialog with an editor or a question, once its inside has
/// been divided.
pub fn fill_editor_popup(dialog: &Dialog, area: Area, edit: Area, below: Area) -> (popup: Popup)
    requires
        dialog.wf(),
        area.on_screen(),
    ensures
        popup@ == editor_popup(dialog@, area, edit, below),
{
    let width: usize = inner_width(area);
    let (rows, body, cursor) = match dialog.editor() {
        Some(editor) => {
            proof {
                editor.lemma_view();
            }
            let len: usize = byte_len(editor.text.as_str());
            let texts = wrap_dialog_text(editor.text.as_str(), width);
            (
                as_cells(count_rows(len, width)),
                lines_of(texts),
                Some(place_cursor(editor.cursor, len, width, edit)),
            )
        },
        None => (1, Vec::new(), None),
    };
    assert(rows == edit_rows(dialog@, area));
    let popup_rows: u16 = rows.saturating_add(4);
    let error = match dialog.parse_error() {
        Some(error) => if below.height > 0 {
            Some((below, error.to_owned()))
        } else {
            None
        },
        None => None,
    };
    let popup = Popup {
        area: popup_area(area, 70, popup_rows),
        title: dialog.title(),
        body_area: edit,
        body,
        cursor,
        error,
    };
    assert(popup@ =~= editor_popup(dialog@, area, edit, below));
    popup
}

/// The mark in front of a choice.
pub open spec fn choice_mark(radio: bool, active: bool) -> Seq<char> {
    if radio && active {
        "(•)"@
    } else if radio {
        "( )"@
    } else if active {
        "[x]"@
    } else {
        "[ ]"@
    }
}

/// The lines of the first `end` choices of columns, with a blank line behind
/// each group.
pub open spec fn choice_lines(draft: RenderOpts, cursor: usize, end: int) -> Seq<LineView>
    decreases end,
{
    if end <= 0 {
        Seq::empty()
    } else {
        let item = item_at(end - 1);
        let before = choice_lines(draft, cursor, end - 1);
        let row = before.push(
            plain_line(
                choice_mark(item.radio(), item.active(draft)) + " "@ + item.text(),
                if cursor == end - 1 {
                    Emphasis::Reversed
                } else {
                    Emphasis::Plain
                },
            ),
        );
        if item.last_of_group() {
            row.push(plain_line(Seq::empty(), Emphasis::Plain))
        } else {
            row
        }
    }
}

/// The popup that chooses columns.
pub open spec fn choice_popup(draft: RenderOpts, cursor: usize, title: Seq<char>, area: Area) -> PopupView {
    let body = choice_lines(draft, cursor, DISPLAY_FIELD_COUNT as int);
    let popup = area.centred(
        percent_of(area.width, 50),
        at_most_of(cells(body.len() as int + 2), area.height),
    );
    PopupView {
        area: popup,
        title,
        body_area: popup.bordered(),
        body,
        cursor: None,
        error: None,
    }
}

proof fn lemma_choice_lines_len(draft: RenderOpts, cursor: usize, end: int)
    requires
        end >= 0,
    ensures
        end <= choice_lines(draft, cursor, end).len() <= 2 * end,
    decreases end,
{
    if end > 0 {
        lemma_choice_lines_len(draft, cursor, end - 1);
    }
}

/// The popup that chooses columns: a row for each choice, the groups set
/// apart, the row under the cursor highlighted.
pub fn render_display_fields_dialog(draft: &RenderOpts, cursor: usize, title: String, area: Area) -> (popup:
    Popup)
    requires
        area.on_screen(),
    ensures
        popup@ == choice_popup(*draft, cursor, title@, area),
{
    let mut body: Vec<Line> = Vec::new();
    let mut i: usize = 0;
    assert(line_views(body@) =~= choice_lines(*draft, cursor, 0));
    while i < DISPLAY_FIELD_COUNT
        invariant
            i <= DISPLAY_FIELD_COUNT,
            line_views(body@) == choice_lines(*draft, cursor, i as int),
        decreases DISPLAY_FIELD_COUNT - i,
    {
        let item = display_field_item(i);
        let radio = item.is_radio();
        let active = item.is_active(draft);
        let mut text = if radio && active {
            "(•)".to_owned()
        } else if radio {
            "( )".to_owned()
        } else if active {
            "[x]".to_owned()
        } else {
            "[ ]".to_owned()
        };
        text.append(" ");
        text.append(item.label());
        let style = if i == cursor {
            Emphasis::Reversed
        } else {
            Emphasis::Plain
        };
        push_line(&mut body, Line::plain(text, style));
        if item.ends_group() {
            push_line(&mut body, Line::plain(String::new(), Emphasis::Plain));
        }
        i = i + 1;
    }
    proof {
        lemma_choice_lines_len(*draft, cursor, DISPLAY_FIELD_COUNT as int);
        assert(body@.len() == line_views(body@).len());
    }
    let height: u16 = as_cells(body.len() + 2);
    let place = popup_area(area, 50, height);
    Popup { area: place, title, body_area: place.inner(), body, cursor: None, error: None }
}

/// The popup that shows a command.
pub open spec fn command_popup(text: Seq<char>, title: Seq<char>, area: Area) -> PopupView {
    let body = plain_lines(dialog_rows(text, inside_width(area)));
    let popup = area.centred(
        percent_of(area.width, 70),
        at_most_of(sum_of_cells(cells(body.len() as int), 2), area.height),
    );
    PopupView {
        area: popup,
        title,
        body_area: popup.bordered(),
        body,
        cursor: None,
        error: None,
    }
}

/// The popup that shows a command, cut into rows.
pub fn render_seeit_command_dialog(text: &str, title: String, area: Area) -> (popup: Popup)
    requires
        area.on_screen(),
    ensures
        popup@ == command_popup(text@, title@, area),
{
    let body = lines_of(wrap_dialog_text(text, inner_width(area)));
    assert(body@.len() == line_views(body@).len());
    let height: u16 = as_cells(body.len()).saturating_add(2);
    let place = popup_area(area, 70, height);
    let popup = Popup {
        area: place,
        title,
        body_area: place.inner(),
        body,
        cursor: None,
        error: None,
    };
    assert(popup@ =~= command_popup(text@, title@, area));
    popup
}

/// The longest of the texts, in characters.
pub open spec fn widest_span(spans: Seq<SpanView>) -> nat
    decreases spans.len(),
{
    if spans.len() == 0 {
        0
    } else {
        let before = widest_span(spans.drop_last());
        if spans.last().content.len() > before {
            spans.last().content.len()
        } else {
            before
        }
    }
}

/// The lines of spans that stand alone.
pub open spec fn span_lines(spans: Seq<SpanView>) -> Seq<LineView> {
    spans.map_values(|s: SpanView| LineView { spans: seq![s], style: Emphasis::Plain })
}

/// The help popup, scrolled no further than its last row.
pub open spec fn help_popup(scroll: u16, title: Seq<char>, area: Area) -> PopupView {
    let spans = help_lines(help(), keys_width(help()));
    let needed = if widest_span(spans) > title.len() {
        widest_span(spans) + 2
    } else {
        title.len() + 2
    };
    let total = cells(spans.len() as int);
    let popup = area.centred(
        at_most_of(cells(needed as int), area.width),
        at_most_of(sum_of_cells(total, 2), area.height),
    );
    let height = crate::area::less(popup.height, 2);
    let start = at_most_of(scroll, crate::area::less(total, height as int)) as int;
    let end = if start + height < spans.len() {
        start + height
    } else {
        spans.len() as int
    };
    PopupView {
        area: popup,
        title,
        body_area: popup.bordered(),
        body: span_lines(spans.subrange(start, end)),
        cursor: None,
        error: None,
    }
}

fn widest_of(spans: &Vec<Span>) -> (width: usize)
    ensures
        width == widest_span(span_views(spans@)),
{
    let ghost all = span_views(spans@);
    let mut width: usize = 0;
    let mut i: usize = 0;
    while i < spans.len()
        invariant
            i <= spans@.len(),
            all == span_views(spans@),
            width == widest_span(all.take(i as int)),
        decreases spans@.len() - i,
    {
        assert(all[i as int] == spans@[i as int]@);
        assert(all.take(i + 1).drop_last() =~= all.take(i as int));
        let len: usize = spans[i].content.as_str().unicode_len();
        if len > width {
            width = len;
        }
        i = i + 1;
    }
    assert(all.take(i as int) =~= all);
    width
}

/// The help popup: as wide as its longest line or its title, with as much of
/// the keybindings as fits from row `scroll` on.
pub fn render_help_dialog(scroll: u16, title: String, area: Area) -> (popup: Popup)
    requires
        area.on_screen(),
    ensures
        popup@ == help_popup(scroll, title@, area),
{
    let spans = build_help_lines();
    let ghost all = span_views(spans@);
    assert(all.len() == spans@.len());
    let widest: usize = widest_of(&spans);
    let named: usize = title.as_str().unicode_len();
    let longest: usize = if widest > named {
        widest
    } else {
        named
    };
    let wanted: u16 = as_cells(longest.saturating_add(2));
    assert(wanted == cells(longest + 2));
    let total: u16 = as_cells(spans.len());
    let place = popup_area_with_width(area, wanted, total.saturating_add(2));
    let height: u16 = place.height.saturating_sub(2);
    let most: u16 = total.saturating_sub(height);
    let start: usize = if scroll <= most {
        scroll as usize
    } else {
        most as usize
    };
    let count: usize = spans.len();
    let end: usize = if (height as usize) < count - start {
        start + height as usize
    } else {
        count
    };
    let mut body: Vec<Line> = Vec::new();
    let mut i: usize = start;
    let ghost shown = span_lines(all.subrange(start as int, end as int));
    assert(line_views(body@) =~= shown.take(0));
    while i < end
        invariant
            start <= i <= end <= spans@.len(),
            all == span_views(spans@),
            shown == span_lines(all.subrange(start as int, end as int)),
            line_views(body@) == shown.take(i - start),
        decreases end - i,
    {
        assert(all[i as int] == spans@[i as int]@);
        let mut row: Vec<Span> = Vec::new();
        let copy = Span { content: spans[i].content.clone(), style: spans[i].style };
        row.push(copy);
        let line = Line { spans: row, style: Emphasis::Plain };
        assert(line@ =~= shown[i - start]);
        push_line(&mut body, line);
        assert(shown.take(i - start + 1) =~= shown.take(i - start).push(shown[i - start]));
        i = i + 1;
    }
    assert(shown.take(end - start) =~= shown);
    let popup = Popup {
        area: place,
        title,
        body_area: place.inner(),
        body,
        cursor: None,
        error: None,
    };
    assert(popup@ =~= help_popup(scroll, title@, area));
    popup
}

/// The popup that shows a dialog over the area.
pub open spec fn dialog_popup(dialog: DialogView, area: Area) -> PopupView {
    match dialog {
        DialogView::DisplayFields { draft, cursor } => choice_popup(
            draft,
            cursor,
            dialog.title(),
            area,
        ),
        DialogView::SeeitCommand { text } => command_popup(text, dialog.title(), area),
        DialogView::Help { scroll } => help_popup(scroll, dialog.title(), area),
        _ => editor_popup(dialog, area, edit_part(dialog, area), error_part(dialog, area)),
    }
}

/// The layout gives the editor its rows and the error what is left.
proof fn lemma_editor_parts(dialog: DialogView, area: Area, parts: Seq<Area>)
    requires
        editor_area(dialog, area).bordered().on_screen(),
        divides(editor_area(dialog, area).bordered(), editor_division(dialog, area), parts),
    ensures
        parts.len() == 2,
        parts[0] == edit_part(dialog, area),
        parts[1] == error_part(dialog, area),
{
    let inside = editor_area(dialog, area).bordered();
    let sizes = editor_division(dialog, area);
    assert(grows_alone(sizes, 1));
    reveal_with_fuel(fixed_heights, 3);
    reveal_with_fuel(row_top, 2);
    assert(parts == stacked(inside, sizes));
}

/// The popup of a dialog with an editor or a question.
fn render_editor_dialog(dialog: &Dialog, area: Area) -> (popup: Popup)
    requires
        dialog.wf(),
        area.on_screen(),
    ensures
        popup@ == editor_popup(
            dialog@,
            area,
            edit_part(dialog@, area),
            error_part(dialog@, area),
        ),
{
    let rows: u16 = match dialog.editor() {
        Some(editor) => {
            proof {
                editor.lemma_view();
            }
            as_cells(count_rows(byte_len(editor.text.as_str()), inner_width(area)))
        },
        None => 1,
    };
    assert(rows == edit_rows(dialog@, area));
    let inside = popup_area(area, 70, rows.saturating_add(4)).inner();
    let mut sizes: Vec<RowSize> = Vec::new();
    sizes.push(RowSize::Length(rows));
    sizes.push(RowSize::Min(0));
    assert(sizes@ =~= editor_division(dialog@, area));
    let parts = rows_of(inside, &sizes);
    proof {
        lemma_editor_parts(dialog@, area, parts@);
    }
    fill_editor_popup(dialog, area, parts[0], parts[1])
}

/// The popup of a dialog over the area.
pub fn render_dialog(dialog: &Dialog, area: Area) -> (popup: Popup)
    requires
        dialog.wf(),
        area.on_screen(),
    ensures
        popup@ == dialog_popup(dialog@, area),
{
    match dialog {
        Dialog::DisplayFields { draft, cursor } => render_display_fields_dialog(
            draft,
            *cursor,
            dialog.title(),
            area,
        ),
        Dialog::SeeitCommand { text } => render_seeit_command_dialog(
            text.as_str(),
            dialog.title(),
            area,
        ),
        Dialog::Help { scroll } => render_help_dialog(*scroll, dialog.title(), area),
        _ => render_editor_dialog(dialog, area),
    }
}

/// The search prompt at the bottom of the screen.
#[derive(Debug)]
pub struct SearchPrompt {
    pub text: String,
    pub cursor: (u16, u16),
    /// an error, and where it is drawn
    pub error: Option<(Area, String)>,
}

/// What a [`SearchPrompt`] shows.
#[verifier::ext_equal]
pub struct PromptView {
    pub text: Seq<char>,
    pub cursor: (u16, u16),
    pub error: Option<(Area, Seq<char>)>,
}

impl View for SearchPrompt {
    type V = PromptView;

    open spec fn view(&self) -> PromptView {
        PromptView {
            text: self.text@,
            cursor: self.cursor,
            error: match self.error {
                Some(error) => Some((error.0, error.1@)),
                None => None,
            },
        }
    }
}

/// The search prompt in the area: the direction's character and the text,
/// with what is wrong with it below where there is room.
pub open spec fn prompt_in(
    editor: crate::editor::EditorView,
    direction: SearchDirection,
    error: Option<Seq<char>>,
    area: Area,
) -> PromptView {
    PromptView {
        text: seq![direction.prompt_char()] + editor.text(),
        cursor: (
            at_most_of(
                sum_of_cells(
                    sum_of_cells(area.x, 1),
                    cells(encode_utf8(editor.before).len() as int),
                ),
                sum_of_cells(area.x, area.width),
            ),
            area.y,
        ),
        error: match error {
            Some(error) => if area.height > 1 {
                Some(
                    (
                        Area {
                            x: area.x,
                            y: (area.y + 1) as u16,
                            width: area.width,
                            height: 1,
                        },
                        error,
                    ),
                )
            } else {
                None
            },
            None => None,
        },
    }
}

/// The search prompt in the area.
pub fn render_search_prompt(
    editor: &LineEditor,
    direction: SearchDirection,
    parse_error: &Option<String>,
    area: Area,
) -> (prompt: SearchPrompt)
    requires
        editor.wf(),
        area.on_screen(),
    ensures
        prompt@ == prompt_in(
            editor@,
            direction,
            crate::dialog::text_view(*parse_error),
            area,
        ),
{
    proof {
        editor.lemma_view();
    }
    let mut text = String::new();
    push_char(&mut text, direction.prompt());
    text.append(editor.text.as_str());
    assert(text@ =~= seq![direction.prompt_char()] + editor@.text());
    let col: u16 = area.x.saturating_add(1).saturating_add(as_cells(editor.cursor));
    let right: u16 = area.x.saturating_add(area.width);
    let x: u16 = if col <= right {
        col
    } else {
        right
    };
    let error = match parse_error {
        Some(error) => if area.height > 1 {
            let below = Area { x: area.x, y: area.y + 1, width: area.width, height: 1 };
            Some((below, error.clone()))
        } else {
            None
        },
        None => None,
    };
    SearchPrompt { text, cursor: (x, area.y), error }
}

} // verus!
