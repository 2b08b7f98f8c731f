//! The list of bookmarks.

use super::{line_views, plain_line, push_line, row_style, style_of_row, Line, LineView};
use crate::app::{App, AppView};
use crate::help::{padded, push_padded};
use crate::number::{decimal, decimal_text};
use crate::search::Emphasis;
use crate::session::{bookmark_views, Bookmark, BookmarkId, BookmarkView};
use crate::text::{views, wrap_to_width, wrapped};
use vstd::prelude::*;

verus! {

/// Width of the time column.
pub const BOOKMARK_TS_WIDTH: usize = 24;

/// Columns that the time and the two separators take.
pub const BOOKMARK_OVERHEAD: usize = 30;

/// The row of a bookmark where there is no room for columns.
pub open spec fn compact_row(bookmark: BookmarkView, cursor: Option<u128>) -> LineView {
    plain_line(
        bookmark.draft.display_time.date_and_time() + " · "@ + bookmark.draft.display_msg,
        row_style(cursor == Some(bookmark.id)),
    )
}

/// The text of the third column: the logger's name and the message, with a
/// colon between where both are there.
pub open spec fn name_and_message(bookmark: BookmarkView) -> Seq<char> {
    let (name, msg) = (bookmark.draft.display_name, bookmark.draft.display_msg);
    if name.len() == 0 {
        msg
    } else if msg.len() == 0 {
        name
    } else {
        name + ": "@ + msg
    }
}

/// The text of the second column: the name that the user gave.
pub open spec fn given_name(bookmark: BookmarkView) -> Seq<char> {
    match bookmark.name {
        Some(name) => name,
        None => Seq::empty(),
    }
}

/// Columns of an entry, each already wrapped.
pub struct EntryColumns {
    pub time: Seq<char>,
    pub name_rows: Seq<Seq<char>>,
    pub msg_rows: Seq<Seq<char>>,
    pub created: Seq<char>,
}

/// The columns of a bookmark in a pane that leaves `rest` columns for name
/// and message.
pub open spec fn columns_of(bookmark: BookmarkView, rest: int) -> EntryColumns {
    EntryColumns {
        time: bookmark.draft.display_time.date_and_time(),
        name_rows: wrapped(given_name(bookmark), rest / 2),
        msg_rows: wrapped(name_and_message(bookmark), rest - rest / 2),
        created: "bookmark created at "@ + bookmark.created_at.date_and_time(),
    }
}

impl EntryColumns {
    /// The number of rows: the taller of the columns, the last of which has
    /// a row more for when the bookmark was created.
    pub open spec fn rows(self) -> int {
        if self.name_rows.len() > self.msg_rows.len() + 1 {
            self.name_rows.len() as int
        } else {
            (self.msg_rows.len() + 1) as int
        }
    }

    /// Row `i` of the entry.
    pub open spec fn row(self, i: int, name_width: int) -> Seq<char> {
        let time = if i == 0 {
            self.time
        } else {
            Seq::empty()
        };
        let name = if i < self.name_rows.len() {
            self.name_rows[i]
        } else {
            Seq::empty()
        };
        let msg = if i < self.msg_rows.len() {
            self.msg_rows[i]
        } else if i == self.msg_rows.len() {
            self.created
        } else {
            Seq::empty()
        };
        padded(time, BOOKMARK_TS_WIDTH as int) + " · "@ + padded(name, name_width) + " · "@ + msg
    }
}

/// The first `end` rows of a bookmark's entry.
pub open spec fn entry_rows(
    bookmark: BookmarkView,
    cursor: Option<u128>,
    rest: int,
    end: int,
) -> Seq<LineView> {
    let columns = columns_of(bookmark, rest);
    Seq::new(
        if end > 0 {
            end as nat
        } else {
            0
        },
        |i: int|
            plain_line(columns.row(i, rest / 2), row_style(cursor == Some(bookmark.id))),
    )
}

/// The rows of the first bookmarks, one entry after another.
pub open spec fn all_entries(bookmarks: Seq<BookmarkView>, cursor: Option<u128>, rest: int) -> Seq<
    LineView,
>
    decreases bookmarks.len(),
{
    if bookmarks.len() == 0 {
        Seq::empty()
    } else {
        all_entries(bookmarks.drop_last(), cursor, rest) + entry_rows(
            bookmarks.last(),
            cursor,
            rest,
            columns_of(bookmarks.last(), rest).rows(),
        )
    }
}

/// The first of the rows, as many as there is room for.
pub open spec fn that_fit(rows: Seq<LineView>, height: int) -> Seq<LineView> {
    if rows.len() <= height {
        rows
    } else {
        rows.take(height)
    }
}

/// The lines of the bookmarks pane.
pub open spec fn pane_lines(app: AppView, width: u16, height: u16) -> Seq<LineView> {
    let bookmarks = app.flat();
    let cursor = app.bookmark_cursor;
    if bookmarks.len() == 0 {
        seq![plain_line("(no bookmarks)"@, Emphasis::Plain)]
    } else if width < BOOKMARK_OVERHEAD + 4 {
        that_fit(
            bookmarks.map_values(|b: BookmarkView| compact_row(b, cursor)),
            height as int,
        )
    } else {
        that_fit(all_entries(bookmarks, cursor, width - BOOKMARK_OVERHEAD), height as int)
    }
}

fn is_highlighted(cursor: Option<BookmarkId>, id: BookmarkId) -> (yes: bool)
    ensures
        yes == (crate::app::id_view(cursor) == Some(id.0)),
{
    match cursor {
        Some(at) => at == id,
        None => false,
    }
}

fn compact_bookmark_line(bookmark: &Bookmark, cursor: Option<BookmarkId>) -> (line: Line)
    ensures
        line@ == compact_row(bookmark@, crate::app::id_view(cursor)),
{
    let mut text = bookmark.draft.display_time.to_milli_text();
    text.append(" · ");
    text.append(bookmark.draft.display_msg.as_str());
    Line::plain(text, style_of_row(is_highlighted(cursor, bookmark.id)))
}

fn third_column(bookmark: &Bookmark) -> (text: String)
    ensures
        text@ == name_and_message(bookmark@),
{
    let name = &bookmark.draft.display_name;
    let msg = &bookmark.draft.display_msg;
    if name.as_str().is_empty() {
        msg.clone()
    } else if msg.as_str().is_empty() {
        name.clone()
    } else {
        let mut text = name.clone();
        text.append(": ");
        text.append(msg.as_str());
        text
    }
}

/// Appends the rows of a bookmark's entry, as far as there is room.
fn push_entry(
    lines: &mut Vec<Line>,
    bookmark: &Bookmark,
    cursor: Option<BookmarkId>,
    rest: usize,
    cap: usize,
)
    requires
        2 <= rest <= 0xffff,
        old(lines)@.len() <= cap,
    ensures
        line_views(final(lines)@) == that_fit(
            line_views(old(lines)@) + entry_rows(
                bookmark@,
                crate::app::id_view(cursor),
                rest as int,
                columns_of(bookmark@, rest as int).rows(),
            ),
            cap as int,
        ),
        final(lines)@.len() <= cap,
{
    let ghost start = line_views(lines@);
    let ghost shown = crate::app::id_view(cursor);
    let ghost columns = columns_of(bookmark@, rest as int);
    let name_width: usize = rest / 2;
    let name_rows = match &bookmark.name {
        Some(name) => wrap_to_width(name.0.as_str(), name_width),
        None => wrap_to_width("", name_width),
    };
    proof {
        reveal_strlit("");
        assert(""@ =~= Seq::<char>::empty());
        assert(views(name_rows@) == columns.name_rows);
    }
    let message = third_column(bookmark);
    let msg_rows = wrap_to_width(message.as_str(), rest - name_width);
    assert(views(msg_rows@) == columns.msg_rows);
    let mut created = "bookmark created at ".to_owned();
    let created_at = bookmark.created_at.to_milli_text();
    created.append(created_at.as_str());
    let time = bookmark.draft.display_time.to_milli_text();
    let style = style_of_row(is_highlighted(cursor, bookmark.id));
    let names: usize = name_rows.len();
    let msgs: usize = msg_rows.len();
    let mut i: usize = 0;
    assert(entry_rows(bookmark@, shown, rest as int, 0) =~= Seq::empty());
    assert(start + Seq::empty() =~= start);
    while (i < names || i <= msgs) && lines.len() < cap
        invariant
            2 <= rest <= 0xffff,
            name_width == rest / 2,
            names == name_rows@.len(),
            msgs == msg_rows@.len(),
            columns == columns_of(bookmark@, rest as int),
            columns.time == time@,
            columns.created == created@,
            columns.name_rows == views(name_rows@),
            columns.msg_rows == views(msg_rows@),
            shown == crate::app::id_view(cursor),
            style == row_style(shown == Some(bookmark@.id)),
            0 <= i <= columns.rows(),
            lines@.len() <= cap,
            line_views(lines@) == start + entry_rows(bookmark@, shown, rest as int, i as int),
        decreases columns.rows() - i,
    {
        let mut text = String::new();
        if i == 0 {
            push_padded(&mut text, time.as_str(), BOOKMARK_TS_WIDTH);
        } else {
            proof {
                reveal_strlit("");
                assert(""@ =~= Seq::<char>::empty());
            }
            push_padded(&mut text, "", BOOKMARK_TS_WIDTH);
        }
        text.append(" · ");
        if i < names {
            assert(columns.name_rows[i as int] == name_rows@[i as int]@);
            push_padded(&mut text, name_rows[i].as_str(), name_width);
        } else {
            proof {
                reveal_strlit("");
                assert(""@ =~= Seq::<char>::empty());
            }
            push_padded(&mut text, "", name_width);
        }
        text.append(" · ");
        if i < msgs {
            assert(columns.msg_rows[i as int] == msg_rows@[i as int]@);
            text.append(msg_rows[i].as_str());
        } else if i == msgs {
            text.append(created.as_str());
        }
        assert(text@ =~= columns.row(i as int, name_width as int));
        let line = Line::plain(text, style);
        let ghost before = line_views(lines@);
        push_line(lines, line);
        assert(line_views(lines@) =~= start + entry_rows(
            bookmark@,
            shown,
            rest as int,
            i + 1,
        ));
        i = i + 1;
    }
    proof {
        let all = start + entry_rows(bookmark@, shown, rest as int, columns.rows());
        if i < columns.rows() {
            assert(lines@.len() == cap);
            assert(line_views(lines@) =~= all.take(cap as int));
        }
        assert(line_views(lines@) =~= that_fit(all, cap as int));
    }
}

/// The lines of the bookmarks pane.  Each entry shows the time of the marked
/// record, the name that the user gave, and the logger's name and message;
/// names and messages wrap in their columns, and a last row says when the
/// bookmark was created.  What does not fit is cut off.
pub fn render_bookmarks_pane(app: &App, width: u16, height: u16) -> (lines: Vec<Line>)
    ensures
        line_views(lines@) == pane_lines(app@, width, height),
{
    let bookmarks = app.flat_bookmarks();
    let ghost all = app@.flat();
    assert(all.len() == bookmarks@.len());
    let cursor = app.bookmark_cursor;
    let ghost shown = app@.bookmark_cursor;
    let mut lines: Vec<Line> = Vec::new();
    if bookmarks.len() == 0 {
        push_line(&mut lines, Line::plain("(no bookmarks)".to_owned(), Emphasis::Plain));
        assert(line_views(lines@) =~= pane_lines(app@, width, height));
        return lines;
    }
    let cap: usize = height as usize;
    if (width as usize) < BOOKMARK_OVERHEAD + 4 {
        let ghost rows = all.map_values(|b: BookmarkView| compact_row(b, shown));
        let mut i: usize = 0;
        assert(line_views(lines@) =~= rows.take(0));
        while i < bookmarks.len() && i < cap
            invariant
                i <= bookmarks@.len(),
                i <= cap,
                all == bookmark_views(bookmarks@),
                rows == all.map_values(|b: BookmarkView| compact_row(b, shown)),
                shown == crate::app::id_view(cursor),
                line_views(lines@) == rows.take(i as int),
            decreases bookmarks@.len() - i,
        {
            assert(all[i as int] == bookmarks@[i as int]@);
            let line = compact_bookmark_line(bookmarks[i], cursor);
            push_line(&mut lines, line);
            assert(rows.take(i + 1) =~= rows.take(i as int).push(rows[i as int]));
            i = i + 1;
        }
        assert(line_views(lines@) =~= pane_lines(app@, width, height));
        return lines;
    }
    let rest: usize = width as usize - BOOKMARK_OVERHEAD;
    let mut i: usize = 0;
    assert(line_views(lines@) =~= that_fit(all_entries(all.take(0), shown, rest as int), cap as int));
    while i < bookmarks.len() && lines.len() < cap
        invariant
            i <= bookmarks@.len(),
            all == bookmark_views(bookmarks@),
            shown == crate::app::id_view(cursor),
            2 <= rest <= 0xffff,
            lines@.len() <= cap,
            line_views(lines@) == that_fit(
                all_entries(all.take(i as int), shown, rest as int),
                cap as int,
            ),
        decreases bookmarks@.len() - i,
    {
        assert(all[i as int] == bookmarks@[i as int]@);
        assert(all.take(i + 1).drop_last() =~= all.take(i as int));
        assert(all.take(i + 1).last() == all[i as int]);
        let ghost so_far = all_entries(all.take(i as int), shown, rest as int);
        assert(lines@.len() == line_views(lines@).len());
        assert(so_far.len() < cap);
        push_entry(&mut lines, bookmarks[i], cursor, rest, cap);
        i = i + 1;
    }
    proof {
        assert(all.take(all.len() as int) =~= all);
        if i < bookmarks@.len() {
            lemma_full_stays_full(all, i as int, shown, rest as int, cap as int);
        }
    }
    lines
}

/// Where the first entries fill the pane, later ones change nothing.
proof fn lemma_full_stays_full(
    bookmarks: Seq<BookmarkView>,
    i: int,
    cursor: Option<u128>,
    rest: int,
    cap: int,
)
    requires
        0 <= i <= bookmarks.len(),
        0 <= cap <= all_entries(bookmarks.take(i), cursor, rest).len(),
    ensures
        that_fit(all_entries(bookmarks, cursor, rest), cap) == that_fit(
            all_entries(bookmarks.take(i), cursor, rest),
            cap,
        ),
        all_entries(bookmarks, cursor, rest).len() >= cap,
    decreases bookmarks.len(),
{
    if i == bookmarks.len() {
        assert(bookmarks.take(i) =~= bookmarks);
    } else {
        let less = bookmarks.drop_last();
        assert(less.take(i) =~= bookmarks.take(i));
        lemma_full_stays_full(less, i, cursor, rest, cap);
        let (a, b) = (all_entries(less, cursor, rest), all_entries(bookmarks, cursor, rest));
        assert(b.take(cap) =~= a.take(cap));
        assert(that_fit(b, cap) =~= b.take(cap));
        assert(that_fit(a, cap) =~= a.take(cap));
    }
}

/// The footer over the bookmarks: the notice if there is one, else the keys
/// and the number of bookmarks.
pub open spec fn bookmarks_footer(app: AppView) -> Seq<char> {
    let count = app.session.bookmarks.len();
    if app.notice is Some {
        app.notice->Some_0
    } else {
        "q quit · j/k select · Enter open · x delete · Y seeit · Tab cycle · h help · "@
            + decimal(count) + if count == 1 {
            " bookmark"@
        } else {
            " bookmarks"@
        }
    }
}

/// The footer over the bookmarks.
pub fn render_bookmarks_footer(app: &App) -> (line: String)
    ensures
        line@ == bookmarks_footer(app@),
{
    if let Some(notice) = &app.notice {
        return notice.clone();
    }
    let count: usize = app.session.bookmark_count();
    let mut line =
        "q quit · j/k select · Enter open · x delete · Y seeit · Tab cycle · h help · ".to_owned();
    let shown = decimal_text(count as u64);
    line.append(shown.as_str());
    if count == 1 {
        line.append(" bookmark");
    } else {
        line.append(" bookmarks");
    }
    line
}

} // verus!
