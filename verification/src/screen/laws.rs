//! What the screen shows, told by the tab, the dialog or the bookmark that it
//! shows it of.

use super::bookmarks::{bookmarks_footer, columns_of, compact_row, entry_rows, pane_lines};
use super::content::{
    body_row, body_rows, is_selected, records_shown, rows_of_line, status_line, tab_footer,
    visible_end, ViewStatus,
};
use super::popup::{
    choice_lines, cursor_cell, dialog_popup, dialog_rows, error_part, inside_width,
    law_dialog_rows_rejoin, prompt_in,
};
use super::startup::startup_rows;
use super::{regions_in, screen_of, titles_of, BottomView, LineView, Regions};
use crate::app::AppView;
use crate::area::Area;
use crate::dialog::DialogView;
use crate::editor::EditorView;
use crate::help::help_key;
use crate::key::{KeyCode, KeyEvent};
use crate::long_op::LongOp;
use crate::number::decimal;
use crate::pattern::{ranges_in_order, regex_find_all};
use crate::search::{
    law_highlighting_keeps_the_line, span_texts, Emphasis, SearchDirection, SpanView,
};
use crate::session::{BookmarkView, HostnameDisplay, RenderOpts, TabKind};
use crate::startup::StartupView;
use crate::tab::{rows_from, SelectionAction, TabView};
use crate::text::{joined, visual_rows};
use vstd::prelude::*;
use vstd::utf8::encode_utf8;

verus! {

proof fn lemma_visible_end(
    lines: Seq<Seq<char>>,
    from: int,
    used: int,
    height: int,
    width: int,
)
    requires
        0 <= from <= lines.len(),
        0 <= used,
        0 <= width,
    ensures
        ({
            let end = visible_end(lines, from, used, height, width);
            &&& from <= end <= lines.len()
            &&& end > from ==> used + rows_from(lines, from, width) - rows_from(
                lines,
                end - 1,
                width,
            ) < height
            &&& end < lines.len() ==> used + rows_from(lines, from, width) - rows_from(
                lines,
                end,
                width,
            ) >= height
        }),
    decreases lines.len() - from,
{
    if from < lines.len() && used < height {
        let rows = visual_rows(lines[from].len() as int, width);
        if width > 0 {
            crate::text::law_rows_hold_the_line(lines[from].len() as int, width);
        }
        lemma_visible_end(lines, from + 1, used + rows, height, width);
    }
}

/// The lines in view are those from the top on, as many as there is room for:
/// the last of them begins inside the viewport, and where more follow, these
/// fill it.
pub proof fn law_lines_fill_the_viewport(
    lines: Seq<Seq<char>>,
    top: int,
    height: int,
    width: int,
)
    requires
        0 <= top < lines.len(),
        0 < height,
        0 <= width,
    ensures
        ({
            let end = visible_end(lines, top, 0, height, width);
            &&& top < end <= lines.len()
            &&& rows_from(lines, top, width) - rows_from(lines, end - 1, width) < height
            &&& end < lines.len() ==> rows_from(lines, top, width) - rows_from(lines, end, width)
                >= height
        }),
{
    lemma_visible_end(lines, top, 0, height, width);
}

proof fn lemma_body_rows(tab: TabView, top: int, bottom: int, width: u16)
    requires
        top <= bottom,
    ensures
        body_rows(tab, top, bottom, false, width).len() == bottom - top,
        forall|i: int|
            0 <= i < bottom - top ==> #[trigger] body_rows(tab, top, bottom, false, width)[i]
                == body_row(tab, tab.content.formatted[top + i], is_selected(tab, top + i)),
    decreases bottom - top,
{
    if top < bottom {
        lemma_body_rows(tab, top, bottom - 1, width);
        let row = rows_of_line(tab, bottom - 1, false, width);
        assert(row.len() == 1);
        assert(row[0] == body_row(
            tab,
            tab.content.formatted[bottom - 1],
            is_selected(tab, bottom - 1),
        ));
    }
}

/// Each row shows one line of the tab, whole and in order, with the bar of the
/// selection on exactly the lines of the selected record.
pub proof fn law_rows_show_the_tabs_lines(tab: TabView, top: int, bottom: int, width: u16, i: int)
    requires
        0 <= top,
        0 <= i < bottom - top,
        bottom <= tab.content.formatted.len(),
        tab.search matches Some(search) ==> ranges_in_order(
            regex_find_all(search.pattern, tab.content.formatted[top + i]),
            tab.content.formatted[top + i],
        ),
    ensures
        ({
            let rows = body_rows(tab, top, bottom, false, width);
            let line = top + i;
            &&& rows.len() == bottom - top
            &&& joined(span_texts(rows[i].spans)) == tab.content.formatted[line]
            &&& rows[i].style == Emphasis::Selected <==> (tab.select matches Some(sel) && line
                < tab.content.event_for_line.len() && tab.content.event_for_line[line]
                == sel.event_idx)
            &&& rows[i].style != Emphasis::Selected ==> rows[i].style == Emphasis::Plain
            &&& tab.search is None ==> rows[i].spans == seq![
                SpanView { content: tab.content.formatted[line], style: Emphasis::Plain },
            ]
        }),
{
    lemma_body_rows(tab, top, bottom, width);
    let text = tab.content.formatted[top + i];
    match tab.search {
        Some(search) => law_highlighting_keeps_the_line(
            text,
            regex_find_all(search.pattern, text),
        ),
        None => {
            let spans = seq![SpanView { content: text, style: Emphasis::Plain }];
            assert(span_texts(spans) =~= seq![text]);
            assert(seq![text].drop_last() =~= Seq::<Seq<char>>::empty());
            assert(joined(Seq::<Seq<char>>::empty()) =~= Seq::<char>::empty());
            assert(joined(seq![text]) =~= text);
        },
    }
}

/// The tabs' names stand in their order, and behind them the bookmarks' pane
/// where there is a bookmark; the pane on show is the one marked.
pub proof fn law_titles_are_the_tabs_names(
    app: AppView,
    regions: Regions,
    status: ViewStatus,
    op: Option<&LongOp>,
)
    ensures
        ({
            let titles = titles_of(app);
            &&& forall|i: int| 0 <= i < app.tabs.len() ==> #[trigger] titles[i] == app.tabs[i].name
            &&& app.session.bookmarks.len() == 0 ==> titles.len() == app.tabs.len()
            &&& app.session.bookmarks.len() > 0 ==> titles.len() == app.tabs.len() + 1
                && titles.last() == "Bookmarks"@
        }),
        screen_of(app, regions, status, op).titles == titles_of(app),
        screen_of(app, regions, status, op).selected == app.active,
{
}

/// The screen of a tab shows its lines from its top on; how far long work has
/// come is told only on the work's own tab, and else where the tab stands.
pub proof fn law_tabs_show_where_they_stand(
    app: AppView,
    regions: Regions,
    status: ViewStatus,
    op: Option<&LongOp>,
)
    requires
        app.active < app.tabs.len(),
    ensures
        ({
            let tab = app.tabs[app.active as int];
            let shown = screen_of(app, regions, status, op);
            let raw = app.session.streams[tab.stream].opts.show_raw;
            let end = visible_end(
                tab.content.formatted,
                tab.viewport_top as int,
                0,
                regions.content.height as int,
                regions.content.width as int,
            );
            &&& shown.content == body_rows(
                tab,
                tab.viewport_top as int,
                end,
                raw,
                regions.content.width,
            )
            &&& shown.wrap == !raw
            &&& (op is None || op->Some_0.tab().0 != app.active) ==> shown.status == Some(
                status_line(tab, tab.viewport_top as int, end, status),
            )
            &&& op matches Some(op) ==> op.tab().0 == app.active ==> shown.status == Some(
                crate::format::progress_line(
                    op.label_text(),
                    op.done().0,
                    op.total().0,
                    op.record_count(),
                    regions.status.width as int,
                ),
            )
            &&& shown.fetch_stats is Some <==> app.show_fetch_stats
            &&& shown.bottom is Prompt <==> (app.dialog matches Some(DialogView::Search { .. }))
        }),
{
}

/// The bookmarks' pane has no status, and its footer counts the bookmarks.
pub proof fn law_bookmarks_pane_counts_them(
    app: AppView,
    regions: Regions,
    status: ViewStatus,
    op: Option<&LongOp>,
)
    requires
        app.session.bookmarks.len() > 0,
        app.active == app.tabs.len(),
    ensures
        ({
            let shown = screen_of(app, regions, status, op);
            let n = app.session.bookmarks.len();
            &&& shown.status is None && shown.fetch_stats is None && !shown.wrap
            &&& shown.content == pane_lines(app, regions.content.width, regions.content.height)
            &&& app.notice matches Some(notice) ==> shown.bottom == BottomView::Footer(notice)
            &&& app.notice is None && n == 1 ==> (shown.bottom matches BottomView::Footer(text)
                && decimal(1) + " bookmark"@ == text.skip(
                text.len() - (decimal(1) + " bookmark"@).len(),
            ))
            &&& app.notice is None && n > 1 ==> (shown.bottom matches BottomView::Footer(text)
                && decimal(n) + " bookmarks"@ == text.skip(
                text.len() - (decimal(n) + " bookmarks"@).len(),
            ))
        }),
{
    let n = app.session.bookmarks.len();
    if app.notice is None {
        let text = bookmarks_footer(app);
        let tail = decimal(n) + if n == 1 {
            " bookmark"@
        } else {
            " bookmarks"@
        };
        assert(tail =~= text.skip(text.len() - tail.len()));
    }
}

/// Where the bookmark's name, time and message stand in its entry, and that
/// the highlight is on all of the highlighted one's rows and on no other's.
pub proof fn law_entries_say_what_is_bookmarked(
    bookmark: BookmarkView,
    cursor: Option<u128>,
    rest: int,
    end: int,
    i: int,
)
    requires
        0 <= i < end,
        rest >= 4,
    ensures
        ({
            let columns = columns_of(bookmark, rest);
            let rows = entry_rows(bookmark, cursor, rest, end);
            &&& rows.len() == end
            &&& rows[i].style == Emphasis::Selected <==> cursor == Some(bookmark.id)
            &&& compact_row(bookmark, cursor).style == Emphasis::Selected <==> cursor == Some(
                bookmark.id,
            )
            &&& columns.time == bookmark.draft.display_time.date_and_time()
            &&& bookmark.name matches Some(name) ==> columns.name_rows == crate::text::wrapped(
                name,
                rest / 2,
            )
            &&& bookmark.draft.display_name.len() > 0 && bookmark.draft.display_msg.len() > 0
                ==> columns.msg_rows == crate::text::wrapped(
                bookmark.draft.display_name + ": "@ + bookmark.draft.display_msg,
                rest - rest / 2,
            )
            &&& bookmark.draft.display_name.len() == 0 ==> columns.msg_rows
                == crate::text::wrapped(bookmark.draft.display_msg, rest - rest / 2)
            &&& columns.created == "bookmark created at "@ + bookmark.created_at.date_and_time()
            &&& columns.rows() > columns.msg_rows.len()
            &&& columns.rows() >= columns.name_rows.len()
            &&& i < columns.msg_rows.len() ==> columns.msg_rows[i]
                == rows[i].spans[0].content.skip(
                rows[i].spans[0].content.len() - columns.msg_rows[i].len(),
            )
            &&& i == columns.msg_rows.len() ==> columns.created == rows[i].spans[0].content.skip(
                rows[i].spans[0].content.len() - columns.created.len(),
            )
        }),
{
    let columns = columns_of(bookmark, rest);
    let rows = entry_rows(bookmark, cursor, rest, end);
    let text = rows[i].spans[0].content;
    if i < columns.msg_rows.len() {
        assert(columns.msg_rows[i] =~= text.skip(text.len() - columns.msg_rows[i].len()));
    }
    if i == columns.msg_rows.len() {
        assert(columns.created =~= text.skip(text.len() - columns.created.len()));
    }
}

/// How many records stand in view, from the first to the last line shown.
pub proof fn law_status_counts_the_records_in_view(
    tab: TabView,
    top: int,
    bottom: int,
    status: ViewStatus,
)
    requires
        0 <= top < bottom <= tab.content.event_for_line.len(),
        tab.kind == TabKind::Stream,
    ensures
        ({
            let n = tab.content.event_for_line[bottom - 1] - tab.content.event_for_line[top] + 1;
            let line = status_line(tab, top, bottom, status);
            let begin = "Showing "@ + decimal(n as nat) + " records"@;
            let end = tab.content.formatted.len() > 0 && bottom == tab.content.formatted.len() && (
            !tab.live || status.forward_eof);
            &&& records_shown(tab.content, top, bottom) == n
            &&& status.offset is None || status.total_bytes == 0 ==> line == begin + if end {
                "  ·  (end of stream)"@
            } else if status.offset == Some(0u64) && n > 0 {
                "  ·  (beginning of stream)"@
            } else {
                Seq::empty()
            }
        }),
{
    let n = tab.content.event_for_line[bottom - 1] - tab.content.event_for_line[top] + 1;
    let begin = "Showing "@ + decimal(n as nat) + " records"@;
    assert(begin + Seq::<char>::empty() =~= begin);
}

/// Under a tab a notice comes first; while selecting, the footer tells what
/// Enter will do and which record of how many is selected.
pub proof fn law_footer_tells_what_is_going_on(app: AppView, top: int, bottom: int)
    requires
        app.active < app.tabs.len(),
    ensures
        app.notice matches Some(notice) ==> tab_footer(app, top, bottom) == notice,
        app.notice is None ==> (app.tabs[app.active as int].select matches Some(sel)
            ==> tab_footer(app, top, bottom) == (match sel.action {
            SelectionAction::Exclude => {
                "exclude: j/k select · Enter exclude msg · Esc cancel · entry "@
            },
            SelectionAction::Include => {
                "include: j/k select · Enter include msg · Esc cancel · entry "@
            },
            SelectionAction::Bookmark => {
                "bookmark: j/k select · Enter name · Esc cancel · entry "@
            },
        }) + decimal((sel.event_idx + 1) as nat) + "/"@ + decimal(
            app.tabs[app.active as int].content.events.len(),
        )),
{
}

/// The search prompt shows its mark and what is typed, with the cursor behind
/// what stands in front of it, and below it what is wrong with the pattern.
pub proof fn law_prompt_shows_what_is_typed(
    editor: EditorView,
    direction: SearchDirection,
    error: Option<Seq<char>>,
    area: Area,
)
    requires
        area.x + 1 + encode_utf8(editor.before).len() <= area.x + area.width <= u16::MAX,
        area.y < u16::MAX,
    ensures
        ({
            let prompt = prompt_in(editor, direction, error, area);
            &&& prompt.text == seq![
                if direction == SearchDirection::Forward {
                    '/'
                } else {
                    '?'
                },
            ] + (editor.before + editor.after)
            &&& prompt.cursor.0 == area.x + 1 + encode_utf8(editor.before).len()
            &&& prompt.cursor.1 == area.y
            &&& prompt.error is Some <==> error is Some && area.height > 1
            &&& prompt.error matches Some((below, text)) ==> Some(text) == error && below.y
                == area.y + 1 && below.height == 1 && below.x == area.x && below.width
                == area.width
        }),
{
}

/// The regions of a screen that is tall enough lie one below the other and
/// fill it: a line of tabs, the content, a line of figures where they are
/// shown, a line of status where a tab is, and the bottom.
pub proof fn law_regions_fill_the_screen(app: AppView, area: Area)
    requires
        area.on_screen(),
        area.height >= 6,
    ensures
        ({
            let regions = regions_in(app, area);
            let pane = app.session.bookmarks.len() > 0 && app.active == app.tabs.len();
            &&& regions.tabs.y == area.y && regions.tabs.height == 1
            &&& regions.content.y == regions.tabs.y + regions.tabs.height
            &&& regions.fetch_stats.y == regions.content.y + regions.content.height
            &&& regions.status.y == regions.fetch_stats.y + regions.fetch_stats.height
            &&& regions.bottom.y == regions.status.y + regions.status.height
            &&& regions.bottom.y + regions.bottom.height == area.y + area.height
            &&& regions.content.height > 0
            &&& regions.status.height == if pane {
                0int
            } else {
                1
            }
            &&& regions.fetch_stats.height == if !pane && app.show_fetch_stats {
                1int
            } else {
                0
            }
            &&& regions.bottom.height == if (app.dialog matches Some(
                DialogView::Search { parse_error: Some(_), .. },
            )) {
                2int
            } else {
                1
            }
            &&& regions.tabs.x == area.x && regions.tabs.width == area.width
            &&& regions.content.x == area.x && regions.content.width == area.width
            &&& regions.bottom.x == area.x && regions.bottom.width == area.width
        }),
{
}

/// The rows of the startup dialog: the sessions found, then the two new ones;
/// the one marked is the one that Enter would choose.
pub proof fn law_startup_marks_the_choice(dialog: StartupView, i: int)
    requires
        dialog.wf(),
        0 <= i < dialog.matches.len(),
    ensures
        ({
            let rows = startup_rows(dialog);
            let n = dialog.matches.len() as int;
            &&& rows[i].1 == Emphasis::Selected <==> dialog.selected == i
            &&& rows[n + 1].0 == "   Start a new saved session"@
            &&& rows[n + 1].1 == Emphasis::Selected <==> dialog.selected == n
            &&& rows[n + 2].0 == "   Start a transient session (no file written)"@
            &&& rows[n + 2].1 == Emphasis::Selected <==> dialog.selected == n + 1
            &&& rows[n].1 == Emphasis::Plain
        }),
{
}

/// Where no session was found, the two new ones are the first rows.
pub proof fn law_startup_without_sessions_offers_new_ones(dialog: StartupView)
    requires
        dialog.matches.len() == 0,
    ensures
        ({
            let rows = startup_rows(dialog);
            &&& rows[0].0 == "   Start a new saved session"@
            &&& rows[0].1 == Emphasis::Selected <==> dialog.selected == 0
            &&& rows[1].0 == "   Start a transient session (no file written)"@
            &&& rows[1].1 == Emphasis::Selected <==> dialog.selected == 1
        }),
{
}

/// The keys that scroll the help: by a line, by half a page and by a page, no
/// further up than the start.
pub proof fn law_help_scrolls(scroll: u16, key: KeyEvent)
    requires
        scroll <= 60_000,
    ensures
        key.bare(KeyCode::Char('j')) || key.bare(KeyCode::Down) ==> help_key(scroll, key) == scroll
            + 1,
        key.bare(KeyCode::Char('k')) || key.bare(KeyCode::Up) ==> help_key(scroll, key) == if scroll
            >= 1 {
            scroll - 1
        } else {
            0
        },
        key.bare(KeyCode::Char(' ')) || key.bare(KeyCode::PageDown) ==> help_key(scroll, key)
            == scroll + 10,
        key.bare(KeyCode::PageUp) ==> help_key(scroll, key) == if scroll >= 10 {
            scroll - 10
        } else {
            0
        },
        key.control(KeyCode::Char('d')) ==> help_key(scroll, key) == scroll + 5,
        key.control(KeyCode::Char('u')) ==> help_key(scroll, key) == if scroll >= 5 {
            scroll - 5
        } else {
            0
        },
{
}

/// Where the cursor stands among rows of `width`: the rows in front of it and
/// the cells before it make up all that stands in front of it.
pub proof fn law_cursor_stands_behind_what_is_before_it(cursor: int, len: int, width: int)
    requires
        0 <= cursor <= len,
        0 < width,
    ensures
        ({
            let (row, column) = cursor_cell(cursor, len, width);
            &&& row * width + column == cursor
            &&& 0 <= column <= width && 0 <= row
            &&& column == width ==> cursor == len
        }),
{
    vstd::arithmetic::div_mod::lemma_fundamental_div_mod(cursor, width);
    vstd::arithmetic::div_mod::lemma_mod_bound(cursor, width);
    vstd::arithmetic::div_mod::lemma_div_pos_is_pos(cursor, width);
    let q = cursor / width;
    assert(q * width == width * q) by (nonlinear_arith);
    assert((q - 1) * width + width == q * width) by (nonlinear_arith);
    if cursor > 0 && cursor % width == 0 {
        assert(q >= 1) by (nonlinear_arith)
            requires
                width * q == cursor,
                cursor > 0,
                width > 0,
        ;
    }
}

/// The texts of lines of one span each.
pub open spec fn line_texts(lines: Seq<LineView>) -> Seq<Seq<char>> {
    lines.map_values(|l: LineView| l.spans[0].content)
}

/// A dialog with an editor shows what stands in the editor, whole, and what is
/// wrong with it where there is room below.
pub proof fn law_dialogs_show_their_text(
    editor: EditorView,
    error: Option<Seq<char>>,
    draft: crate::session::DraftView,
    area: Area,
)
    ensures
        ({
            let filter = DialogView::Filter { editor, parse_error: error };
            let rename = DialogView::Rename { editor };
            let naming = DialogView::BookmarkName { editor, draft };
            let text = editor.before + editor.after;
            &&& joined(line_texts(dialog_popup(filter, area).body)) == text
            &&& joined(line_texts(dialog_popup(rename, area).body)) == text
            &&& joined(line_texts(dialog_popup(naming, area).body)) == text
            &&& dialog_popup(filter, area).error matches Some((below, shown)) ==> Some(shown)
                == error
            &&& error is Some && error_part(filter, area).height > 0 ==> dialog_popup(
                filter,
                area,
            ).error is Some
            &&& dialog_popup(rename, area).error is None
            &&& dialog_popup(naming, area).error is None
            &&& dialog_popup(filter, area).cursor is Some
        }),
{
    let text = editor.before + editor.after;
    assert(text == editor.text());
    law_dialog_rows_rejoin(text, inside_width(area));
    let rows = dialog_rows(text, inside_width(area));
    let filter = DialogView::Filter { editor, parse_error: error };
    assert(line_texts(dialog_popup(filter, area).body) =~= rows);
    assert(line_texts(dialog_popup(DialogView::Rename { editor }, area).body) =~= rows);
    assert(line_texts(dialog_popup(DialogView::BookmarkName { editor, draft }, area).body) =~= rows);
}

/// The command dialog shows the whole command.
pub proof fn law_command_is_shown_whole(text: Seq<char>, area: Area)
    ensures
        joined(line_texts(dialog_popup(DialogView::SeeitCommand { text }, area).body)) == text,
{
    law_dialog_rows_rejoin(text, inside_width(area));
    let rows = dialog_rows(text, inside_width(area));
    assert(line_texts(dialog_popup(DialogView::SeeitCommand { text }, area).body) =~= rows);
}

/// The display dialog lists every choice once, marks those that hold, and
/// reverses the row under the cursor and no other.
pub proof fn law_display_dialog_marks_what_holds(opts: RenderOpts, cursor: usize)
    requires
        cursor < 8,
    ensures
        ({
            let lines = choice_lines(opts, cursor, 8);
            let one_of = |holds: bool|
                if holds {
                    "(•)"@
                } else {
                    "( )"@
                };
            let ticked = |holds: bool|
                if holds {
                    "[x]"@
                } else {
                    "[ ]"@
                };
            let shows = |i: int, item: int, mark: Seq<char>, text: Seq<char>|
                lines[i].spans[0].content == mark + " "@ + text && (lines[i].style
                    == Emphasis::Reversed <==> cursor == item);
            &&& lines.len() == 10
            &&& shows(0, 0, one_of(!opts.show_date), "short timestamp (no date)"@)
            &&& shows(1, 1, one_of(opts.show_date), "full date and time"@)
            &&& shows(3, 2, one_of(opts.hostname == HostnameDisplay::Short), "short hostname"@)
            &&& shows(4, 3, one_of(opts.hostname == HostnameDisplay::Full), "full hostname"@)
            &&& shows(5, 4, one_of(opts.hostname == HostnameDisplay::Hidden), "no hostname"@)
            &&& shows(7, 5, ticked(opts.show_pid), "pid"@)
            &&& shows(8, 6, ticked(opts.show_name), "name"@)
            &&& shows(9, 7, ticked(opts.show_extras), "show all other fields"@)
        }),
{
    reveal_with_fuel(choice_lines, 9);
}

/// In raw view a line is cut into rows of the screen's width, which rejoin to
/// it; each has the bar of the selection where the line has it.
pub proof fn law_raw_lines_are_cut_to_the_width(tab: TabView, line: int, width: u16)
    requires
        tab.search is None,
    ensures
        ({
            let rows = rows_of_line(tab, line, true, width);
            &&& joined(line_texts(rows)) == tab.content.formatted[line]
            &&& forall|i: int|
                0 <= i < rows.len() ==> {
                    &&& width > 0 ==> (#[trigger] rows[i]).spans[0].content.len() <= width
                    &&& rows[i].style == Emphasis::Selected <==> (tab.select matches Some(sel)
                        && line < tab.content.event_for_line.len()
                        && tab.content.event_for_line[line] == sel.event_idx)
                }
        }),
{
    let text = tab.content.formatted[line];
    let rows = rows_of_line(tab, line, true, width);
    let cut = crate::text::chunks(text, width as int);
    crate::text::law_column_chunks_rejoin(text, width as int);
    assert(line_texts(rows) =~= cut);
    assert forall|i: int| 0 <= i < rows.len() implies {
        &&& width > 0 ==> (#[trigger] rows[i]).spans[0].content.len() <= width
        &&& rows[i].style == Emphasis::Selected <==> (tab.select matches Some(sel) && line
            < tab.content.event_for_line.len() && tab.content.event_for_line[line]
            == sel.event_idx)
    } by {
        assert(rows[i].spans[0].content == cut[i]);
    }
}

/// On a narrow screen every bookmark has one row, in the order of the list,
/// with its time and its message, as far as there is room.
pub proof fn law_narrow_pane_lists_the_bookmarks(app: AppView, width: u16, height: u16, i: int)
    requires
        width < 34,
        0 <= i < app.flat().len(),
        i < height,
    ensures
        ({
            let rows = pane_lines(app, width, height);
            let bookmark = app.flat()[i];
            &&& rows.len() == if app.flat().len() <= height {
                app.flat().len() as int
            } else {
                height as int
            }
            &&& rows[i].spans[0].content == bookmark.draft.display_time.date_and_time() + " · "@
                + bookmark.draft.display_msg
            &&& rows[i].style == Emphasis::Selected <==> app.bookmark_cursor == Some(bookmark.id)
        }),
{
}

/// An entry's first row begins with the bookmark's time; under it that column
/// is blank.  The name's rows stand behind the time, and the message's last.
pub proof fn law_entries_begin_with_the_time(bookmark: BookmarkView, rest: int, i: int, k: int)
    requires
        rest >= 4,
        0 <= i,
        0 <= k,
    ensures
        ({
            let columns = columns_of(bookmark, rest);
            let row = columns.row(i, rest / 2);
            &&& i == 0 && k < columns.time.len() ==> row[k] == columns.time[k]
            &&& i > 0 && k < 24 ==> row[k] == ' '
            &&& i > 0 && i < columns.name_rows.len() && k < columns.name_rows[i].len() ==> row[27
                + k] == columns.name_rows[i][k]
        }),
{
    reveal_strlit(" · ");
}

/// A summary's status tells which of its rows stand in view.
pub proof fn law_summary_status_tells_the_rows(
    tab: TabView,
    top: int,
    bottom: int,
    status: ViewStatus,
)
    requires
        tab.kind == TabKind::Summary,
        !tab.live,
        0 <= top < bottom <= tab.content.formatted.len(),
    ensures
        ({
            let rows = "Showing summary rows "@ + decimal((top + 1) as nat) + "-"@ + decimal(
                bottom as nat,
            ) + " of "@ + decimal(tab.content.formatted.len());
            &&& bottom < tab.content.formatted.len() ==> status_line(tab, top, bottom, status)
                == rows
            &&& bottom == tab.content.formatted.len() ==> status_line(tab, top, bottom, status)
                == rows + "  ·  (end of summary)"@
        }),
{
}

/// Under a stream's tab the footer tells whether the further fields are shown,
/// and the time step.
pub proof fn law_footer_tells_the_settings(app: AppView, top: int, bottom: int)
    requires
        app.active < app.tabs.len(),
        app.notice is None,
        app.tabs[app.active as int].select is None,
        app.tabs[app.active as int].kind == TabKind::Stream,
        app.tabs[app.active as int].content.formatted.len() > 0,
    ensures
        ({
            let opts = app.session.streams[app.tabs[app.active as int].stream].opts;
            tab_footer(app, top, bottom) == "q quit · h help · f filter · F fields="@ + (
            if opts.show_extras {
                "on"@
            } else {
                "off"@
            }) + " · d display options · </> step="@ + crate::app::time_step(
                app.time_step_idx as int,
            ).0 + " · ^T new · ^W close"@
        }),
{
}

/// A session found at startup is listed by its number, id, last save and how
/// much it has, and by how it fits the files.
pub proof fn law_sessions_are_listed_by_number(dialog: StartupView, i: int)
    requires
        0 <= i < dialog.matches.len(),
        i < 9,
    ensures
        ({
            let (session, kind) = dialog.matches[i];
            startup_rows(dialog)[i].0 == decimal((i + 1) as nat) + "  Resume "@
                + crate::number::hex(session.id as nat, 8) + "  ("@
                + session.last_saved_at.date_and_second() + " UTC, "@ + decimal(
                session.streams.dom().len(),
            ) + " streams, "@ + decimal(session.sources.len()) + " sources, "@ + (match kind {
                crate::startup::MatchKind::Exact => "exact"@,
                crate::startup::MatchKind::Superset => "superset"@,
                crate::startup::MatchKind::Overlap => "overlap"@,
            }) + ")"@
        }),
{
}

/// The field of a dialog's editor has as many rows as its text takes, and
/// stands inside the border, with what is wrong below it.
pub proof fn law_editors_have_room_for_their_text(dialog: DialogView, area: Area)
    requires
        dialog.editor() is Some,
        encode_utf8(dialog.editor()->Some_0.text()).len() <= 0xffff,
    ensures
        ({
            let text = dialog.editor()->Some_0.text();
            let rows = super::popup::edit_rows(dialog, area) as int;
            let width = inside_width(area);
            let bytes = encode_utf8(text).len() as int;
            &&& rows * width >= bytes && rows >= 1
            &&& bytes > 0 ==> (rows - 1) * width < bytes
        }),
{
    let bytes = encode_utf8(dialog.editor()->Some_0.text()).len() as int;
    let width = inside_width(area);
    crate::text::law_rows_hold_the_line(bytes, width);
    let rows = super::popup::rows_for_bytes(bytes, width);
    assert(rows == visual_rows(bytes, width));
    assert(rows <= 0xffff) by {
        if bytes > 0 {
            assert(rows - 1 < bytes) by (nonlinear_arith)
                requires
                    (rows - 1) * width < bytes,
                    width >= 1,
                    rows >= 1,
            ;
        }
    }
}

/// The display, command and help popups lie inside the screen, and are as tall
/// as their lines and border, as far as there is room.
pub proof fn law_popups_are_as_tall_as_their_lines(
    opts: RenderOpts,
    cursor: usize,
    text: Seq<char>,
    area: Area,
)
    requires
        area.on_screen(),
        dialog_rows(text, inside_width(area)).len() < 0xff00,
    ensures
        ({
            let display = dialog_popup(DialogView::DisplayFields { draft: opts, cursor }, area);
            let command = dialog_popup(DialogView::SeeitCommand { text }, area);
            &&& area.x <= display.area.x && display.area.x + display.area.width <= area.x
                + area.width
            &&& area.y <= display.area.y && display.area.y + display.area.height <= area.y
                + area.height
            &&& display.area.height == display.body.len() + 2 || display.area.height == area.height
            &&& display.area.height <= display.body.len() + 2
            &&& area.x <= command.area.x && command.area.x + command.area.width <= area.x
                + area.width
            &&& area.y <= command.area.y && command.area.y + command.area.height <= area.y
                + area.height
            &&& command.area.height == command.body.len() + 2 || command.area.height == area.height
            &&& command.area.height <= command.body.len() + 2
            &&& display.cursor is None && command.cursor is None
            &&& display.error is None && command.error is None
            &&& display.body_area == display.area.bordered()
            &&& command.body_area == command.area.bordered()
        }),
{
    reveal_with_fuel(choice_lines, 9);
    let display = dialog_popup(DialogView::DisplayFields { draft: opts, cursor }, area);
    let command = dialog_popup(DialogView::SeeitCommand { text }, area);
    assert(display.body.len() <= 16);
    assert(command.body.len() == dialog_rows(text, inside_width(area)).len());
    lemma_part_fits(area.width, 50);
    lemma_part_fits(area.width, 70);
    crate::area::law_popups_are_centred(
        area,
        crate::area::percent_of(area.width, 50),
        crate::area::at_most_of(
            super::popup::cells(display.body.len() as int + 2),
            area.height,
        ),
    );
    crate::area::law_popups_are_centred(
        area,
        crate::area::percent_of(area.width, 70),
        crate::area::at_most_of(
            super::popup::sum_of_cells(super::popup::cells(command.body.len() as int), 2),
            area.height,
        ),
    );
}

proof fn lemma_part_fits(width: u16, percent: u16)
    requires
        percent <= 100,
    ensures
        crate::area::percent_of(width, percent) <= width,
{
    assert(width * percent <= width * 100) by (nonlinear_arith)
        requires
            percent <= 100,
    ;
}

/// The help popup shows the help from the line that it is scrolled to, or its
/// last page.
pub proof fn law_help_shows_from_its_scroll(scroll: u16, title: Seq<char>, area: Area, i: int)
    requires
        area.on_screen(),
        crate::help::help_lines(crate::help::help(), crate::help::keys_width(crate::help::help())).len() < 0xff00,
        0 <= i < super::popup::help_popup(scroll, title, area).body.len(),
    ensures
        ({
            let spans = crate::help::help_lines(
                crate::help::help(),
                crate::help::keys_width(crate::help::help()),
            );
            let shown = super::popup::help_popup(scroll, title, area);
            let height = shown.body_area.height as int;
            let start = if scroll + height <= spans.len() {
                scroll as int
            } else if spans.len() > height {
                spans.len() - height
            } else {
                0
            };
            &&& shown.body.len() <= height
            &&& shown.body[i].spans == seq![spans[start + i]]
        }),
{
}

/// Where the cursor of a dialog is drawn: in its row and column of the field.
pub proof fn law_dialog_cursor_is_drawn_in_its_cell(row: int, column: int, field: Area)
    requires
        field.on_screen(),
        0 <= row < field.height,
        0 <= column <= field.width,
    ensures
        super::popup::cursor_position((row, column), field).0 == field.x + column,
        super::popup::cursor_position((row, column), field).1 == field.y + row,
{
}

/// A dialog with an editor is as tall as its field, with a border and two rows
/// for what is wrong, as far as there is room; the field is as wide as the
/// popup inside its border.
pub proof fn law_editor_popups_hold_field_and_error(dialog: DialogView, area: Area)
    requires
        area.on_screen(),
        area.width >= 10,
        super::popup::edit_rows(dialog, area) < 0xff00,
        dialog.editor() is Some,
    ensures
        ({
            let popup = dialog_popup(dialog, area);
            let rows = super::popup::edit_rows(dialog, area) as int;
            &&& popup.area.height == if rows + 4 <= area.height {
                rows + 4
            } else {
                area.height as int
            }
            &&& area.x <= popup.area.x && popup.area.x + popup.area.width <= area.x + area.width
            &&& area.y <= popup.area.y && popup.area.y + popup.area.height <= area.y + area.height
            &&& inside_width(area) == popup.area.bordered().width
            &&& popup.body_area.width == inside_width(area)
            &&& popup.area.height >= 2 ==> popup.body_area.y == popup.area.y + 1
            &&& rows + 4 <= area.height ==> popup.body_area.height == rows
            &&& popup.error matches Some((below, _)) ==> below.y == popup.body_area.y
                + popup.body_area.height
        }),
{
    lemma_part_fits(area.width, 70);
    let width = crate::area::percent_of(area.width, 70);
    let height = crate::area::at_most_of(
        super::popup::sum_of_cells(super::popup::edit_rows(dialog, area), 4),
        area.height,
    );
    crate::area::law_popups_are_centred(area, width, height);
}

/// A bookmark without a name has none in its column.
pub proof fn law_unnamed_entries_have_no_name(bookmark: BookmarkView, rest: int)
    requires
        bookmark.name is None,
    ensures
        columns_of(bookmark, rest).name_rows == crate::text::wrapped(Seq::empty(), rest / 2),
{
}

/// How far a stream's view has come is told by the record at the top: its
/// offset, of how many bytes, and what part that is.
pub proof fn law_status_tells_how_far(
    tab: TabView,
    top: int,
    bottom: int,
    status: ViewStatus,
    offset: u64,
)
    requires
        0 <= top < bottom <= tab.content.event_for_line.len(),
        bottom < tab.content.formatted.len(),
        tab.kind == TabKind::Stream,
        status.offset == Some(offset),
        0 < offset,
        0 < status.total_bytes,
    ensures
        ({
            let n = tab.content.event_for_line[bottom - 1] - tab.content.event_for_line[top] + 1;
            let share = crate::double::count(offset as int).over(
                crate::double::count(status.total_bytes as int),
            ).times(crate::double::count(100));
            status_line(tab, top, bottom, status) == "Showing "@ + decimal(n as nat)
                + " records from byte offset "@ + crate::format::bytes_text(offset) + " of "@
                + crate::format::bytes_text(status.total_bytes) + " ("@ + decimal(
                share.scaled(1) as nat,
            ) + "%)"@
        }),
{
}

/// A dialog has a popup, but for the search prompt, which stands at the bottom.
pub proof fn law_dialogs_have_popups(
    dialog: DialogView,
    area: Area,
    popup: Option<super::popup::Popup>,
)
    ensures
        super::popup_for(None, area, popup) <==> popup is None,
        dialog is Search ==> (super::popup_for(Some(dialog), area, popup) <==> popup is None),
        !(dialog is Search) && super::popup_for(Some(dialog), area, popup) ==> popup is Some
            && popup->Some_0@ == dialog_popup(dialog, area),
{
}

/// Under a summary the footer tells which of its rows stand in view.
pub proof fn law_summary_footer_tells_the_rows(app: AppView, top: int, bottom: int)
    requires
        app.active < app.tabs.len(),
        app.notice is None,
        app.tabs[app.active as int].select is None,
        app.tabs[app.active as int].kind == TabKind::Summary,
    ensures
        ({
            let total = app.tabs[app.active as int].content.formatted.len();
            &&& total == 0 ==> tab_footer(app, top, bottom) == "q quit · h help · 0/0"@
            &&& total > 0 ==> tab_footer(app, top, bottom) == "q quit · h help · "@ + decimal(
                (top + 1) as nat,
            ) + "-"@ + decimal(bottom as nat) + " of "@ + decimal(total)
        }),
{
}

/// The help has a section for each thing that keys are for.
pub proof fn law_help_has_a_section_for_each_purpose()
    ensures
        ({
            let sections = crate::help::help();
            &&& sections.len() == 7
            &&& sections[0].title == "Navigation"@ && sections[0].items.len() == 11
            &&& sections[1].title == "Search"@ && sections[1].items.len() == 5
            &&& sections[2].title == "Filtering & selection"@ && sections[2].items.len() == 4
            &&& sections[3].title == "Display"@ && sections[3].items.len() == 5
            &&& sections[4].title == "Tabs"@ && sections[4].items.len() == 6
            &&& sections[5].title == "Other"@ && sections[5].items.len() == 3
            &&& sections[6].title == "Bookmarks pane"@ && sections[6].items.len() == 3
        }),
{
}

} // verus!
