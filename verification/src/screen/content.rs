//! The lines of a tab, and what is said of them below.

use super::{line_views, plain_line, push_line, row_style, style_of_row, Line, LineView};
use crate::app::{time_step, App, AppView};
use crate::format::{bytes_text, format_bytes, percentage};
use crate::number::{decimal, decimal_text, wide_decimal_text};
use crate::pattern::regex_find_all;
use crate::rows::ContentView;
use crate::search::{highlight_line, highlighted};
use crate::session::TabKind;
use crate::tab::{SelectionAction, Tab, TabView};
use crate::text::{chunks, column_chunks, views, visual_rows, visual_rows_for};
use vstd::prelude::*;

verus! {

/// The first line that no longer fits, where the lines from `from` on follow
/// what takes `used` rows of `height`.
pub open spec fn visible_end(
    lines: Seq<Seq<char>>,
    from: int,
    used: int,
    height: int,
    width: int,
) -> int
    decreases lines.len() - from,
{
    if from < 0 || from >= lines.len() || used >= height {
        from
    } else {
        visible_end(
            lines,
            from + 1,
            used + visual_rows(lines[from].len() as int, width),
            height,
            width,
        )
    }
}

/// The first line below the viewport.
pub fn last_visible(lines: &Vec<String>, top: usize, height: u16, width: u16) -> (bottom: usize)
    requires
        top <= lines@.len(),
    ensures
        bottom == visible_end(views(lines@), top as int, 0, height as int, width as int),
        top <= bottom <= lines@.len(),
{
    let ghost all = views(lines@);
    let mut bottom: usize = top;
    let mut used: usize = 0;
    while bottom < lines.len() && used < height as usize
        invariant
            top <= bottom <= lines@.len(),
            all == views(lines@),
            visible_end(all, top as int, 0, height as int, width as int) == visible_end(
                all,
                bottom as int,
                used as int,
                height as int,
                width as int,
            ),
        decreases lines@.len() - bottom,
    {
        assert(all[bottom as int] == lines@[bottom as int]@);
        let rows: usize = visual_rows_for(lines[bottom].as_str(), width);
        let ghost exact = used + rows;
        let next: usize = used.saturating_add(rows);
        proof {
            if exact > usize::MAX {
                assert(visible_end(all, bottom + 1, exact, height as int, width as int)
                    == bottom + 1);
                assert(visible_end(all, bottom + 1, next as int, height as int, width as int)
                    == bottom + 1);
            }
        }
        used = next;
        bottom = bottom + 1;
    }
    bottom
}

/// What a live view knows of its place, for the status line.
#[derive(Debug, Clone, Copy, PartialEq, Eq, Structural)]
pub struct ViewStatus {
    /// no record follows those in view
    pub forward_eof: bool,
    /// byte offset of the record at the top, over all sources
    pub offset: Option<u64>,
    /// bytes of all sources that the filter lets take part
    pub total_bytes: u64,
}

/// Whether the last line there is stands in view.
pub open spec fn at_end(tab: TabView, bottom: int, forward_eof: bool) -> bool {
    tab.content.formatted.len() > 0 && bottom == tab.content.formatted.len() && (!tab.live
        || forward_eof)
}

/// The records that the lines from `top` to `bottom` show.
pub open spec fn records_shown(content: ContentView, top: int, bottom: int) -> int {
    if top < bottom <= content.event_for_line.len() {
        content.event_for_line[bottom - 1] - content.event_for_line[top] + 1
    } else {
        0
    }
}

/// The status line of a tab.
pub open spec fn status_line(tab: TabView, top: int, bottom: int, status: ViewStatus) -> Seq<char> {
    let total = tab.content.formatted.len();
    let end = at_end(tab, bottom, status.forward_eof);
    if tab.kind == TabKind::Summary {
        let rows = if total == 0 {
            "Summary: no rows"@
        } else {
            "Showing summary rows "@ + decimal((top + 1) as nat) + "-"@ + decimal(bottom as nat)
                + " of "@ + decimal(total)
        };
        if end {
            rows + "  ·  (end of summary)"@
        } else {
            rows
        }
    } else {
        let shown = records_shown(tab.content, top, bottom);
        let records = match status.offset {
            Some(offset) => if status.total_bytes > 0 {
                "Showing "@ + decimal(shown as nat) + " records from byte offset "@ + bytes_text(
                    offset,
                ) + " of "@ + bytes_text(status.total_bytes) + " ("@ + decimal(
                    percentage(offset, status.total_bytes).scaled(1) as nat,
                ) + "%)"@
            } else {
                "Showing "@ + decimal(shown as nat) + " records"@
            },
            None => "Showing "@ + decimal(shown as nat) + " records"@,
        };
        if end {
            records + "  ·  (end of stream)"@
        } else if status.offset == Some(0u64) && shown > 0 {
            records + "  ·  (beginning of stream)"@
        } else {
            records
        }
    }
}

/// The status line of a tab: what is in view, and where it stands in the
/// stream.
pub fn format_user_status(tab: &Tab, top: usize, bottom: usize, status: ViewStatus) -> (line:
    String)
    requires
        tab.wf(),
        bottom <= tab@.content.formatted.len(),
    ensures
        line@ == status_line(tab@, top as int, bottom as int, status),
{
    let total: usize = tab.content.formatted.len();
    assert(total == tab@.content.formatted.len());
    let end = total > 0 && bottom == total && (!tab.live || status.forward_eof);
    if tab.kind == TabKind::Summary {
        let mut line = if total == 0 {
            "Summary: no rows".to_owned()
        } else {
            let mut rows = "Showing summary rows ".to_owned();
            let first = wide_decimal_text(top as u128 + 1);
            rows.append(first.as_str());
            rows.append("-");
            let last = decimal_text(bottom as u64);
            rows.append(last.as_str());
            rows.append(" of ");
            let all = decimal_text(total as u64);
            rows.append(all.as_str());
            rows
        };
        if end {
            line.append("  ·  (end of summary)");
        }
        return line;
    }
    let lines = &tab.content.event_for_line;
    let shown: usize = if top < bottom && bottom <= lines.len() {
        assert(tab@.content.event_for_line[top as int] <= tab@.content.event_for_line[bottom - 1]);
        lines[bottom - 1] - lines[top] + 1
    } else {
        0
    };
    let mut line = "Showing ".to_owned();
    let count = decimal_text(shown as u64);
    line.append(count.as_str());
    line.append(" records");
    if let Some(offset) = status.offset {
        if status.total_bytes > 0 {
            proof {
                reveal_strlit(" records");
                reveal_strlit(" records from byte offset ");
                reveal_strlit(" from byte offset ");
                assert(" records from byte offset "@ =~= " records"@ + " from byte offset "@);
            }
            line.append(" from byte offset ");
            let here = format_bytes(offset);
            line.append(here.as_str());
            line.append(" of ");
            let whole = format_bytes(status.total_bytes);
            line.append(whole.as_str());
            line.append(" (");
            let share = crate::format::percent(offset, status.total_bytes);
            line.append(share.as_str());
            line.append("%)");
        }
    }
    if end {
        line.append("  ·  (end of stream)");
    } else if status.offset == Some(0u64) && shown > 0 {
        line.append("  ·  (beginning of stream)");
    }
    assert(line@ =~= status_line(tab@, top as int, bottom as int, status));
    line
}

/// Whether a line belongs to the selected record.
pub open spec fn is_selected(tab: TabView, line: int) -> bool {
    tab.select matches Some(sel) && line < tab.content.event_for_line.len()
        && tab.content.event_for_line[line] == sel.event_idx
}

/// One row of a line, with what is searched for marked.
pub open spec fn body_row(tab: TabView, text: Seq<char>, selected: bool) -> LineView {
    match tab.search {
        Some(search) => LineView {
            spans: highlighted(text, regex_find_all(search.pattern, text)),
            style: row_style(selected),
        },
        None => plain_line(text, row_style(selected)),
    }
}

/// The rows of a line.  A raw line is cut at the column, so that the rows
/// joined give it back.
pub open spec fn rows_of_line(tab: TabView, line: int, raw: bool, width: u16) -> Seq<LineView> {
    let text = tab.content.formatted[line];
    let cut = if raw {
        chunks(text, width as int)
    } else {
        seq![text]
    };
    cut.map_values(|c: Seq<char>| body_row(tab, c, is_selected(tab, line)))
}

/// The rows of the lines from `top` to `bottom`.
pub open spec fn body_rows(tab: TabView, top: int, bottom: int, raw: bool, width: u16) -> Seq<
    LineView,
>
    decreases bottom - top,
{
    if bottom <= top {
        Seq::empty()
    } else {
        body_rows(tab, top, bottom - 1, raw, width) + rows_of_line(tab, bottom - 1, raw, width)
    }
}

fn one_row(tab: &Tab, text: &str, selected: bool) -> (row: Line)
    ensures
        row@ == body_row(tab@, text@, selected),
{
    match &tab.search {
        Some(search) => Line {
            spans: highlight_line(text, &search.pattern),
            style: style_of_row(selected),
        },
        None => Line::plain(text.to_owned(), style_of_row(selected)),
    }
}

fn push_rows(rows: &mut Vec<Line>, tab: &Tab, line: usize, raw: bool, width: u16)
    requires
        line < tab@.content.formatted.len(),
    ensures
        line_views(final(rows)@) == line_views(old(rows)@) + rows_of_line(
            tab@,
            line as int,
            raw,
            width,
        ),
{
    let text = tab.content.formatted[line].as_str();
    assert(tab@.content.formatted[line as int] == text@);
    let selected = match tab.select {
        Some(sel) => line < tab.content.event_for_line.len() && tab.content.event_for_line[line]
            == sel.event_idx,
        None => false,
    };
    assert(selected == is_selected(tab@, line as int));
    let ghost start = line_views(rows@);
    let ghost all = rows_of_line(tab@, line as int, raw, width);
    if raw {
        let cut = column_chunks(text, width);
        let ghost texts = chunks(text@, width as int);
        let mut i: usize = 0;
        assert(start + all.take(0) =~= start);
        while i < cut.len()
            invariant
                i <= cut@.len(),
                texts == cut@.map_values(|c: &str| c@),
                all == texts.map_values(|c: Seq<char>| body_row(tab@, c, selected)),
                line_views(rows@) == start + all.take(i as int),
            decreases cut@.len() - i,
        {
            assert(texts[i as int] == cut@[i as int]@);
            let row = one_row(tab, cut[i], selected);
            push_line(rows, row);
            assert(start + all.take(i + 1) =~= (start + all.take(i as int)).push(all[i as int]));
            i = i + 1;
        }
        assert(all.take(i as int) =~= all);
    } else {
        let row = one_row(tab, text, selected);
        push_line(rows, row);
        assert(all =~= seq![body_row(tab@, text@, selected)]);
        assert(line_views(rows@) =~= start + all);
    }
}

/// The rows of the lines in view.
pub fn body_lines(tab: &Tab, top: usize, bottom: usize, raw: bool, width: u16) -> (rows: Vec<Line>)
    requires
        top <= bottom <= tab@.content.formatted.len(),
    ensures
        line_views(rows@) == body_rows(tab@, top as int, bottom as int, raw, width),
{
    let mut rows: Vec<Line> = Vec::new();
    let mut i: usize = top;
    assert(line_views(rows@) =~= body_rows(tab@, top as int, top as int, raw, width));
    while i < bottom
        invariant
            top <= i <= bottom <= tab@.content.formatted.len(),
            line_views(rows@) == body_rows(tab@, top as int, i as int, raw, width),
        decreases bottom - i,
    {
        push_rows(&mut rows, tab, i, raw, width);
        i = i + 1;
    }
    rows
}

/// "on" or "off".
pub open spec fn on_off(on: bool) -> Seq<char> {
    if on {
        "on"@
    } else {
        "off"@
    }
}

/// The footer while a record is being selected.
pub open spec fn selection_footer(action: SelectionAction, event: int, total: nat) -> Seq<char> {
    let hint = match action {
        SelectionAction::Exclude => {
            "exclude: j/k select · Enter exclude msg · Esc cancel · entry "@
        },
        SelectionAction::Include => {
            "include: j/k select · Enter include msg · Esc cancel · entry "@
        },
        SelectionAction::Bookmark => {
            "bookmark: j/k select · Enter name · Esc cancel · entry "@
        },
    };
    hint + decimal((event + 1) as nat) + "/"@ + decimal(total)
}

/// The footer over a tab: the notice if there is one, else the keys that
/// matter there.
pub open spec fn tab_footer(app: AppView, top: int, bottom: int) -> Seq<char> {
    let tab = app.active_tab();
    let total = tab.content.formatted.len();
    let step = time_step(app.time_step_idx as int).0;
    if app.notice is Some {
        app.notice->Some_0
    } else if tab.select is Some {
        let sel = tab.select->Some_0;
        selection_footer(sel.action, sel.event_idx as int, tab.content.events.len())
    } else if tab.kind == TabKind::Summary {
        if total == 0 {
            "q quit · h help · 0/0"@
        } else {
            "q quit · h help · "@ + decimal((top + 1) as nat) + "-"@ + decimal(bottom as nat)
                + " of "@ + decimal(total)
        }
    } else {
        "q quit · h help · f filter · F fields="@ + on_off(app.active_stream().opts.show_extras)
            + " · d display options · </> step="@ + step + if total == 0 {
            " · x/X exclude/include · b bookmark · ^T new · S summary · ^W close · r rename"@
        } else {
            " · ^T new · ^W close"@
        }
    }
}

/// The footer over a tab.
pub fn footer_over_tab(app: &App, top: usize, bottom: usize) -> (line: String)
    requires
        app.wf(),
        app@.active < app@.tabs.len(),
    ensures
        line@ == tab_footer(app@, top as int, bottom as int),
{
    let tab = &app.tabs[app.active];
    assert(app@.active_tab() == tab@);
    if let Some(notice) = &app.notice {
        return notice.clone();
    }
    let total: usize = tab.content.formatted.len();
    assert(total == tab@.content.formatted.len());
    if let Some(sel) = tab.select {
        let mut line = match sel.action {
            SelectionAction::Exclude => {
                "exclude: j/k select · Enter exclude msg · Esc cancel · entry ".to_owned()
            },
            SelectionAction::Include => {
                "include: j/k select · Enter include msg · Esc cancel · entry ".to_owned()
            },
            SelectionAction::Bookmark => {
                "bookmark: j/k select · Enter name · Esc cancel · entry ".to_owned()
            },
        };
        let entry = wide_decimal_text(sel.event_idx as u128 + 1);
        line.append(entry.as_str());
        line.append("/");
        let events: usize = tab.content.events.len();
        assert(events == tab@.content.events.len());
        let count = decimal_text(events as u64);
        line.append(count.as_str());
        return line;
    }
    if tab.kind == TabKind::Summary {
        if total == 0 {
            return "q quit · h help · 0/0".to_owned();
        }
        let mut line = "q quit · h help · ".to_owned();
        let first = wide_decimal_text(top as u128 + 1);
        line.append(first.as_str());
        line.append("-");
        let last = decimal_text(bottom as u64);
        line.append(last.as_str());
        line.append(" of ");
        let all = decimal_text(total as u64);
        line.append(all.as_str());
        return line;
    }
    let mut line = "q quit · h help · f filter · F fields=".to_owned();
    if app.active_stream().show_extras {
        line.append("on");
    } else {
        line.append("off");
    }
    line.append(" · d display options · </> step=");
    line.append(app.current_step_label());
    if total == 0 {
        line.append(" · x/X exclude/include · b bookmark · ^T new · S summary · ^W close · r rename");
    } else {
        line.append(" · ^T new · ^W close");
    }
    line
}

} // verus!
