//! The startup dialog on the screen.

use super::popup::{as_cells, cells, Popup, PopupView};
use super::{line_views, plain_line, push_line, row_style, style_of_row, Line, LineView};
use crate::area::{at_most_of, popup_area_with_width, Area};
use crate::format::{push_run, run_of};
use crate::number::{decimal, decimal_text, hex};
use crate::search::Emphasis;
use crate::session::{list_sources, stream_count, SessionView};
use crate::startup::{kind_text, match_kind_label, MatchKind, SessionMatch, StartupDialog, StartupView};
use vstd::prelude::*;

verus! {

/// The columns that `ratatui::text::Line::width` counts in a text.
pub uninterp spec fn ratatui_width(text: Seq<char>) -> nat;

/// Counts the columns of a text with `ratatui::text::Line::width`.  The
/// count is a function of the text alone.
#[verifier::external_body]
fn columns(text: &str) -> (width: usize)
    ensures
        width == ratatui_width(text@),
{
    ratatui::text::Line::raw(text).width()
}

/// The row of a candidate: its shortcut, and what is known of the session.
pub open spec fn candidate_row(i: int, session: SessionView, kind: MatchKind) -> Seq<char> {
    decimal(
        if i < 9 {
            (i + 1) as nat
        } else {
            9
        },
    ) + "  Resume "@ + hex(session.id as nat, 8) + "  ("@
        + session.last_saved_at.date_and_second() + " UTC, "@ + decimal(
        session.streams.dom().len(),
    ) + " streams, "@ + decimal(session.sources.len()) + " sources, "@ + kind_text(kind) + ")"@
}

/// The rows of the first candidates.
pub open spec fn candidate_rows(dialog: StartupView, end: int) -> Seq<(Seq<char>, Emphasis)> {
    Seq::new(
        if end > 0 {
            end as nat
        } else {
            0
        },
        |i: int|
            (
                candidate_row(i, dialog.matches[i].0, dialog.matches[i].1),
                row_style(dialog.selected == i),
            ),
    )
}

/// The rows of the dialog: the candidates, set off by a rule where there are
/// any, the two kinds of new session, and the keys.
pub open spec fn startup_rows(dialog: StartupView) -> Seq<(Seq<char>, Emphasis)> {
    let n = dialog.matches.len() as int;
    let found = candidate_rows(dialog, n);
    let rule = if n > 0 {
        found.push((run_of('─', 60), Emphasis::Plain))
    } else {
        found
    };
    rule.push(("   Start a new saved session"@, row_style(dialog.selected == n))).push(
        (
            "   Start a transient session (no file written)"@,
            row_style(dialog.selected == n + 1),
        ),
    ).push((Seq::empty(), Emphasis::Plain)).push(
        ("j/k or ↑/↓ navigate · enter confirm · esc quit"@, Emphasis::Plain),
    )
}

/// The columns of the widest row.
pub open spec fn widest_row(rows: Seq<(Seq<char>, Emphasis)>) -> nat
    decreases rows.len(),
{
    if rows.len() == 0 {
        0
    } else {
        let before = widest_row(rows.drop_last());
        if ratatui_width(rows.last().0) > before {
            ratatui_width(rows.last().0)
        } else {
            before
        }
    }
}

/// The lines of the rows.
pub open spec fn row_lines(rows: Seq<(Seq<char>, Emphasis)>) -> Seq<LineView> {
    rows.map_values(|r: (Seq<char>, Emphasis)| plain_line(r.0, r.1))
}

/// The middle of the area, as large as that many rows and columns with a
/// border and a margin, no larger than the area.
pub open spec fn framed(rows: int, widest: int, area: Area) -> Area {
    area.centred(
        at_most_of(cells(widest + 4), area.width),
        at_most_of(cells(rows + 2), area.height),
    )
}

/// Where a dialog of that many rows and columns goes.
pub fn startup_area(rows: usize, widest: usize, area: Area) -> (popup: Area)
    requires
        area.on_screen(),
    ensures
        popup == framed(rows as int, widest as int, area),
        popup.on_screen(),
{
    let height: u16 = as_cells(rows.saturating_add(2));
    let width: u16 = as_cells(widest.saturating_add(4));
    popup_area_with_width(area, width, height)
}

/// The startup dialog in the middle of the area, given the columns of its
/// widest row.
pub open spec fn startup_popup(dialog: StartupView, widest: nat, area: Area) -> PopupView {
    let rows = startup_rows(dialog);
    let popup = framed(rows.len() as int, widest as int, area);
    PopupView {
        area: popup,
        title: if dialog.matches.len() == 0 {
            " seer — no saved sessions match these files "@
        } else {
            " seer — saved sessions for these files "@
        },
        body_area: popup.bordered(),
        body: row_lines(rows),
        cursor: None,
        error: None,
    }
}

fn candidate_text(i: usize, found: &SessionMatch) -> (text: String)
    ensures
        text@ == candidate_row(i as int, found.session@, found.kind),
{
    let shortcut: u64 = if i < 9 {
        i as u64 + 1
    } else {
        9
    };
    let mut text = decimal_text(shortcut);
    text.append("  Resume ");
    let id = found.session.id.to_text();
    text.append(id.as_str());
    text.append("  (");
    let time = found.session.last_saved_at.to_second_text();
    text.append(time.as_str());
    text.append(" UTC, ");
    let streams = decimal_text(stream_count(&found.session.streams) as u64);
    text.append(streams.as_str());
    text.append(" streams, ");
    let list = list_sources(&found.session.sources);
    assert(list@.len() == found.session@.sources.len());
    let sources = decimal_text(list.len() as u64);
    text.append(sources.as_str());
    text.append(" sources, ");
    text.append(match_kind_label(found.kind));
    text.append(")");
    text
}

/// The rows being put together, with the columns of the widest.
struct RowBuilder {
    lines: Vec<Line>,
    widest: usize,
}

impl RowBuilder {
    spec fn holds(self, rows: Seq<(Seq<char>, Emphasis)>) -> bool {
        line_views(self.lines@) == row_lines(rows) && self.widest == widest_row(rows)
    }

    fn push(&mut self, text: String, style: Emphasis, Ghost(rows): Ghost<Seq<(Seq<char>, Emphasis)>>)
        requires
            old(self).holds(rows),
        ensures
            final(self).holds(rows.push((text@, style))),
    {
        let width: usize = columns(text.as_str());
        if width > self.widest {
            self.widest = width;
        }
        push_line(&mut self.lines, Line::plain(text, style));
        proof {
            let more = rows.push((text@, style));
            assert(more.drop_last() =~= rows);
            assert(row_lines(more) =~= row_lines(rows).push(plain_line(text@, style)));
        }
    }
}

/// The startup dialog in the middle of the area.
pub fn render_startup_dialog(dialog: &StartupDialog, area: Area) -> (popup: Popup)
    requires
        area.on_screen(),
    ensures
        popup@ == startup_popup(dialog@, widest_row(startup_rows(dialog@)), area),
{
    let ghost view = dialog@;
    let mut rows = RowBuilder { lines: Vec::new(), widest: 0 };
    let count: usize = dialog.matches.len();
    let mut i: usize = 0;
    proof {
        assert(candidate_rows(view, 0) =~= Seq::empty());
        assert(line_views(rows.lines@) =~= row_lines(candidate_rows(view, 0)));
    }
    while i < count
        invariant
            i <= count,
            count == dialog.matches@.len(),
            view == dialog@,
            rows.holds(candidate_rows(view, i as int)),
        decreases count - i,
    {
        assert(view.matches[i as int] == (
            dialog.matches@[i as int].session@,
            dialog.matches@[i as int].kind,
        ));
        let text = candidate_text(i, &dialog.matches[i]);
        let style = style_of_row(dialog.selected == i);
        rows.push(text, style, Ghost(candidate_rows(view, i as int)));
        assert(candidate_rows(view, i as int).push((text@, style)) =~= candidate_rows(
            view,
            i + 1,
        ));
        i = i + 1;
    }
    let ghost mut built = candidate_rows(view, count as int);
    if count > 0 {
        let mut rule = String::new();
        push_run(&mut rule, '─', 60);
        assert(rule@ =~= run_of('─', 60));
        rows.push(rule, Emphasis::Plain, Ghost(built));
        proof {
            built = built.push((run_of('─', 60), Emphasis::Plain));
        }
    }
    let saved = "   Start a new saved session".to_owned();
    let style = style_of_row(dialog.selected == count);
    rows.push(saved, style, Ghost(built));
    proof {
        built = built.push((saved@, style));
    }
    let transient = "   Start a transient session (no file written)".to_owned();
    let last = style_of_row(dialog.selected > 0 && dialog.selected - 1 == count);
    rows.push(transient, last, Ghost(built));
    proof {
        built = built.push((transient@, last));
    }
    rows.push(String::new(), Emphasis::Plain, Ghost(built));
    proof {
        built = built.push((Seq::empty(), Emphasis::Plain));
    }
    let keys = "j/k or ↑/↓ navigate · enter confirm · esc quit".to_owned();
    rows.push(keys, Emphasis::Plain, Ghost(built));
    proof {
        built = built.push((keys@, Emphasis::Plain));
        assert(built =~= startup_rows(view));
        assert(rows.lines@.len() == line_views(rows.lines@).len());
        assert(row_lines(built).len() == built.len());
    }
    let place = startup_area(rows.lines.len(), rows.widest, area);
    let title = if count == 0 {
        " seer — no saved sessions match these files ".to_owned()
    } else {
        " seer — saved sessions for these files ".to_owned()
    };
    let popup = Popup {
        area: place,
        title,
        body_area: place.inner(),
        body: rows.lines,
        cursor: None,
        error: None,
    };
    assert(popup@ =~= startup_popup(dialog@, widest_row(startup_rows(dialog@)), area));
    popup
}

/// The widest row is as wide as any, and one of them is as wide as it.
pub proof fn law_widest_row_is_as_wide_as_any(rows: Seq<(Seq<char>, Emphasis)>, i: int)
    requires
        0 <= i < rows.len(),
    ensures
        ratatui_width(rows[i].0) <= widest_row(rows),
        exists|k: int| 0 <= k < rows.len() && ratatui_width((#[trigger] rows[k]).0) == widest_row(
            rows,
        ) || widest_row(rows) == 0,
    decreases rows.len(),
{
    let shorter = rows.drop_last();
    let last = rows.len() - 1;
    if i < last {
        law_widest_row_is_as_wide_as_any(shorter, i);
        assert(shorter[i] == rows[i]);
    } else if last > 0 {
        law_widest_row_is_as_wide_as_any(shorter, 0);
    }
    if widest_row(rows) == widest_row(shorter) && widest_row(rows) > 0 && last > 0 {
        let k = choose|k: int|
            0 <= k < shorter.len() && ratatui_width((#[trigger] shorter[k]).0) == widest_row(
                shorter,
            ) || widest_row(shorter) == 0;
        assert(rows[k] == shorter[k]);
    } else {
        assert(rows[last] == rows.last());
    }
}

/// The startup popup lies in the middle of the screen, wide enough for its
/// widest row with a border and a blank on each side, and tall enough for all,
/// as far as there is room.
pub proof fn law_startup_popup_holds_its_rows(dialog: StartupView, widest: nat, area: Area)
    requires
        area.on_screen(),
        widest < 0xff00,
        dialog.matches.len() < 0xff00,
    ensures
        ({
            let popup = startup_popup(dialog, widest, area);
            let rows = startup_rows(dialog).len() as int;
            &&& popup.area.width == if widest + 4 <= area.width {
                widest as int + 4
            } else {
                area.width as int
            }
            &&& popup.area.height == if rows + 2 <= area.height {
                rows + 2
            } else {
                area.height as int
            }
            &&& area.x <= popup.area.x && popup.area.x + popup.area.width <= area.x + area.width
            &&& area.y <= popup.area.y && popup.area.y + popup.area.height <= area.y + area.height
            &&& popup.body.len() == rows
            &&& popup.title == if dialog.matches.len() == 0 {
                " seer — no saved sessions match these files "@
            } else {
                " seer — saved sessions for these files "@
            }
        }),
{
    let rows = startup_rows(dialog).len() as int;
    crate::area::law_popups_are_centred(
        area,
        at_most_of(cells(widest as int + 4), area.width),
        at_most_of(cells(rows + 2), area.height),
    );
}

} // verus!
