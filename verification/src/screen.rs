//! What is drawn: every line, status and popup of the screen as plain
//! values.

pub mod bookmarks;
pub mod content;
pub mod laws;
pub mod popup;
pub mod startup;

use crate::app::{App, AppView};
use crate::area::{
    asked_heights, crosses, divides, fixed_heights, grows_alone, row_top, rows_of, settled, Area,
    RowSize,
};
use crate::dialog::{text_view, Dialog, DialogView};
use crate::format::{fetch_text, format_fetch_stats, progress_line};
use crate::long_op::{format_long_op_progress, LongOp, TabIdx};
use crate::search::{span_views, Emphasis, Span, SpanView};
use crate::tab::TabView;
use crate::text::views;
use bookmarks::{bookmarks_footer, pane_lines, render_bookmarks_footer, render_bookmarks_pane};
use content::{
    body_lines, body_rows, footer_over_tab, format_user_status, last_visible, status_line,
    tab_footer, visible_end, ViewStatus,
};
use popup::{
    dialog_popup, prompt_in, render_dialog, render_search_prompt, Popup, PromptView, SearchPrompt,
};
use vstd::prelude::*;

verus! {

/// A line of text.
#[derive(Debug)]
pub struct Line {
    pub spans: Vec<Span>,
    /// style of the line as a whole, under that of its spans
    pub style: Emphasis,
}

/// What a [`Line`] shows.
#[verifier::ext_equal]
pub struct LineView {
    pub spans: Seq<SpanView>,
    pub style: Emphasis,
}

impl View for Line {
    type V = LineView;

    open spec fn view(&self) -> LineView {
        LineView { spans: span_views(self.spans@), style: self.style }
    }
}

/// The views of lines.
pub open spec fn line_views(lines: Seq<Line>) -> Seq<LineView> {
    lines.map_values(|l: Line| l@)
}

/// A line of one text.
pub open spec fn plain_line(text: Seq<char>, style: Emphasis) -> LineView {
    LineView { spans: seq![SpanView { content: text, style: Emphasis::Plain }], style }
}

/// The style of a row that may be selected.
pub open spec fn row_style(selected: bool) -> Emphasis {
    if selected {
        Emphasis::Selected
    } else {
        Emphasis::Plain
    }
}

impl Line {
    /// A line of one text.
    pub fn plain(text: String, style: Emphasis) -> (line: Self)
        ensures
            line@ == plain_line(text@, style),
    {
        let mut spans: Vec<Span> = Vec::new();
        spans.push(Span { content: text, style: Emphasis::Plain });
        let line = Line { spans, style };
        assert(line@ =~= plain_line(text@, style));
        line
    }
}

/// The style of a row that may be selected.
pub(crate) fn style_of_row(selected: bool) -> (style: Emphasis)
    ensures
        style == row_style(selected),
{
    if selected {
        Emphasis::Selected
    } else {
        Emphasis::Plain
    }
}

/// Appends a line.
pub(crate) fn push_line(lines: &mut Vec<Line>, line: Line)
    ensures
        line_views(final(lines)@) == line_views(old(lines)@).push(line@),
{
    lines.push(line);
    assert(line_views(lines@) =~= line_views(old(lines)@).push(line@));
}

/// The regions of the screen, from top to bottom.
#[derive(Debug, Clone, Copy, PartialEq, Eq, Structural)]
pub struct Regions {
    pub tabs: Area,
    pub content: Area,
    pub fetch_stats: Area,
    pub status: Area,
    pub bottom: Area,
}

/// How tall the bottom strip is: a line, and one more for what is wrong with
/// a search pattern.
pub open spec fn bottom_height(dialog: Option<DialogView>) -> u16 {
    match dialog {
        Some(DialogView::Search { parse_error: Some(_), .. }) => 2,
        _ => 1,
    }
}

/// The heights that the regions are given.  The list of bookmarks has no
/// status lines, and the fetch statistics are shown only on demand.
pub open spec fn region_sizes(app: AppView) -> Seq<RowSize> {
    let status: u16 = if app.bookmarks_active() {
        0
    } else {
        1
    };
    let fetch: u16 = if !app.bookmarks_active() && app.show_fetch_stats {
        1
    } else {
        0
    };
    seq![
        RowSize::Length(1),
        RowSize::Min(1),
        RowSize::Length(fetch),
        RowSize::Length(status),
        RowSize::Length(bottom_height(app.dialog)),
    ]
}

/// The areas of the regions.
pub open spec fn region_areas(regions: Regions) -> Seq<Area> {
    seq![regions.tabs, regions.content, regions.fetch_stats, regions.status, regions.bottom]
}

/// How many lines stand around the content.
pub open spec fn framing_height(app: AppView) -> int {
    let sizes = region_sizes(app);
    sizes[0]->Length_0 + sizes[2]->Length_0 + sizes[3]->Length_0 + sizes[4]->Length_0
}

/// The regions of a screen with room for all of them: the content takes what
/// the others leave.
pub open spec fn regions_in(app: AppView, area: Area) -> Regions {
    let sizes = region_sizes(app);
    let strip = |y: int, height: u16| Area { y: (area.y + y) as u16, height, ..area };
    let content = (area.height - framing_height(app)) as u16;
    let (fetch, status) = (sizes[2]->Length_0, sizes[3]->Length_0);
    Regions {
        tabs: strip(0, 1),
        content: strip(1, content),
        fetch_stats: strip(1 + content, fetch),
        status: strip(1 + content + fetch, status),
        bottom: strip(1 + content + fetch + status, sizes[4]->Length_0),
    }
}

/// Where there is room, the layout stacks the regions.
proof fn lemma_regions(app: AppView, area: Area, parts: Seq<Area>)
    requires
        area.on_screen(),
        divides(area, region_sizes(app), parts),
        framing_height(app) < area.height,
    ensures
        parts == region_areas(regions_in(app, area)),
{
    let sizes = region_sizes(app);
    assert(grows_alone(sizes, 1));
    reveal_with_fuel(asked_heights, 6);
    reveal_with_fuel(fixed_heights, 6);
    reveal_with_fuel(row_top, 5);
    assert(settled(sizes, area.height));
    assert(parts =~= region_areas(regions_in(app, area)));
}

/// Divides the screen into its regions.  On a screen too low for all of them
/// they compete for its lines.
pub fn divide_screen(app: &App, area: Area) -> (regions: Regions)
    ensures
        divides(area, region_sizes(app@), region_areas(regions)),
        area.on_screen() && framing_height(app@) < area.height ==> regions == regions_in(
            app@,
            area,
        ),
        area.on_screen() ==> crosses(area, regions.tabs) && crosses(area, regions.content)
            && crosses(area, regions.fetch_stats) && crosses(area, regions.status) && crosses(
            area,
            regions.bottom,
        ),
{
    let bookmarks = app.bookmarks_active();
    let bottom: u16 = match &app.dialog {
        Some(Dialog::Search { parse_error: Some(_), .. }) => 2,
        _ => 1,
    };
    let mut sizes: Vec<RowSize> = Vec::new();
    sizes.push(RowSize::Length(1));
    sizes.push(RowSize::Min(1));
    sizes.push(
        RowSize::Length(
            if !bookmarks && app.show_fetch_stats {
                1
            } else {
                0
            },
        ),
    );
    sizes.push(
        RowSize::Length(
            if bookmarks {
                0
            } else {
                1
            },
        ),
    );
    sizes.push(RowSize::Length(bottom));
    assert(sizes@ =~= region_sizes(app@));
    let parts = rows_of(area, &sizes);
    let regions = Regions {
        tabs: parts[0],
        content: parts[1],
        fetch_stats: parts[2],
        status: parts[3],
        bottom: parts[4],
    };
    assert(region_areas(regions) =~= parts@);
    proof {
        if area.on_screen() && framing_height(app@) < area.height {
            lemma_regions(app@, area, parts@);
            let expected = region_areas(regions_in(app@, area));
            assert(expected[0] == regions.tabs && expected[1] == regions.content);
            assert(expected[2] == regions.fetch_stats && expected[3] == regions.status);
            assert(expected[4] == regions.bottom);
        }
    }
    regions
}

/// The titles of the panes.
pub open spec fn titles_of(app: AppView) -> Seq<Seq<char>> {
    let names = app.tabs.map_values(|t: TabView| t.name);
    if app.has_bookmarks_tab() {
        names.push("Bookmarks"@)
    } else {
        names
    }
}

/// The titles of the panes: the tabs' names, and that of the bookmarks where
/// there are any.
pub fn pane_titles(app: &App) -> (titles: Vec<String>)
    ensures
        views(titles@) == titles_of(app@),
{
    let ghost names = app@.tabs.map_values(|t: TabView| t.name);
    let mut titles: Vec<String> = Vec::new();
    let mut i: usize = 0;
    assert(views(titles@) =~= names.take(0));
    while i < app.tabs.len()
        invariant
            i <= app.tabs@.len(),
            names == app@.tabs.map_values(|t: TabView| t.name),
            views(titles@) == names.take(i as int),
        decreases app.tabs@.len() - i,
    {
        let ghost before = titles@;
        assert(app@.tabs[i as int] == app.tabs@[i as int]@);
        let name = app.tabs[i].name.clone();
        titles.push(name);
        assert(views(titles@) =~= views(before).push(name@));
        assert(names.take(i + 1) =~= names.take(i as int).push(names[i as int]));
        i = i + 1;
    }
    assert(names.take(i as int) =~= names);
    if app.has_bookmarks_tab() {
        let ghost before = titles@;
        let last = "Bookmarks".to_owned();
        titles.push(last);
        assert(views(titles@) =~= views(before).push(last@));
    }
    titles
}

/// The bottom strip.
#[derive(Debug)]
pub enum Bottom {
    Footer(String),
    Prompt(SearchPrompt),
}

/// What a [`Bottom`] shows.
#[verifier::ext_equal]
pub enum BottomView {
    Footer(Seq<char>),
    Prompt(PromptView),
}

impl View for Bottom {
    type V = BottomView;

    open spec fn view(&self) -> BottomView {
        match self {
            Bottom::Footer(text) => BottomView::Footer(text@),
            Bottom::Prompt(prompt) => BottomView::Prompt(prompt@),
        }
    }
}

/// Everything that is drawn.
#[derive(Debug)]
pub struct Screen {
    pub titles: Vec<String>,
    /// the title of the pane on show
    pub selected: usize,
    pub content: Vec<Line>,
    /// whether lines too long are wrapped at words
    pub wrap: bool,
    pub status: Option<String>,
    pub fetch_stats: Option<String>,
    pub bottom: Bottom,
    pub popup: Option<Popup>,
}

/// What a [`Screen`] shows, but for a popup.
#[verifier::ext_equal]
pub struct ScreenView {
    pub titles: Seq<Seq<char>>,
    pub selected: usize,
    pub content: Seq<LineView>,
    pub wrap: bool,
    pub status: Option<Seq<char>>,
    pub fetch_stats: Option<Seq<char>>,
    pub bottom: BottomView,
}

impl View for Screen {
    type V = ScreenView;

    open spec fn view(&self) -> ScreenView {
        ScreenView {
            titles: views(self.titles@),
            selected: self.selected,
            content: line_views(self.content@),
            wrap: self.wrap,
            status: text_view(self.status),
            fetch_stats: text_view(self.fetch_stats),
            bottom: self.bottom@,
        }
    }
}

/// The screen while the bookmarks are on show.
pub open spec fn bookmarks_screen(app: AppView, regions: Regions) -> ScreenView {
    ScreenView {
        titles: titles_of(app),
        selected: app.active,
        content: pane_lines(app, regions.content.width, regions.content.height),
        wrap: false,
        status: None,
        fetch_stats: None,
        bottom: BottomView::Footer(bookmarks_footer(app)),
    }
}

/// The progress of an operation that is in flight for the tab on show.
pub open spec fn progress_of(app: AppView, op: Option<&LongOp>, width: u16) -> Option<Seq<char>> {
    match op {
        Some(op) => if op.tab() == TabIdx(app.active) {
            Some(
                progress_line(
                    op.label_text(),
                    op.done().0,
                    op.total().0,
                    op.record_count(),
                    width as int,
                ),
            )
        } else {
            None
        },
        None => None,
    }
}

/// The screen while a tab is on show.  Raw lines are cut at the column, other
/// lines wrap at words.  While an operation runs for the tab, its progress
/// stands in place of the status.
pub open spec fn tab_screen(
    app: AppView,
    regions: Regions,
    status: ViewStatus,
    op: Option<&LongOp>,
) -> ScreenView {
    let tab = app.active_tab();
    let raw = app.active_stream().opts.show_raw;
    let (top, width) = (tab.viewport_top as int, regions.content.width);
    let end = visible_end(
        tab.content.formatted,
        top,
        0,
        regions.content.height as int,
        width as int,
    );
    ScreenView {
        titles: titles_of(app),
        selected: app.active,
        content: body_rows(tab, top, end, raw, width),
        wrap: !raw,
        status: match progress_of(app, op, regions.status.width) {
            Some(progress) => Some(progress),
            None => Some(status_line(tab, top, end, status)),
        },
        fetch_stats: if app.show_fetch_stats {
            Some(fetch_text(tab.content.parse_stats))
        } else {
            None
        },
        bottom: match app.dialog {
            Some(DialogView::Search { editor, direction, parse_error, .. }) => BottomView::Prompt(
                prompt_in(editor, direction, parse_error, regions.bottom),
            ),
            _ => BottomView::Footer(tab_footer(app, top, end)),
        },
    }
}

/// The screen.
pub open spec fn screen_of(
    app: AppView,
    regions: Regions,
    status: ViewStatus,
    op: Option<&LongOp>,
) -> ScreenView {
    if app.bookmarks_active() {
        bookmarks_screen(app, regions)
    } else {
        tab_screen(app, regions, status, op)
    }
}

/// Whether the popup is the one that the open dialog calls for: every dialog
/// has one but the search prompt.
pub open spec fn popup_for(dialog: Option<DialogView>, area: Area, popup: Option<Popup>) -> bool {
    match dialog {
        None => popup is None,
        Some(DialogView::Search { .. }) => popup is None,
        Some(dialog) => popup matches Some(popup) && popup@ == dialog_popup(dialog, area),
    }
}

/// Renders what stands on the screen, once it has been divided and fitted,
/// given the operation in flight.
pub fn render(
    app: &App,
    area: Area,
    regions: Regions,
    status: ViewStatus,
    op: Option<&LongOp>,
) -> (screen: Screen)
    requires
        app.wf(),
        area.on_screen(),
        regions.bottom.on_screen(),
        app@.active < app@.tabs.len() ==> app@.active_tab().viewport_top
            <= app@.active_tab().content.formatted.len(),
    ensures
        screen@ == screen_of(app@, regions, status, op),
        popup_for(app@.dialog, area, screen.popup),
{
    let titles = pane_titles(app);
    let popup = match &app.dialog {
        None => None,
        Some(Dialog::Search { .. }) => None,
        Some(dialog) => Some(render_dialog(dialog, area)),
    };
    let width: u16 = regions.content.width;
    let height: u16 = regions.content.height;
    if app.bookmarks_active() {
        return Screen {
            titles,
            selected: app.active,
            content: render_bookmarks_pane(app, width, height),
            wrap: false,
            status: None,
            fetch_stats: None,
            bottom: Bottom::Footer(render_bookmarks_footer(app)),
            popup,
        };
    }
    let tab = &app.tabs[app.active];
    assert(app@.active_tab() == tab@);
    let raw = app.active_stream().show_raw;
    let top: usize = tab.viewport_top;
    let end: usize = last_visible(&tab.content.formatted, top, height, width);
    let fetch_stats = if app.show_fetch_stats {
        Some(format_fetch_stats(&tab.content.parse_stats))
    } else {
        None
    };
    let progress = match op {
        Some(op) => if op.targets_tab(TabIdx(app.active)) {
            Some(format_long_op_progress(op, regions.status.width as usize))
        } else {
            None
        },
        None => None,
    };
    let status_text = match progress {
        Some(progress) => progress,
        None => format_user_status(tab, top, end, status),
    };
    let bottom = match &app.dialog {
        Some(Dialog::Search { editor, direction, parse_error, .. }) => Bottom::Prompt(
            render_search_prompt(editor, *direction, parse_error, regions.bottom),
        ),
        _ => Bottom::Footer(footer_over_tab(app, top, end)),
    };
    Screen {
        titles,
        selected: app.active,
        content: body_lines(tab, top, end, raw, width),
        wrap: !raw,
        status: Some(status_text),
        fetch_stats,
        bottom,
        popup,
    }
}

} // verus!
