//! What is drawn, painted with ratatui.

use ratatui::buffer::Buffer;
use ratatui::layout::Rect;
use ratatui::style::{Color, Modifier, Style};
use ratatui::text::{Line, Span};
use ratatui::widgets::{Block, Clear, Paragraph, Tabs, Widget, Wrap};
use seer::app::{App, Fresh};
use seer::area::Area;
use seer::dialog::{Dialog, DialogResult};
use seer::engine::EngineEvent;
use seer::event::{Event, Hostname, Level, LoggerName, Pid, Timestamp};
use seer::filter::{EventPredicate, FieldName, Filter, FilterSyntax, Form, Predicate};
use seer::key::{KeyCode, KeyEvent, KeyModifiers};
use seer::position::{ByteLen, Cursor, LogStreamPosition, SourceId};
use seer::rows::{Materialized, ParseStats, Row};
use seer::screen::content::ViewStatus;
use seer::screen::{divide_screen, render, Bottom, Regions, Screen};
use seer::search::Emphasis;
use seer::session::{
    Bookmark, BookmarkDraft, BookmarkId, BookmarkName, LogStreamId, SavePolicy, Session,
    SessionId,
};
use seer::tab::Tab;
use std::ops::{Deref, DerefMut};

const PLAIN: KeyModifiers =
    KeyModifiers { shift: false, control: false, alt: false, other: false };

fn key(code: KeyCode) -> KeyEvent {
    KeyEvent::new(code, PLAIN)
}

fn ctrl(c: char) -> KeyEvent {
    KeyEvent::new(KeyCode::Char(c), KeyModifiers { control: true, ..PLAIN })
}

fn shift(c: char) -> KeyEvent {
    KeyEvent::new(KeyCode::Char(c), KeyModifiers { shift: true, ..PLAIN })
}

/// A small filter language: tokens of a field, an operator and a value.
struct Syntax;

impl FilterSyntax for Syntax {
    fn parse(&self, text: &str) -> Result<Filter, String> {
        let mut filter = Filter::default();
        for token in text.split_whitespace() {
            let predicate = if let Some(value) = token.strip_prefix("msg!=") {
                EventPredicate::FieldEquals {
                    field: FieldName::Msg,
                    value: value.to_string(),
                    form: Form::Negated,
                }
            } else if let Some(value) = token.strip_prefix("msg=") {
                EventPredicate::FieldEquals {
                    field: FieldName::Msg,
                    value: value.to_string(),
                    form: Form::Affirmed,
                }
            } else if token.contains('=') {
                EventPredicate::Other(token.to_string())
            } else {
                return Err(format!("token {token} has no operator"));
            };
            filter.add_predicate(Predicate::Event(predicate));
        }
        Ok(filter)
    }

    fn show(&self, filter: &Filter) -> String {
        let shown: Vec<String> = filter
            .predicates()
            .iter()
            .map(|p| match p {
                Predicate::SourceIdMatches { pattern, .. } => {
                    format!("source_id=~{}", pattern.as_str())
                }
                Predicate::Event(EventPredicate::MsgMatches { pattern, .. }) => {
                    format!("msg=~{}", pattern.as_str())
                }
                Predicate::Event(EventPredicate::Other(text)) => text.clone(),
                Predicate::Event(EventPredicate::FieldEquals { value, form, .. }) => {
                    let op = if *form == Form::Affirmed { "=" } else { "!=" };
                    if value.contains(' ') {
                        format!("msg{op}\"{value}\"")
                    } else {
                        format!("msg{op}{value}")
                    }
                }
            })
            .collect();
        shown.join(" ")
    }
}

fn row(event: Option<Event>) -> Row {
    match event {
        Some(event) => Row::Event(EngineEvent {
            position: LogStreamPosition::new(
                SourceId::new("test".to_string()),
                event.time,
                0,
            ),
            event,
        }),
        None => Row::Error("error".to_string()),
    }
}

fn content(events: Vec<Option<Event>>, formatted: Vec<String>) -> Materialized {
    let n = formatted.len();
    Materialized {
        events: events.into_iter().map(row).collect(),
        formatted,
        event_for_line: (0..n).collect(),
        first_line_for_event: (0..n).collect(),
        parse_stats: ParseStats::default(),
    }
}

/// The application, with ids to hand out.
struct Seer {
    app: App,
    ids: u128,
}

impl Deref for Seer {
    type Target = App;

    fn deref(&self) -> &App {
        &self.app
    }
}

impl DerefMut for Seer {
    fn deref_mut(&mut self) -> &mut App {
        &mut self.app
    }
}

impl Seer {
    fn over(session: Session) -> Self {
        let fresh = Fresh { stream: LogStreamId(1), bookmark: BookmarkId(1), now: at(0) };
        Seer {
            app: App::new_with_session(session, false, SavePolicy::new(5, 0), fresh),
            ids: 1,
        }
    }

    fn new() -> Self {
        Seer::over(Session::new(SessionId(7), at(0)))
    }

    /// One tab that holds these rows, without a live view.
    fn with_events(events: Vec<Option<Event>>, formatted: Vec<String>) -> Self {
        let mut seer = Seer::new();
        seer.tabs[0].live = false;
        seer.tabs[0].content = content(events, formatted);
        seer
    }

    fn with_rows(rows: Vec<String>) -> Self {
        let events = rows.iter().map(|_| None).collect();
        Seer::with_events(events, rows)
    }

    fn fresh(&mut self) -> Fresh {
        self.ids += 1;
        Fresh {
            stream: LogStreamId(self.ids),
            bookmark: BookmarkId(self.ids),
            now: at(self.ids as i64),
        }
    }

    fn press(&mut self, key: KeyEvent) {
        let fresh = self.fresh();
        self.app.handle_key(key, &Syntax, fresh);
    }

    fn tab(&self) -> &Tab {
        &self.app.tabs[self.app.active]
    }

    fn tab_mut(&mut self) -> &mut Tab {
        let active = self.app.active;
        &mut self.app.tabs[active]
    }
}

fn at(secs: i64) -> Timestamp {
    Timestamp { secs, nanos: 0 }
}

fn app(rows: usize, height: u16) -> Seer {
    let rows = (0..rows).map(|i| format!("row {i}")).collect();
    let mut a = Seer::with_rows(rows);
    a.viewport_height = height;
    a
}

fn ev_at(secs: i64, msg: &str) -> Event {
    Event {
        time: at(secs),
        level: Level::Info,
        name: LoggerName("Nexus".to_string()),
        hostname: Hostname("sled-01".to_string()),
        pid: Pid(1234),
        msg: msg.to_string(),
        v: 0,
        extra: Vec::new(),
    }
}

fn ev(msg: &str) -> Event {
    ev_at(1_743_465_600, msg)
}

fn select_app(n: usize, h: u16) -> Seer {
    let events = (0..n).map(|i| Some(ev(&format!("msg {i}")))).collect();
    let formatted = (0..n).map(|i| format!("row {i}")).collect();
    let mut a = Seer::with_events(events, formatted);
    a.viewport_height = h;
    a
}

fn type_into(d: &mut Dialog, s: &str) {
    for c in s.chars() {
        match d.handle_key(key(KeyCode::Char(c)), &Syntax) {
            DialogResult::Stay => {}
            _ => panic!("typing {c:?} unexpectedly closed dialog"),
        }
    }
}

/// Names a bookmark on the given row of the tab.
fn create_bookmark(a: &mut Seer, row: usize, name: Option<&str>) {
    a.press(key(KeyCode::Char('b')));
    for _ in 0..row {
        a.press(key(KeyCode::Char('j')));
    }
    a.press(key(KeyCode::Enter));
    if let Some(n) = name {
        for c in n.chars() {
            a.press(key(KeyCode::Char(c)));
        }
    }
    a.press(key(KeyCode::Enter));
}

/// Adds a bookmark on a record of the given time.
fn add_bookmark_at(a: &mut Seer, stream: LogStreamId, secs: i64, label: &str) {
    let fresh = a.fresh();
    a.session.add_bookmark(Bookmark {
        id: fresh.bookmark,
        stream,
        created_at: fresh.now,
        name: Some(BookmarkName(label.to_string())),
        draft: draft_at(secs, &format!("msg @ {secs}")),
    });
}

fn draft_at(secs: i64, msg: &str) -> BookmarkDraft {
    BookmarkDraft {
        cursor: Cursor::new(),
        display_source: SourceId::new("test".to_string()),
        display_time: at(secs),
        display_name: "Nexus".to_string(),
        display_msg: msg.to_string(),
    }
}

fn rect(area: Area) -> Rect {
    Rect::new(area.x, area.y, area.width, area.height)
}

fn style(emphasis: Emphasis) -> Style {
    match emphasis {
        Emphasis::Plain => Style::new(),
        Emphasis::Reversed => Style::new().add_modifier(Modifier::REVERSED),
        Emphasis::Bold => Style::new().add_modifier(Modifier::BOLD),
        Emphasis::Error => Style::new().fg(Color::Red),
        Emphasis::Selected => Style::new().bg(Color::DarkGray).add_modifier(Modifier::BOLD),
    }
}

fn painted(lines: &[seer::screen::Line]) -> Vec<Line<'_>> {
    lines
        .iter()
        .map(|l| {
            let spans: Vec<Span<'_>> = l
                .spans
                .iter()
                .map(|s| Span::styled(s.content.as_str(), style(s.style)))
                .collect();
            Line::from(spans).style(style(l.style))
        })
        .collect()
}

fn paint_error(error: &Option<(Area, String)>, buffer: &mut Buffer) {
    if let Some((area, text)) = error {
        Paragraph::new(text.as_str())
            .style(style(Emphasis::Error))
            .render(rect(*area), buffer);
    }
}

/// Draws the screen, and writes its cells down.
fn paint(screen: &Screen, regions: &Regions, buffer: &mut Buffer) {
    let titles: Vec<Line<'_>> =
        screen.titles.iter().map(|t| Line::raw(t.as_str())).collect();
    Tabs::new(titles)
        .select(screen.selected)
        .highlight_style(style(Emphasis::Reversed))
        .render(rect(regions.tabs), buffer);
    let mut body = Paragraph::new(painted(&screen.content));
    if screen.wrap {
        body = body.wrap(Wrap { trim: false });
    }
    body.render(rect(regions.content), buffer);
    if let Some(text) = &screen.fetch_stats {
        Paragraph::new(text.as_str()).render(rect(regions.fetch_stats), buffer);
    }
    if let Some(text) = &screen.status {
        Paragraph::new(text.as_str()).render(rect(regions.status), buffer);
    }
    match &screen.bottom {
        Bottom::Footer(text) => {
            Paragraph::new(text.as_str()).render(rect(regions.bottom), buffer);
        }
        Bottom::Prompt(prompt) => {
            Paragraph::new(prompt.text.as_str()).render(rect(regions.bottom), buffer);
            paint_error(&prompt.error, buffer);
        }
    }
    if let Some(popup) = &screen.popup {
        Clear.render(rect(popup.area), buffer);
        Block::bordered().title(popup.title.as_str()).render(rect(popup.area), buffer);
        Paragraph::new(painted(&popup.body)).render(rect(popup.body_area), buffer);
        paint_error(&popup.error, buffer);
    }
}

const NOWHERE: ViewStatus = ViewStatus { forward_eof: false, offset: None, total_bytes: 0 };

impl Seer {
    /// Fits the application to the size and renders it.
    fn screen(&mut self, size: (u16, u16), status: ViewStatus) -> (Screen, Regions) {
        let area = Area { x: 0, y: 0, width: size.0, height: size.1 };
        let regions = divide_screen(&self.app, area);
        self.app.fit_viewport(regions.content.height, regions.content.width);
        (render(&self.app, area, regions, status, None), regions)
    }

    fn draw_at(&mut self, size: (u16, u16), status: ViewStatus) -> Buffer {
        let (screen, regions) = self.screen(size, status);
        let mut buffer = Buffer::empty(Rect::new(0, 0, size.0, size.1));
        paint(&screen, &regions, &mut buffer);
        buffer
    }

    fn draw(&mut self, size: (u16, u16)) -> Buffer {
        self.draw_at(size, NOWHERE)
    }

    fn dump(&mut self, size: (u16, u16)) -> String {
        buffer_text(&self.draw(size))
    }
}

fn buffer_text(buf: &Buffer) -> String {
    let mut out = String::new();
    for y in 0..buf.area.height {
        for x in 0..buf.area.width {
            out.push_str(buf[(x, y)].symbol());
        }
        out.push('\n');
    }
    out
}

#[test]
fn render_paints_rows_and_footer() {
    let size = (200, 6);
    let mut a = Seer::with_rows(vec![
        "alpha line".to_string(),
        "beta line".to_string(),
        "gamma line".to_string(),
    ]);
    let dump = a.dump(size);
    assert!(dump.contains("alpha line"), "dump:\n{dump}");
    assert!(dump.contains("gamma line"), "dump:\n{dump}");
    assert!(dump.contains("h help"), "dump:\n{dump}");
}

#[test]
fn render_shows_end_of_stream_when_viewport_reaches_last_row() {
    let size = (300, 7);
    let mut a = Seer::with_rows(vec![
        "alpha".to_string(),
        "beta".to_string(),
        "gamma".to_string(),
        "delta".to_string(),
    ]);
    let dump = a.dump(size);
    assert!(
        dump.contains("(end of stream)"),
        "expected EOF indicator when viewport reaches last row:\n{dump}",
    );
}

#[test]
fn render_hides_end_of_stream_when_more_rows_below() {
    let size = (200, 5);
    let rows: Vec<String> = (0..6).map(|i| format!("row {i}")).collect();
    let mut a = Seer::with_rows(rows);
    let dump = a.dump(size);
    assert!(
        !dump.contains("(end of stream)"),
        "did not expect EOF indicator with rows below:\n{dump}",
    );
}

#[test]
fn render_eof_indicator_toggles_with_scroll() {
    let size = (300, 5);
    let rows: Vec<String> = (0..6).map(|i| format!("row {i}")).collect();
    let mut a = Seer::with_rows(rows);
    a.viewport_height = 2;
    a.press(shift('G'));
    let dump = a.dump(size);
    assert!(
        dump.contains("(end of stream)"),
        "expected EOF indicator after `G`:\n{dump}",
    );
    a.press(key(KeyCode::Char('k')));
    let dump = a.dump(size);
    assert!(
        !dump.contains("(end of stream)"),
        "did not expect EOF indicator after scrolling up:\n{dump}",
    );
}

#[test]
fn render_draws_dialog_with_error() {
    let size = (80, 9);
    let mut a = Seer::with_rows(vec!["row".to_string()]);
    a.press(key(KeyCode::Char('f')));
    type_into(a.dialog.as_mut().unwrap(), "bogus");
    let dump = a.dump(size);
    assert!(dump.contains("Filter"), "dump:\n{dump}");
    assert!(dump.contains("bogus"), "dump:\n{dump}");
    assert!(
        dump.contains("operator") || dump.contains("token"),
        "expected a parse error in dump:\n{dump}",
    );
}

#[test]
fn filter_dialog_wraps_long_text() {
    let size = (40, 20);
    let mut a = Seer::with_rows(vec!["row".to_string()]);
    a.press(key(KeyCode::Char('f')));
    let filter = "level>=warn name=Nexus name=sled-agent name=cockroach";
    type_into(a.dialog.as_mut().unwrap(), filter);
    let dump = a.dump(size);
    assert!(dump.contains("level>=warn"), "missing prefix in:\n{dump}");
    assert!(dump.contains("sled-agent"), "missing middle in:\n{dump}");
    assert!(dump.contains("cockroac"), "missing tail in:\n{dump}");
    let interior_rows = dump.lines().filter(|l| l.contains('│')).count();
    assert_eq!(interior_rows, 5, "expected 5 interior rows in:\n{dump}");
}

#[test]
fn render_draws_display_fields_dialog() {
    let size = (80, 16);
    let mut a = Seer::with_rows(vec!["row".to_string()]);
    a.press(key(KeyCode::Char('d')));
    let dump = a.dump(size);
    assert!(dump.contains("Display fields"), "dump:\n{dump}");
    for label in [
        "short timestamp (no date)",
        "full date and time",
        "short hostname",
        "full hostname",
        "no hostname",
        "pid",
        "name",
        "show all other fields",
    ] {
        assert!(dump.contains(label), "missing {label:?} in:\n{dump}");
    }
    assert!(
        dump.contains("(•) full date and time"),
        "expected full-date radio selected:\n{dump}",
    );
    assert!(
        dump.contains("(•) short hostname"),
        "expected short hostname radio selected:\n{dump}",
    );
    assert!(dump.contains("[ ] pid"), "expected pid unchecked:\n{dump}");
    assert!(dump.contains("[x] name"), "expected name checked:\n{dump}",);
    assert!(
        dump.contains("[ ] show all other fields"),
        "expected extras unchecked:\n{dump}",
    );
}

#[test]
fn render_draws_help_dialog() {
    let size = (120, 60);
    let mut a = Seer::with_rows(vec!["row".to_string()]);
    a.press(key(KeyCode::Char('h')));
    let dump = a.dump(size);
    assert!(dump.contains("Keybindings"), "missing title:\n{dump}");
    for section in ["Navigation", "Display", "Other", "Bookmarks pane"] {
        assert!(dump.contains(section), "missing {section}:\n{dump}");
    }
    for desc in [
        "scroll down one line",
        "display-fields dialog",
        "show this help",
        "delete bookmark",
    ] {
        assert!(
            dump.contains(desc),
            "missing description {desc:?}:\n{dump}"
        );
    }
}

#[test]
fn main_pane_wraps_long_logical_lines() {
    let long = "A".repeat(80);
    let mut a = Seer::with_rows(vec![long.clone()]);
    let size = (20, 8);
    let dump = a.dump(size);
    let full_a_rows =
        dump.lines().filter(|l| l.chars().all(|c| c == 'A')).count();
    assert_eq!(
        full_a_rows, 4,
        "expected 4 wrapped rows of A's, dump:\n{dump}",
    );
}

#[test]
fn render_paints_tab_bar() {
    let size = (80, 6);
    let mut a = Seer::with_rows(vec!["row".to_string()]);
    a.press(ctrl('t'));
    a.press(key(KeyCode::Esc));
    let dump = a.dump(size);
    assert!(dump.contains("Tab 1"), "dump:\n{dump}");
    assert!(dump.contains("Tab 2"), "dump:\n{dump}");
}

#[test]
fn render_draws_search_prompt_at_bottom() {
    let size = (40, 6);
    let mut a = Seer::with_rows(vec!["row".to_string()]);
    a.press(key(KeyCode::Char('/')));
    type_into(a.dialog.as_mut().unwrap(), "alpha");
    let dump = a.dump(size);
    assert!(dump.contains("/alpha"), "dump:\n{dump}");
    assert!(!dump.contains("q quit"), "dump:\n{dump}");
}

#[test]
fn render_draws_search_parse_error_below_prompt() {
    let size = (40, 6);
    let mut a = Seer::with_rows(vec!["row".to_string()]);
    a.press(key(KeyCode::Char('/')));
    type_into(a.dialog.as_mut().unwrap(), "[");
    let dump = a.dump(size);
    assert!(dump.contains("/["), "dump:\n{dump}");
    assert!(
        dump.contains("regex parse error")
            || dump.contains("character class"),
        "expected a regex error:\n{dump}",
    );
}

#[test]
fn render_highlights_matches_in_visible_rows() {
    let size = (40, 4);
    let mut a = Seer::with_rows(vec!["alpha line".to_string()]);
    a.viewport_height = 1;
    a.press(key(KeyCode::Char('/')));
    type_into(a.dialog.as_mut().unwrap(), "alpha");
    a.press(key(KeyCode::Enter));
    let buf = a.draw(size);
    for x in 0..5 {
        assert!(
            buf[(x, 1)].modifier.contains(Modifier::REVERSED),
            "expected REVERSED at ({x}, 1)",
        );
    }
    assert!(
        !buf[(5, 1)].modifier.contains(Modifier::REVERSED),
        "expected plain at (5, 1)",
    );
}

#[test]
fn render_paints_select_highlight() {
    let size = (20, 5);
    let mut a = select_app(3, 2);
    a.press(key(KeyCode::Char('x')));
    a.press(key(KeyCode::Char('j')));
    let buf = a.draw(size);
    assert!(
        buf[(0, 2)].style().bg == Some(Color::DarkGray),
        "expected DarkGray bg on selected content row",
    );
    assert!(
        buf[(0, 1)].style().bg != Some(Color::DarkGray),
        "non-selected content row should not be highlighted",
    );
}

#[test]
fn render_shows_exclude_footer_hint() {
    let size = (80, 4);
    let mut a = select_app(3, 2);
    a.press(key(KeyCode::Char('x')));
    let dump = a.dump(size);
    assert!(
        dump.contains("Enter exclude msg"),
        "expected exclude-mode footer hint, got:\n{dump}",
    );
}

#[test]
fn render_shows_include_footer_hint() {
    let size = (80, 4);
    let mut a = select_app(3, 2);
    a.press(shift('X'));
    let dump = a.dump(size);
    assert!(
        dump.contains("Enter include msg"),
        "expected include-mode footer hint, got:\n{dump}",
    );
}

#[test]
fn user_status_for_synthetic_fixture_omits_byte_half() {
    let size = (120, 5);
    let mut a = Seer::with_rows(vec!["row".to_string()]);
    let dump = a.dump(size);
    assert!(dump.contains("Showing 1 records"), "dump:\n{dump}");
    assert!(!dump.contains("from byte offset"), "dump:\n{dump}");
    assert!(!dump.contains("(beginning of stream)"), "dump:\n{dump}");
}

#[test]
fn render_shows_user_status_above_footer_by_default() {
    let size = (120, 5);
    let mut a = Seer::with_rows(vec!["row".to_string()]);
    a.tab_mut().content.parse_stats = ParseStats {
        records: 42,
        walked_bytes: ByteLen(4096),
        elapsed_nanos: 100 * 1_000_000,
    };
    let dump = a.dump(size);
    assert!(dump.contains("Showing 1 records"), "dump:\n{dump}");
    assert!(!dump.contains("fetched"), "dump:\n{dump}");
}

#[test]
fn p_reveals_fetch_stats_row() {
    let size = (160, 5);
    let mut a = Seer::with_rows(vec!["row".to_string()]);
    a.tab_mut().content.parse_stats = ParseStats {
        records: 42,
        walked_bytes: ByteLen(4096),
        elapsed_nanos: 100 * 1_000_000,
    };
    a.press(key(KeyCode::Char('p')));
    let dump = a.dump(size);
    assert!(dump.contains("42 records"), "dump:\n{dump}");
    assert!(dump.contains("fetched"), "dump:\n{dump}");
    assert!(dump.contains("4.0 KiB"), "dump:\n{dump}");
    assert!(dump.contains("0.100s"), "dump:\n{dump}");
    assert!(dump.contains("Showing 1 records"), "dump:\n{dump}");
}

#[test]
fn p_toggle_hides_fetch_stats_row_again() {
    let size = (160, 5);
    let mut a = Seer::with_rows(vec!["row".to_string()]);
    a.tab_mut().content.parse_stats = ParseStats {
        records: 42,
        walked_bytes: ByteLen(4096),
        elapsed_nanos: 100 * 1_000_000,
    };
    a.press(key(KeyCode::Char('p')));
    a.press(key(KeyCode::Char('p')));
    let dump = a.dump(size);
    assert!(!dump.contains("fetched"), "dump:\n{dump}");
}

#[test]
fn render_omits_parse_stats_row_on_bookmarks_pane() {
    let mut a = select_app(5, 5);
    create_bookmark(&mut a, 0, Some("first"));
    a.press(key(KeyCode::Tab));
    assert!(a.bookmarks_active());
    a.tabs[0].content.parse_stats = ParseStats {
        records: 9999,
        walked_bytes: ByteLen(1024 * 1024),
        elapsed_nanos: 1234 * 1_000_000,
    };
    let size = (120, 5);
    let dump = a.dump(size);
    assert!(!dump.contains("9999 records"), "dump:\n{dump}");
}

#[test]
fn render_footer_shows_current_step() {
    let size = (120, 6);
    let mut a = Seer::with_rows(vec!["r".to_string()]);
    let dump = a.dump(size);
    assert!(dump.contains("step=1m"), "dump:\n{dump}");
    a.press(key(KeyCode::Char('=')));
    let dump = a.dump(size);
    assert!(dump.contains("step=5m"), "dump:\n{dump}");
}

#[test]
fn bookmarks_pane_renders_three_columns() {
    let mut a = select_app(5, 5);
    let stream_id = a.tabs[a.active].stream;
    add_bookmark_at(&mut a, stream_id, 100, "my-tag");
    a.press(key(KeyCode::Tab));
    assert!(a.bookmarks_active());
    let size = (120, 8);
    let dump = a.dump(size);
    assert!(
        dump.contains("1970-01-01T00:01:40.000Z"),
        "missing display_time; dump:\n{dump}",
    );
    assert!(dump.contains("my-tag"), "missing user name; dump:\n{dump}");
    assert!(
        dump.contains("Nexus: msg @ 100"),
        "missing app+msg; dump:\n{dump}",
    );
    assert!(
        dump.contains("bookmark created at"),
        "missing footer line; dump:\n{dump}",
    );
}

#[test]
fn bookmarks_pane_wraps_long_message() {
    let mut a = select_app(5, 5);
    let stream_id = a.tabs[a.active].stream;
    let long = "alpha beta gamma delta epsilon zeta \
                eta theta iota kappa lambda";
    let fresh = a.fresh();
    let mut draft = draft_at(100, long);
    draft.display_name = "App".to_string();
    a.session.add_bookmark(Bookmark {
        id: fresh.bookmark,
        stream: stream_id,
        created_at: fresh.now,
        name: None,
        draft,
    });
    a.press(key(KeyCode::Tab));
    let size = (80, 12);
    let dump = a.dump(size);
    for word in [
        "alpha", "beta", "gamma", "delta", "epsilon", "zeta", "eta",
        "theta", "iota", "kappa", "lambda",
    ] {
        assert!(dump.contains(word), "missing word {word}; dump:\n{dump}",);
    }
    assert!(
        dump.contains("bookmark created at"),
        "missing footer; dump:\n{dump}",
    );
}

#[test]
fn viewport_resize_in_render_records_debounced() {
    let mut a = Seer::new();
    a.draw((80, 24));
    a.policy.mark_saved(1);
    assert!(!a.policy.dirty());
    a.draw((40, 12));
    assert!(a.policy.dirty(), "resize should have recorded a debounced mutation");
}

#[test]
fn render_at_same_size_does_not_record() {
    let mut a = Seer::new();
    a.draw((80, 24));
    a.policy.mark_saved(1);
    assert!(!a.policy.dirty());
    a.draw((80, 24));
    assert!(!a.policy.dirty(), "render at the same size must not record");
}

/// A tab that a live view feeds with fifty rows.
fn live_app() -> Seer {
    let mut a = Seer::new();
    let events = (0..50).map(|i| Some(ev_at(i, "entry"))).collect();
    let rows = (0..50).map(|i| format!("entry {i}")).collect();
    a.view_moved(0, content(events, rows), Some(Cursor::new()), 0);
    a
}

#[test]
fn user_status_shows_byte_offset_and_percent_when_streamview_present() {
    let mut a = live_app();
    let status = ViewStatus { forward_eof: false, offset: Some(0), total_bytes: 6000 };
    let dump = buffer_text(&a.draw_at((160, 8), status));
    assert!(dump.contains("Showing"), "dump:\n{dump}");
    assert!(dump.contains("from byte offset"), "dump:\n{dump}");
    assert!(dump.contains("0 B of"), "dump:\n{dump}");
    assert!(dump.contains("(0%)"), "dump:\n{dump}");
    assert!(dump.contains("(beginning of stream)"), "dump:\n{dump}");
}

#[test]
fn user_status_percent_rounds_as_doubles_do() {
    let mut a = live_app();
    for (offset, total_bytes) in [(115, 200), (1, 200), (3, 200), (57, 100), (1, 3), (250, 200)] {
        let status = ViewStatus { forward_eof: false, offset: Some(offset), total_bytes };
        let dump = buffer_text(&a.draw_at((160, 8), status));
        let percent = (offset as f64 / total_bytes as f64) * 100.0;
        let expected = format!("({percent:.0}%)");
        assert!(dump.contains(&expected), "{offset} of {total_bytes}:\n{dump}");
    }
    let status = ViewStatus { forward_eof: false, offset: Some(115), total_bytes: 200 };
    assert!(buffer_text(&a.draw_at((160, 8), status)).contains("(57%)"));
}

#[test]
fn user_status_shows_end_marker_at_eof() {
    let mut a = live_app();
    a.viewport_height = 10;
    a.viewport_width = 160;
    let events = (0..50).map(|i| Some(ev_at(i, "entry"))).collect();
    let rows = (0..50).map(|i| format!("entry {i}")).collect();
    a.view_moved(0, content(events, rows), Some(Cursor::new()), 49);
    let status = ViewStatus { forward_eof: true, offset: Some(5900), total_bytes: 6000 };
    let dump = buffer_text(&a.draw_at((160, 13), status));
    assert!(dump.contains("(end of stream)"), "dump:\n{dump}");
    assert!(!dump.contains("(beginning of stream)"), "dump:\n{dump}");
    assert!(dump.contains("from byte offset"), "dump:\n{dump}");
}

#[test]
fn raw_lines_are_cut_at_the_column() {
    let mut a = Seer::with_rows(vec![r#"{"msg":"first message", "name": "Nexus"}"#.to_string()]);
    a.toggle_show_raw();
    // the stream's option is what counts
    a.tabs[0].live = false;
    a.tabs[0].content = content(
        vec![None],
        vec![r#"{"msg":"first message", "name": "Nexus"}"#.to_string()],
    );
    let dump = a.dump((30, 8));
    let raw = a.tabs[0].content.formatted[0].clone();
    for chunk in seer::text::column_chunks(&raw, 30) {
        assert!(dump.contains(chunk), "expected column chunk {chunk:?} in dump:\n{dump}");
    }
}

#[test]
fn the_cursor_stands_where_text_goes_on() {
    let mut a = Seer::with_rows(vec!["row".to_string()]);
    a.press(key(KeyCode::Char('f')));
    type_into(a.dialog.as_mut().unwrap(), "abc");
    let (screen, _) = a.screen((40, 20), NOWHERE);
    let popup = screen.popup.unwrap();
    let (x, y) = popup.cursor.unwrap();
    assert_eq!((x, y), (popup.body_area.x + 3, popup.body_area.y));

    a.press(key(KeyCode::Esc));
    a.press(key(KeyCode::Char('/')));
    type_into(a.dialog.as_mut().unwrap(), "ab");
    let (screen, regions) = a.screen((40, 20), NOWHERE);
    match screen.bottom {
        Bottom::Prompt(prompt) => {
            assert_eq!(prompt.text, "/ab");
            assert_eq!(prompt.cursor, (3, regions.bottom.y));
        }
        Bottom::Footer(text) => panic!("expected a prompt, got {text}"),
    }
    assert!(screen.popup.is_none());
}

#[test]
fn regions_fill_the_screen() {
    let mut a = Seer::with_rows(vec!["row".to_string()]);
    let (_, regions) = a.screen((80, 24), NOWHERE);
    assert_eq!(regions.tabs, Area { x: 0, y: 0, width: 80, height: 1 });
    assert_eq!(regions.content, Area { x: 0, y: 1, width: 80, height: 21 });
    assert_eq!(regions.fetch_stats.height, 0);
    assert_eq!(regions.status, Area { x: 0, y: 22, width: 80, height: 1 });
    assert_eq!(regions.bottom, Area { x: 0, y: 23, width: 80, height: 1 });
}

#[test]
fn regions_are_stacked_on_a_tall_screen() {
    let mut a = app(3, 10);
    let area = Area { x: 0, y: 0, width: 80, height: 24 };
    let strip = |y: u16, height: u16| Area { y, height, ..area };
    let regions = divide_screen(&a.app, area);
    assert_eq!(regions.tabs, strip(0, 1));
    assert_eq!(regions.content, strip(1, 21));
    assert_eq!(regions.fetch_stats, strip(22, 0));
    assert_eq!(regions.status, strip(22, 1));
    assert_eq!(regions.bottom, strip(23, 1));
    a.press(key(KeyCode::Char('p')));
    let regions = divide_screen(&a.app, area);
    assert_eq!(regions.content, strip(1, 20));
    assert_eq!(regions.fetch_stats, strip(21, 1));
    assert_eq!(regions.status, strip(22, 1));
    assert_eq!(regions.bottom, strip(23, 1));
}

#[test]
fn editor_popups_leave_the_rest_to_the_error() {
    let mut a = app(3, 10);
    a.press(key(KeyCode::Char('r')));
    let (screen, _) = a.screen((100, 40), NOWHERE);
    let popup = screen.popup.expect("the dialog has a popup");
    assert_eq!(popup.area, Area { x: 15, y: 17, width: 70, height: 5 });
    assert_eq!(popup.body_area, Area { x: 16, y: 18, width: 68, height: 1 });
    assert!(popup.error.is_none());
}
