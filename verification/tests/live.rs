//! The application among live views and a store: it asks, the world answers.

use ratatui::buffer::Buffer;
use ratatui::layout::Rect;
use ratatui::style::{Color, Modifier, Style};
use ratatui::text::{Line, Span};
use ratatui::widgets::{Block, Clear, Paragraph, Tabs, Widget, Wrap};
use seer::app::{can_open, App, Fresh};
use seer::area::Area;
use seer::command::{Command, Selector};
use seer::dialog::Dialog;
use seer::display::{display_field_item, DisplayFieldItem, DISPLAY_FIELD_COUNT};
use seer::engine::{Engine, EngineEvent};
use seer::event::{Event, Hostname, Level, LoggerName, Pid, Timestamp};
use seer::filter::{EventPredicate, FieldName, Filter, FilterSyntax, Form, Predicate};
use seer::key::{KeyCode, KeyEvent, KeyModifiers};
use seer::long_op::{LongOp, TabIdx};
use seer::position::{ByteLen, ByteOffset, Cursor, LogStreamPosition, SourceId};
use seer::queue::{Cancelled, LongOps, SummaryRequest};
use seer::rows::{Materialized, Row};
use seer::screen::content::ViewStatus;
use seer::screen::{divide_screen, render, Bottom, Regions, Screen};
use seer::search::Emphasis;
use seer::session::{
    Bookmark, BookmarkDraft, BookmarkId, BookmarkName, Cadence, HostnameDisplay, LogStreamId,
    RenderOpts, SavePolicy, Session, SessionId, TabKind,
};
use seer::source::{Direction, IoFailure, QueryBatch, QueryRecord, Source};
use seer::tab::Tab;
use seer::text::column_chunks;
use std::collections::BTreeMap;
use std::ops::{Deref, DerefMut};

const PLAIN: KeyModifiers =
    KeyModifiers { shift: false, control: false, alt: false, other: false };

fn key(code: KeyCode) -> KeyEvent {
    KeyEvent::new(code, PLAIN)
}

fn ctrl(c: char) -> KeyEvent {
    KeyEvent::new(KeyCode::Char(c), KeyModifiers { control: true, ..PLAIN })
}

fn shift(c: char) -> KeyEvent {
    KeyEvent::new(KeyCode::Char(c), KeyModifiers { shift: true, ..PLAIN })
}

/// A small filter language: tokens of a field, an operator and a value.
struct Syntax;

impl FilterSyntax for Syntax {
    fn parse(&self, text: &str) -> Result<Filter, String> {
        let mut filter = Filter::default();
        for token in text.split_whitespace() {
            let predicate = if let Some(value) = token.strip_prefix("msg!=") {
                EventPredicate::FieldEquals {
                    field: FieldName::Msg,
                    value: value.to_string(),
                    form: Form::Negated,
                }
            } else if let Some(value) = token.strip_prefix("msg=") {
                EventPredicate::FieldEquals {
                    field: FieldName::Msg,
                    value: value.to_string(),
                    form: Form::Affirmed,
                }
            } else if token.contains('=') {
                EventPredicate::Other(token.to_string())
            } else {
                return Err(format!("token {token} has no operator"));
            };
            filter.add_predicate(Predicate::Event(predicate));
        }
        Ok(filter)
    }

    fn show(&self, filter: &Filter) -> String {
        let shown: Vec<String> = filter
            .predicates()
            .iter()
            .map(|p| match p {
                Predicate::SourceIdMatches { pattern, .. } => {
                    format!("source_id=~{}", pattern.as_str())
                }
                Predicate::Event(EventPredicate::MsgMatches { pattern, .. }) => {
                    format!("msg=~{}", pattern.as_str())
                }
                Predicate::Event(EventPredicate::Other(text)) => text.clone(),
                Predicate::Event(EventPredicate::FieldEquals { value, form, .. }) => {
                    let op = if *form == Form::Affirmed { "=" } else { "!=" };
                    if value.contains(' ') {
                        format!("msg{op}\"{value}\"")
                    } else {
                        format!("msg{op}{value}")
                    }
                }
            })
            .collect();
        shown.join(" ")
    }
}

/// A record of the log: its time in seconds, its message and other fields.
type RecordSpec<'a> = (i64, &'a str, &'a [(&'a str, &'a str)]);

#[derive(Clone)]
struct Record {
    secs: i64,
    host: String,
    msg: String,
    extras: Vec<(String, String)>,
}

impl Record {
    fn raw(&self) -> String {
        let mut line = format!(
            r#"{{"v":0,"level":30,"name":"Nexus","hostname":"{}","pid":1,"time":"{}","msg":"{}""#,
            self.host,
            at(self.secs).to_milli_text(),
            self.msg,
        );
        for (k, v) in &self.extras {
            line.push_str(&format!(",\"{k}\":{v}"));
        }
        line.push('}');
        line
    }

    fn event(&self) -> Event {
        Event {
            time: at(self.secs),
            level: Level::Info,
            name: LoggerName("Nexus".to_string()),
            hostname: Hostname(self.host.clone()),
            pid: Pid(1),
            msg: self.msg.clone(),
            v: 0,
            extra: Vec::new(),
        }
    }

    fn passes(&self, filter: &Filter) -> bool {
        filter.predicates().iter().all(|p| match p {
            Predicate::Event(EventPredicate::FieldEquals { value, form, .. }) => {
                (*value == self.msg) == (*form == Form::Affirmed)
            }
            Predicate::Event(EventPredicate::Other(text)) => text == "level>=trace",
            _ => true,
        })
    }

    fn lines(&self, opts: &RenderOpts) -> Vec<String> {
        if opts.show_raw {
            return vec![self.raw()];
        }
        let time = at(self.secs).to_milli_text();
        let time = if opts.show_date { time.as_str() } else { &time[11..] };
        let host = match opts.hostname {
            HostnameDisplay::Full => format!("{} ", self.host),
            HostnameDisplay::Short => format!("{} ", short_host(&self.host)),
            HostnameDisplay::Hidden => String::new(),
        };
        let mut lines = vec![format!("{time} INFO {host}Nexus {}", self.msg)];
        if opts.show_extras {
            let mut extras: Vec<String> =
                self.extras.iter().map(|(k, v)| format!("    {k} = {v}")).collect();
            extras.sort();
            lines.extend(extras);
        }
        lines
    }
}

/// The first label of a host's name, with a UUID in it cut to its first part.
fn short_host(host: &str) -> String {
    let label = host.split('.').next().unwrap_or_default();
    let uuid = "([0-9a-f]{8})-[0-9a-f]{4}-[0-9a-f]{4}-[0-9a-f]{4}-[0-9a-f]{12}";
    regex::Regex::new(uuid).unwrap().replace(label, "$1").to_string()
}

/// The log as a source of the engine.
struct LogSource(Vec<Record>);

impl Source for LogSource {
    fn id(&self) -> SourceId {
        log_id()
    }

    fn byte_len(&self) -> Result<u64, IoFailure> {
        Ok(self.0.iter().map(|r| r.raw().len() as u64 + 1).sum())
    }

    fn query_bounded(
        &self,
        position: ByteOffset,
        direction: Direction,
        count: usize,
        max_records: Option<usize>,
        filter: &Filter,
    ) -> Result<QueryBatch, IoFailure> {
        let mut placed = Vec::new();
        let mut offset = 0;
        for record in &self.0 {
            placed.push((offset, record));
            offset += record.raw().len() as u64 + 1;
        }
        placed.retain(|p| (p.0 < position.0) == (direction == Direction::Backward));
        if direction == Direction::Backward {
            placed.reverse();
        }
        let mut batch =
            QueryBatch { records: Vec::new(), eof: true, walked_bytes: ByteLen(0) };
        for (examined, (offset, record)) in placed.into_iter().enumerate() {
            if batch.records.len() == count || max_records == Some(examined) {
                batch.eof = false;
                break;
            }
            let length = ByteLen(record.raw().len() as u64 + 1);
            batch.walked_bytes = batch.walked_bytes.plus(length);
            if record.passes(filter) {
                batch.records.push(QueryRecord {
                    offset: ByteOffset(offset),
                    length,
                    event: Ok(record.event()),
                    raw: record.raw(),
                });
            }
        }
        Ok(batch)
    }
}

/// A view over the log: the records from `first` on that pass the filter.
struct View {
    filter: Filter,
    opts: RenderOpts,
    first: usize,
    anchor: usize,
}

/// A heading, and under it how often each value occurs.
fn section(title: &str, values: impl Iterator<Item = String>) -> Vec<String> {
    let mut counts: BTreeMap<String, usize> = BTreeMap::new();
    for value in values {
        *counts.entry(value).or_default() += 1;
    }
    let mut lines = vec![format!("== {title} ({} distinct)", counts.len())];
    lines.extend(counts.into_iter().map(|(value, n)| format!("{n}  {value}")));
    lines
}

/// The application, with the world around it: a log, views over it and a
/// store that may fail.
struct Seer {
    app: App,
    ids: u128,
    log: Vec<Record>,
    engine: Engine<LogSource>,
    ops: LongOps,
    /// events of the summary in flight
    observed: Vec<Event>,
    /// summaries are left in flight
    stalled: bool,
    views: Vec<Option<View>>,
    saves: usize,
    broken: bool,
}

impl Deref for Seer {
    type Target = App;

    fn deref(&self) -> &App {
        &self.app
    }
}

impl DerefMut for Seer {
    fn deref_mut(&mut self) -> &mut App {
        &mut self.app
    }
}

fn at(secs: i64) -> Timestamp {
    Timestamp { secs, nanos: 0 }
}

fn log_id() -> SourceId {
    SourceId::new("a.log".to_string())
}

impl Seer {
    fn over(log: Vec<Record>, session: Session, stored: bool) -> Self {
        let fresh = Fresh { stream: LogStreamId(1), bookmark: BookmarkId(1), now: at(0) };
        let mut engine = Engine::new();
        engine.add_source(LogSource(log.clone()));
        let mut seer = Seer {
            app: App::new_with_session(session, stored, SavePolicy::new(5, 0), fresh),
            ids: 1,
            log,
            engine,
            ops: LongOps::new(),
            observed: Vec::new(),
            stalled: false,
            views: Vec::new(),
            saves: 0,
            broken: false,
        };
        seer.settle();
        seer
    }

    fn fresh(&mut self) -> Fresh {
        self.ids += 1;
        Fresh {
            stream: LogStreamId(self.ids),
            bookmark: BookmarkId(self.ids),
            now: at(self.ids as i64),
        }
    }

    fn press(&mut self, key: KeyEvent) {
        let fresh = self.fresh();
        self.app.handle_key(key, &Syntax, fresh);
        self.settle();
    }

    fn tab(&self) -> &Tab {
        &self.app.tabs[self.app.active]
    }

    fn tab_mut(&mut self) -> &mut Tab {
        let active = self.app.active;
        &mut self.app.tabs[active]
    }

    fn offset(&self, record: usize) -> u64 {
        self.log[..record].iter().map(|r| r.raw().len() as u64 + 1).sum()
    }

    fn cursor(&self, record: usize) -> Cursor {
        Cursor::with(vec![(log_id(), ByteOffset(self.offset(record)))])
    }

    /// The log record at the cursor.
    fn record_at(&self, cursor: &Cursor) -> usize {
        let offset = cursor.get(&log_id()).unwrap_or(ByteOffset(0)).0;
        (0..self.log.len()).find(|i| self.offset(*i) >= offset).unwrap_or(0)
    }

    /// The log records that a view shows.
    fn visible(&self, view: &View) -> Vec<usize> {
        (view.first..self.log.len()).filter(|i| self.log[*i].passes(&view.filter)).collect()
    }

    fn content(&self, view: &View) -> Materialized {
        let mut content = Materialized::default();
        for (i, record) in self.visible(view).into_iter().enumerate() {
            let record = &self.log[record];
            content.first_line_for_event.push(content.formatted.len());
            for line in record.lines(&view.opts) {
                content.formatted.push(line);
                content.event_for_line.push(i);
            }
            content.events.push(Row::Event(EngineEvent {
                position: LogStreamPosition::new(log_id(), at(record.secs), i as u64),
                event: record.event(),
            }));
        }
        content
    }

    /// Moves a view, and tells the application where it stands then.
    fn moved(&mut self, tab: usize, go: impl Fn(&Materialized, usize) -> usize) {
        let view = self.views[tab].as_ref().unwrap();
        let content = self.content(view);
        let last = content.formatted.len().saturating_sub(1);
        let anchor = go(&content, view.anchor).min(last);
        let cursor = content
            .event_for_line
            .get(anchor)
            .map(|event| self.cursor(self.visible(view)[*event]));
        self.views[tab].as_mut().unwrap().anchor = anchor;
        self.app.view_moved(tab, content, cursor, anchor);
    }

    fn stream_filter(&self, stream: LogStreamId) -> Filter {
        self.app.session.streams.get(&stream.0).unwrap().filter.clone()
    }

    fn save(&mut self) -> bool {
        if self.broken {
            self.app.save_failed("no such directory");
            return false;
        }
        self.saves += 1;
        self.app.saved(1000);
        true
    }

    /// Does what the application asks for, until it asks for nothing.
    fn settle(&mut self) {
        loop {
            let commands = self.app.take_commands();
            if commands.is_empty() {
                return;
            }
            for command in commands {
                self.perform(command);
            }
            if !self.stalled {
                self.drain_long_op();
            }
        }
    }

    fn start_next(&mut self) {
        if let Some(tab_idx) = self.ops.drain_pending_summary_builds(&self.engine) {
            self.observed.clear();
            self.app.summary_started(tab_idx.get());
        }
    }

    /// Brings the summaries to an end, one after the other.
    fn drain_long_op(&mut self) {
        while let Some(LongOp::BuildSummary(op)) = &mut self.ops.long_op {
            self.observed.extend(op.advance(&self.engine));
            let Some(op) = self.ops.take_finished() else { continue };
            let tab = op.tab_idx.get();
            let word = if self.observed.len() == 1 { "event" } else { "events" };
            let mut lines = vec![format!("Summary: {} {word}", self.observed.len())];
            lines.extend(section("name", self.observed.iter().map(|e| e.name.0.clone())));
            lines.extend(section("msg", self.observed.iter().map(|e| e.msg.clone())));
            lines.extend(section("time", self.observed.iter().map(|e| e.time.to_second_text())));
            let content = op.finalize(lines, 1);
            self.app.summary_built(tab, content);
            self.start_next();
        }
    }

    fn cancel_long_op(&mut self) {
        let stopped = self.ops.cancel_long_op();
        self.app.long_op_cancelled(stopped);
    }

    fn perform(&mut self, command: Command) {
        match command {
            Command::OpenView { tab, stream } => {
                while self.views.len() <= tab {
                    self.views.push(None);
                }
                let opts = self.app.session.streams.get(&stream.0).unwrap().render_opts();
                let filter = self.stream_filter(stream);
                self.views[tab] = Some(View { filter, opts, first: 0, anchor: 0 });
                self.moved(tab, |_, _| 0);
            }
            Command::CloseView { tab } => {
                if tab < self.views.len() {
                    self.views.remove(tab);
                }
                self.ops.adjust_for_closed_tab(TabIdx(tab));
                self.start_next();
            }
            Command::ScrollDown { tab, lines } => {
                self.moved(tab, |_, anchor| anchor + lines);
            }
            Command::ScrollUp { tab, lines } => {
                self.moved(tab, |_, anchor| anchor.saturating_sub(lines));
            }
            Command::SeekToStart { tab } => {
                self.views[tab].as_mut().unwrap().first = 0;
                self.moved(tab, |_, _| 0);
            }
            Command::SeekToEnd { tab } => self.moved(tab, |_, _| usize::MAX),
            Command::SeekToCursor { tab, cursor } => {
                let record = self.record_at(&cursor);
                self.views[tab].as_mut().unwrap().first = record;
                self.moved(tab, |_, _| 0);
            }
            Command::SeekByTime { tab, direction, millis } => {
                self.moved(tab, |content, anchor| {
                    let times: Vec<i64> = content
                        .events
                        .iter()
                        .map(|r| match r {
                            Row::Event(e) => e.event.time.secs,
                            Row::Error(_) => 0,
                        })
                        .collect();
                    let from = times[content.event_for_line[anchor]];
                    let found = match direction {
                        Direction::Forward => {
                            times.iter().position(|t| *t >= from + millis / 1000)
                        }
                        Direction::Backward => {
                            times.iter().rposition(|t| *t <= from - millis / 1000)
                        }
                    };
                    found.map(|e| content.first_line_for_event[e]).unwrap_or(anchor)
                });
            }
            Command::SeekForSearch { tab, direction, pattern } => {
                let regex = regex::Regex::new(&pattern).unwrap();
                self.moved(tab, |content, anchor| {
                    let found = match direction {
                        Direction::Forward => (anchor + 1..content.formatted.len())
                            .find(|l| regex.is_match(&content.formatted[*l])),
                        Direction::Backward => {
                            (0..anchor).rfind(|l| regex.is_match(&content.formatted[*l]))
                        }
                    };
                    found.unwrap_or(anchor)
                });
            }
            Command::SetAnchor { tab, line } => {
                self.views[tab].as_mut().unwrap().anchor = line;
            }
            Command::Refilter { tab, stream } => {
                let filter = self.stream_filter(stream);
                let view = self.views[tab].as_ref().unwrap();
                let content = self.content(view);
                let top = content.event_for_line.get(view.anchor);
                let record = top.map(|e| self.visible(view)[*e]).unwrap_or(0);
                let view = self.views[tab].as_mut().unwrap();
                view.filter = filter;
                view.first = 0;
                let left = self.visible(self.views[tab].as_ref().unwrap());
                let event = left.iter().position(|r| *r >= record);
                self.moved(tab, |content, _| match event {
                    Some(event) => content.first_line_for_event[event],
                    None => usize::MAX,
                });
            }
            Command::Rerender { tab, opts, anchor } => {
                self.views[tab].as_mut().unwrap().opts = opts;
                let content = self.content(self.views[tab].as_ref().unwrap());
                let line =
                    anchor.and_then(|e| content.first_line_for_event.get(e)).copied();
                self.views[tab].as_mut().unwrap().anchor = line.unwrap_or(0);
                self.app.view_rerendered(tab, content, anchor);
            }
            Command::BuildSummary { tab, stream } => {
                while self.views.len() <= tab {
                    self.views.push(None);
                }
                let filter = self.stream_filter(stream);
                if self.ops.enqueue_summary_build(&self.engine, TabIdx(tab), filter) {
                    self.observed.clear();
                    self.app.summary_started(tab);
                }
            }
            Command::LocateRecord { tab, event } => {
                let record = self.visible(self.views[tab].as_ref().unwrap())[event];
                let cursor = self.cursor(record);
                self.app.record_located(tab, event, cursor);
            }
            Command::CheckBookmark { stream, cursor } => {
                let filter = self.stream_filter(stream);
                let passes = self.log[self.record_at(&cursor)].passes(&filter);
                self.app.bookmark_checked(passes);
            }
            Command::Interrupt { .. } => self.cancel_long_op(),
            Command::Save => {
                self.save();
            }
            Command::SaveAndShow(selector) => {
                if !self.save() {
                    return;
                }
                let session = self.app.session.id.to_text();
                let target = match selector {
                    Selector::WholeSession => String::new(),
                    Selector::Stream(name) => format!(" --stream '{name}'"),
                    Selector::Tab(name) => format!(" --tab '{name}'"),
                    Selector::Bookmark(name) => format!(" --bookmark {name}"),
                };
                self.app.reproduction_ready(format!("seeit --session {session}{target}"));
            }
        }
    }
}

fn type_into(a: &mut Seer, s: &str) {
    for c in s.chars() {
        a.press(key(KeyCode::Char(c)));
    }
}

fn multi_line_app(records: &[RecordSpec<'_>]) -> Seer {
    let log = records
        .iter()
        .map(|(secs, msg, extras)| Record {
            secs: *secs,
            host: "h".to_string(),
            msg: msg.to_string(),
            extras: extras.iter().map(|(k, v)| (k.to_string(), v.to_string())).collect(),
        })
        .collect();
    let mut a = Seer::over(log, Session::new(SessionId(7), at(0)), false);
    a.toggle_show_extras();
    a.settle();
    a.viewport_height = 10;
    a
}

fn five_record_app() -> Seer {
    let mut a = multi_line_app(&[
        (10, "first", &[]),
        (20, "second", &[]),
        (30, "third", &[]),
        (40, "fourth", &[]),
        (50, "fifth", &[]),
    ]);
    a.viewport_height = 2;
    a
}

/// A log of `n` records, shown ten lines at a time.
fn host_app(n: i64) -> Seer {
    let log = (0..n)
        .map(|i| Record {
            secs: 10 + i,
            host: "h".to_string(),
            msg: format!("payload-m{i}"),
            extras: Vec::new(),
        })
        .collect();
    let mut a = Seer::over(log, Session::new(SessionId(7), at(0)), false);
    a.viewport_height = 10;
    a
}

/// A saved session without a log.
fn app_with_store_and_one_tab() -> Seer {
    let mut a = Seer::over(Vec::new(), Session::new(SessionId(7), at(0)), true);
    a.save_after_inline_mutation();
    a.settle();
    a.saves = 0;
    a
}

fn parsed(text: &str) -> Filter {
    Syntax.parse(text).unwrap()
}

/// The message of the record at the top.
fn viewport_top_msg(a: &Seer) -> Option<String> {
    let tab = a.tab();
    let event = *tab.event_for_line().get(tab.viewport_top)?;
    match tab.events().get(event)? {
        Row::Event(ee) => Some(ee.event.msg.clone()),
        Row::Error(_) => None,
    }
}

fn create_bookmark(a: &mut Seer, row: usize, name: Option<&str>) {
    a.press(key(KeyCode::Char('b')));
    for _ in 0..row {
        a.press(key(KeyCode::Char('j')));
    }
    a.press(key(KeyCode::Enter));
    if let Some(n) = name {
        type_into(a, n);
    }
    a.press(key(KeyCode::Enter));
}

fn draft(msg: &str) -> BookmarkDraft {
    BookmarkDraft {
        cursor: Cursor::new(),
        display_source: SourceId::new("test".to_string()),
        display_time: at(100),
        display_name: "Nexus".to_string(),
        display_msg: msg.to_string(),
    }
}

fn add_bookmark_at(a: &mut Seer, stream: LogStreamId, secs: i64, label: &str) {
    let fresh = a.fresh();
    let mut draft = draft(label);
    draft.display_time = at(secs);
    a.session.add_bookmark(Bookmark {
        id: fresh.bookmark,
        stream,
        created_at: fresh.now,
        name: Some(BookmarkName(label.to_string())),
        draft,
    });
}

fn enter_bookmarks_pane_with(a: &mut Seer, n: usize) {
    let stream = a.tabs[a.active].stream;
    for i in 0..n {
        add_bookmark_at(a, stream, (i as i64) + 1, &format!("bm-{i}"));
    }
    while !a.bookmarks_active() {
        a.press(key(KeyCode::Tab));
    }
}

fn focus_display_field(a: &mut Seer, target: DisplayFieldItem) {
    for _ in 0..DISPLAY_FIELD_COUNT * 2 {
        if let Some(Dialog::DisplayFields { cursor, .. }) = &a.dialog {
            if display_field_item(*cursor) == target {
                return;
            }
        }
        a.press(key(KeyCode::Char('j')));
    }
    panic!("never landed on {target:?} after walking the dialog twice");
}

fn rect(area: Area) -> Rect {
    Rect::new(area.x, area.y, area.width, area.height)
}

fn style(emphasis: Emphasis) -> Style {
    match emphasis {
        Emphasis::Plain => Style::new(),
        Emphasis::Reversed => Style::new().add_modifier(Modifier::REVERSED),
        Emphasis::Bold => Style::new().add_modifier(Modifier::BOLD),
        Emphasis::Error => Style::new().fg(Color::Red),
        Emphasis::Selected => Style::new().bg(Color::DarkGray).add_modifier(Modifier::BOLD),
    }
}

fn painted(lines: &[seer::screen::Line]) -> Vec<Line<'_>> {
    lines
        .iter()
        .map(|l| {
            let spans: Vec<Span<'_>> = l
                .spans
                .iter()
                .map(|s| Span::styled(s.content.as_str(), style(s.style)))
                .collect();
            Line::from(spans).style(style(l.style))
        })
        .collect()
}

fn paint_error(error: &Option<(Area, String)>, buffer: &mut Buffer) {
    if let Some((area, text)) = error {
        Paragraph::new(text.as_str())
            .style(style(Emphasis::Error))
            .render(rect(*area), buffer);
    }
}

/// Draws the screen, and writes its cells down.
fn paint(screen: &Screen, regions: &Regions, buffer: &mut Buffer) {
    let titles: Vec<Line<'_>> =
        screen.titles.iter().map(|t| Line::raw(t.as_str())).collect();
    Tabs::new(titles)
        .select(screen.selected)
        .highlight_style(style(Emphasis::Reversed))
        .render(rect(regions.tabs), buffer);
    let mut body = Paragraph::new(painted(&screen.content));
    if screen.wrap {
        body = body.wrap(Wrap { trim: false });
    }
    body.render(rect(regions.content), buffer);
    if let Some(text) = &screen.fetch_stats {
        Paragraph::new(text.as_str()).render(rect(regions.fetch_stats), buffer);
    }
    if let Some(text) = &screen.status {
        Paragraph::new(text.as_str()).render(rect(regions.status), buffer);
    }
    match &screen.bottom {
        Bottom::Footer(text) => {
            Paragraph::new(text.as_str()).render(rect(regions.bottom), buffer);
        }
        Bottom::Prompt(prompt) => {
            Paragraph::new(prompt.text.as_str()).render(rect(regions.bottom), buffer);
            paint_error(&prompt.error, buffer);
        }
    }
    if let Some(popup) = &screen.popup {
        Clear.render(rect(popup.area), buffer);
        Block::bordered().title(popup.title.as_str()).render(rect(popup.area), buffer);
        Paragraph::new(painted(&popup.body)).render(rect(popup.body_area), buffer);
        paint_error(&popup.error, buffer);
    }
}

impl Seer {
    fn draw(&mut self, size: (u16, u16)) -> Buffer {
        let area = Area { x: 0, y: 0, width: size.0, height: size.1 };
        let regions = divide_screen(&self.app, area);
        self.app.fit_viewport(regions.content.height, regions.content.width);
        let status = ViewStatus { forward_eof: true, offset: Some(0), total_bytes: 100 };
        let screen = render(&self.app, area, regions, status, self.ops.long_op.as_ref());
        let mut buffer = Buffer::empty(Rect::new(0, 0, size.0, size.1));
        paint(&screen, &regions, &mut buffer);
        buffer
    }

    fn dump(&mut self, size: (u16, u16)) -> String {
        let buf = self.draw(size);
        let mut out = String::new();
        for y in 0..buf.area.height {
            for x in 0..buf.area.width {
                out.push_str(buf[(x, y)].symbol());
            }
            out.push('\n');
        }
        out
    }
}

#[test]
fn render_emits_multiple_lines_per_event_with_extras() {
    let a = multi_line_app(&[
        (10, "starting", &[("build", r#""0.1.0""#)]),
        (20, "tick", &[]),
        (30, "loaded", &[("zones", "4"), ("ms", "12")]),
    ]);
    let tab = a.tab();
    assert_eq!(tab.events().len(), 3);
    assert_eq!(tab.formatted().len(), 6);
    assert_eq!(
        tab.first_line_for_event(),
        &[0, 2, 3],
    );
    assert_eq!(
        tab.event_for_line(),
        &[
            0,
            0,
            1,
            2,
            2,
            2,
        ],
    );
    assert!(tab.formatted()[0].ends_with(" starting"));
    assert_eq!(tab.formatted()[1], r#"    build = "0.1.0""#);
    assert!(tab.formatted()[2].ends_with(" tick"));
    assert!(tab.formatted()[3].ends_with(" loaded"));
    assert_eq!(tab.formatted()[4], "    ms = 12");
    assert_eq!(tab.formatted()[5], "    zones = 4");
}

#[test]
fn select_j_moves_to_next_event_skipping_extra_lines() {
    let mut a = multi_line_app(&[
        (10, "first", &[("a", "1"), ("b", "2")]),
        (20, "second", &[]),
    ]);
    a.press(key(KeyCode::Char('x')));
    assert_eq!(a.tab().select.unwrap().event_idx, 0);
    a.press(key(KeyCode::Char('j')));
    assert_eq!(a.tab().select.unwrap().event_idx, 1);
}

#[test]
fn render_highlights_all_lines_of_selected_event() {
    let mut a = multi_line_app(&[
        (10, "first", &[]),
        (20, "second", &[("a", "1"), ("b", "2")]),
        (30, "third", &[]),
    ]);
    a.press(key(KeyCode::Char('x')));
    a.press(key(KeyCode::Char('j')));
    let size = (80, 7);
    let buf = a.draw(size);
    for y in [2u16, 3, 4] {
        assert!(
            buf[(0, y)].style().bg == Some(Color::DarkGray),
            "expected DarkGray bg on line {y} of selected event",
        );
    }
    assert!(buf[(0, 1)].style().bg != Some(Color::DarkGray));
    assert!(buf[(0, 5)].style().bg != Some(Color::DarkGray));
}

#[test]
fn time_anchor_works_when_viewport_parks_on_extras_line() {
    let mut a = multi_line_app(&[
        (10, "first", &[("k", "1")]),
        (80, "later", &[]),
        (90, "filler", &[]),
        (100, "filler", &[]),
        (110, "filler", &[]),
    ]);
    a.viewport_height = 2;
    a.tab_mut().viewport_top = 1;
    a.press(shift('>'));
    assert_eq!(a.tab().viewport_top, 2);
}

#[test]
fn footer_reports_entry_count_in_select_mode() {
    let mut a = multi_line_app(&[
        (10, "first", &[("k", "1")]),
        (20, "second", &[]),
        (30, "third", &[("k", "1"), ("z", "9")]),
    ]);
    a.press(key(KeyCode::Char('x')));
    let size = (120, 8);
    let dump = a.dump(size);
    assert!(
        dump.contains("entry 1/3"),
        "expected entry count in footer, got:\n{dump}",
    );
}

#[test]
fn raw_mode_wraps_at_column_boundary_not_whitespace() {
    let mut a = multi_line_app(&[(10, "first message", &[])]);
    a.toggle_show_raw();
    a.settle();
    let size = (30, 8);
    let dump = a.dump(size);
    let raw = a.tab().formatted()[0].clone();
    assert!(
        raw.starts_with('{') && raw.contains(r#""msg":"first message""#),
        "raw line should be JSON: {raw}",
    );
    for chunk in column_chunks(&raw, 30) {
        assert!(
            dump.contains(chunk),
            "expected column chunk {chunk:?} in dump:\n{dump}",
        );
    }
}

#[test]
fn shift_f_toggles_show_extras_and_repaints() {
    let mut a = multi_line_app(&[
        (10, "first", &[("build", r#""0.1.0""#)]),
        (20, "tick", &[]),
    ]);
    assert!(a.active_stream().show_extras);
    assert_eq!(a.tab().formatted().len(), 3);
    a.press(shift('F'));
    assert!(!a.active_stream().show_extras);
    assert_eq!(a.tab().formatted().len(), 2);
    a.press(key(KeyCode::Char('F')));
    assert!(a.active_stream().show_extras);
    assert_eq!(a.tab().formatted().len(), 3);
}

#[test]
fn show_extras_toggle_preserves_anchor_record() {
    let mut a = multi_line_app(&[
        (10, "first", &[]),
        (20, "second", &[("a", "1"), ("b", "2")]),
        (30, "third", &[]),
    ]);
    a.tab_mut().viewport_top = 1;
    a.press(shift('F'));
    assert_eq!(a.tab().viewport_top, 1);
    assert_eq!(a.tab().formatted().len(), 3);
    a.press(shift('F'));
    assert_eq!(a.tab().viewport_top, 1);
}

#[test]
fn shift_r_toggles_show_raw_and_renders_raw_bytes() {
    let mut a =
        multi_line_app(&[(10, "first", &[("build", r#""0.1.0""#)])]);
    assert!(!a.active_stream().show_raw);
    assert_eq!(a.tab().formatted().len(), 2);
    assert!(a.tab().formatted()[0].contains("INFO"));
    a.press(shift('R'));
    assert!(a.active_stream().show_raw);
    assert_eq!(a.tab().formatted().len(), 1);
    assert!(
        a.tab().formatted()[0].starts_with('{')
            && a.tab().formatted()[0].contains(r#""msg":"first""#),
        "raw row should be the source JSON: {:?}",
        a.tab().formatted()[0],
    );
    a.press(key(KeyCode::Char('R')));
    assert!(!a.active_stream().show_raw);
    assert_eq!(a.tab().formatted().len(), 2);
    assert!(a.tab().formatted()[0].contains("INFO"));
}

#[test]
fn streams_default_to_showing_date() {
    let a = multi_line_app(&[(10, "first", &[])]);
    assert!(a.active_stream().show_date);
    let row = &a.tab().formatted()[0];
    assert!(
        row.starts_with("1970-01-01T00:00:10.000Z "),
        "expected dated header, got {row:?}",
    );
}

#[test]
fn shift_d_toggles_show_date_and_repaints() {
    let mut a = multi_line_app(&[(10, "first", &[])]);
    assert!(a.active_stream().show_date);
    let dated = a.tab().formatted()[0].clone();
    assert!(dated.starts_with("1970-01-01T00:00:10.000Z "));
    a.press(shift('D'));
    assert!(!a.active_stream().show_date);
    let undated = a.tab().formatted()[0].clone();
    assert!(
        undated.starts_with("00:00:10.000Z "),
        "expected time-only header, got {undated:?}",
    );
    a.press(key(KeyCode::Char('D')));
    assert!(a.active_stream().show_date);
    assert!(a.tab().formatted()[0].starts_with("1970-01-01T"));
}

#[test]
fn show_date_toggle_preserves_viewport_position() {
    let mut a = multi_line_app(&[
        (10, "first", &[]),
        (20, "second", &[]),
        (30, "third", &[]),
    ]);
    a.press(shift('F'));
    a.tab_mut().viewport_top = 1;
    let lines_before = a.tab().formatted().len();
    a.press(shift('D'));
    assert_eq!(a.tab().viewport_top, 1);
    assert_eq!(a.tab().formatted().len(), lines_before);
}

#[test]
fn streams_default_to_short_hostname() {
    let a = multi_line_app(&[(10, "first", &[])]);
    assert_eq!(a.active_stream().hostname_display, HostnameDisplay::Short);
}

#[test]
fn d_opens_display_fields_dialog_with_active_opts() {
    let mut a = multi_line_app(&[(10, "first", &[])]);
    a.press(key(KeyCode::Char('d')));
    match &a.dialog {
        Some(Dialog::DisplayFields { draft, cursor }) => {
            assert_eq!(*cursor, 0);
            assert_eq!(*draft, a.active_stream().render_opts());
        }
        _ => panic!("expected DisplayFields dialog"),
    }
}

#[test]
fn display_fields_dialog_jk_navigates_with_wrap() {
    let mut a = multi_line_app(&[(10, "first", &[])]);
    a.press(key(KeyCode::Char('d')));
    a.press(key(KeyCode::Char('j')));
    match &a.dialog {
        Some(Dialog::DisplayFields { cursor, .. }) => {
            assert_eq!(*cursor, 1);
        }
        _ => panic!("dialog closed unexpectedly"),
    }
    a.press(key(KeyCode::Char('k')));
    match &a.dialog {
        Some(Dialog::DisplayFields { cursor, .. }) => {
            assert_eq!(*cursor, 0);
        }
        _ => panic!("dialog closed unexpectedly"),
    }
    a.press(key(KeyCode::Char('k')));
    match &a.dialog {
        Some(Dialog::DisplayFields { cursor, .. }) => {
            assert_eq!(*cursor, DISPLAY_FIELD_COUNT - 1);
        }
        _ => panic!("dialog closed unexpectedly"),
    }
}

#[test]
fn display_fields_dialog_tab_navigates_like_j() {
    let mut a = multi_line_app(&[(10, "first", &[])]);
    a.press(key(KeyCode::Char('d')));
    a.press(key(KeyCode::Tab));
    match &a.dialog {
        Some(Dialog::DisplayFields { cursor, .. }) => {
            assert_eq!(*cursor, 1);
        }
        _ => panic!("dialog closed unexpectedly"),
    }
    a.press(key(KeyCode::BackTab));
    match &a.dialog {
        Some(Dialog::DisplayFields { cursor, .. }) => {
            assert_eq!(*cursor, 0);
        }
        _ => panic!("dialog closed unexpectedly"),
    }
}

#[test]
fn shifted_back_tab_moves_back_too() {
    let mut a = multi_line_app(&[(10, "first", &[])]);
    a.press(key(KeyCode::Char('d')));
    a.press(key(KeyCode::Tab));
    a.press(KeyEvent::new(KeyCode::BackTab, KeyModifiers { shift: true, ..PLAIN }));
    match &a.dialog {
        Some(Dialog::DisplayFields { cursor, .. }) => {
            assert_eq!(*cursor, 0);
        }
        _ => panic!("dialog closed unexpectedly"),
    }
}

#[test]
fn display_fields_dialog_space_selects_hostname_radio() {
    let mut a = multi_line_app(&[(10, "first", &[])]);
    a.press(key(KeyCode::Char('d')));
    focus_display_field(&mut a, DisplayFieldItem::HostnameFull);
    a.press(key(KeyCode::Char(' ')));
    match &a.dialog {
        Some(Dialog::DisplayFields { draft, .. }) => {
            assert_eq!(draft.hostname, HostnameDisplay::Full);
        }
        _ => panic!("dialog closed unexpectedly"),
    }
    assert_eq!(a.active_stream().hostname_display, HostnameDisplay::Short);
    a.press(key(KeyCode::Enter));
    assert!(a.dialog.is_none());
    assert_eq!(a.active_stream().hostname_display, HostnameDisplay::Full);
}

#[test]
fn display_fields_dialog_space_toggles_pid_checkbox() {
    let mut a = multi_line_app(&[(10, "first", &[])]);
    let before = a.active_stream().render_opts();
    assert!(!before.show_pid, "default is pid hidden");
    a.press(key(KeyCode::Char('d')));
    focus_display_field(&mut a, DisplayFieldItem::Pid);
    a.press(key(KeyCode::Char(' ')));
    a.press(key(KeyCode::Enter));
    assert!(a.active_stream().render_opts().show_pid);
}

#[test]
fn display_fields_dialog_esc_discards_draft() {
    let mut a = multi_line_app(&[(10, "first", &[])]);
    let before = a.active_stream().render_opts();
    a.press(key(KeyCode::Char('d')));
    focus_display_field(&mut a, DisplayFieldItem::HostnameNone);
    a.press(key(KeyCode::Char(' ')));
    a.press(key(KeyCode::Esc));
    assert!(a.dialog.is_none());
    assert_eq!(a.active_stream().render_opts(), before);
}

#[test]
fn shift_s_opens_summary_tab_without_dialog() {
    let mut a =
        multi_line_app(&[(10, "first", &[]), (20, "second", &[])]);
    let initial_tabs = a.tabs.len();
    a.press(shift('S'));
    assert_eq!(a.tabs.len(), initial_tabs + 1);
    assert_eq!(a.active, a.tabs.len() - 1);
    assert_eq!(a.tab().kind, TabKind::Summary);
    assert!(a.dialog.is_none());
}

#[test]
fn shift_s_inherits_active_filter() {
    let mut a =
        multi_line_app(&[(10, "alpha", &[]), (20, "beta", &[])]);
    let f = parsed("msg=alpha");
    a.apply_filter(f.clone());
    a.settle();
    a.press(shift('S'));
    assert_eq!(a.tab().kind, TabKind::Summary);
    assert!(
        a.tab().formatted()[0].starts_with("Summary: 1 event"),
        "summary should reflect inherited filter; got {:?}",
        a.tab().formatted().first(),
    );
    let stream_id = a.tab().stream;
    let stream_filter = &a.session.streams.get(&stream_id.0).unwrap().filter;
    assert_eq!(Syntax.show(stream_filter), Syntax.show(&f));
}

#[test]
fn summary_tab_f_opens_filter_dialog() {
    let mut a = multi_line_app(&[(10, "first", &[])]);
    a.press(shift('S'));
    assert!(a.dialog.is_none());
    a.press(key(KeyCode::Char('f')));
    assert!(matches!(a.dialog, Some(Dialog::Filter { .. })));
}

#[test]
fn bare_s_opens_summary_tab() {
    let mut a = multi_line_app(&[(10, "first", &[])]);
    a.press(key(KeyCode::Char('S')));
    assert_eq!(a.tab().kind, TabKind::Summary);
}

#[test]
fn summary_tab_renders_field_and_time_sections() {
    let mut a = multi_line_app(&[
        (10, "first", &[]),
        (20, "first", &[]),
        (30, "second", &[]),
    ]);
    a.press(shift('S'));
    assert!(a.dialog.is_none());
    assert_eq!(a.tab().kind, TabKind::Summary);
    let lines = a.tab().formatted();
    assert!(lines.iter().any(|l| l.starts_with("Summary: 3 events")));
    assert!(lines.iter().any(|l| l.starts_with("== name")));
    assert!(lines.iter().any(|l| l.starts_with("== msg")));
    assert!(lines.iter().any(|l| l.starts_with("== time")));
    // what the scan observed, record by record
    for expected in [
        "== msg (2 distinct)",
        "2  first",
        "1  second",
        "== time (3 distinct)",
        "1  1970-01-01 00:00:10",
        "1  1970-01-01 00:00:20",
        "1  1970-01-01 00:00:30",
    ] {
        assert!(lines.iter().any(|l| l == expected), "{expected} in {lines:?}");
    }
}

#[test]
fn summary_tab_filter_apply_re_renders() {
    let mut a =
        multi_line_app(&[(10, "first", &[]), (20, "second", &[])]);
    a.press(shift('S'));
    a.press(key(KeyCode::Char('f')));
    type_into(&mut a, "msg=second");
    a.press(key(KeyCode::Enter));
    assert!(a.dialog.is_none());
    let lines = a.tab().formatted();
    assert!(
        lines.iter().any(|l| l.starts_with("Summary: 1 event")),
        "expected one-event summary, got:\n{}",
        lines.join("\n"),
    );
}

#[test]
fn summary_tab_keeps_select_mode_inactive() {
    let mut a = multi_line_app(&[(10, "first", &[])]);
    a.press(shift('S'));
    a.press(key(KeyCode::Char('x')));
    assert!(a.tab().select.is_none());
    a.press(shift('X'));
    assert!(a.tab().select.is_none());
    a.press(key(KeyCode::Char('b')));
    assert!(a.tab().select.is_none());
}

#[test]
fn summary_tab_footer_omits_record_only_keys() {
    let mut a = multi_line_app(&[(10, "first", &[])]);
    a.press(shift('S'));
    let size = (160, 6);
    let dump = a.dump(size);
    assert!(dump.contains("q quit"), "dump:\n{dump}");
    assert!(dump.contains("h help"), "dump:\n{dump}");
    assert!(!dump.contains("x/X exclude"), "dump:\n{dump}");
    assert!(!dump.contains("F fields="), "dump:\n{dump}");
}

#[test]
fn summary_tab_tab_name_is_summary_n() {
    let mut a = multi_line_app(&[(10, "first", &[])]);
    a.press(shift('S'));
    assert!(
        a.tab().name.starts_with("Summary "),
        "expected `Summary N`, got {:?}",
        a.tab().name,
    );
}

#[test]
fn summary_tab_renders_after_build_completes() {
    let mut a =
        multi_line_app(&[(10, "first", &[]), (20, "second", &[])]);
    a.press(shift('S'));
    let size = (160, 20);
    a.draw(size);
}

#[test]
fn bookmark_captures_nondefault_cursor_under_real_engine() {
    let mut a = multi_line_app(&[
        (10, "first", &[]),
        (20, "second", &[]),
        (30, "third", &[]),
    ]);
    a.press(shift('F'));
    create_bookmark(&mut a, 2, Some("third"));
    let bm = a.flat_bookmarks()[0];
    let (_, offset) = bm.draft.cursor.entries().first().expect("source recorded");
    assert!(
        offset.get() > 0,
        "expected non-zero offset, got {}",
        offset.get()
    );
    assert_eq!(bm.draft.display_msg, "third");
}

#[test]
fn bookmark_navigation_lands_on_bookmarked_event() {
    let mut a = multi_line_app(&[
        (10, "first", &[]),
        (20, "second", &[]),
        (30, "third", &[]),
    ]);
    a.press(shift('F'));
    create_bookmark(&mut a, 2, Some("third"));
    a.press(key(KeyCode::Char('g')));
    assert_eq!(a.tab().viewport_top, 0);
    a.press(key(KeyCode::Tab));
    a.press(key(KeyCode::Char('j')));
    a.press(key(KeyCode::Char('k')));
    a.press(key(KeyCode::Enter));
    assert_eq!(a.tab().viewport_top, 0);
    let line0 = &a.tab().formatted()[0];
    assert!(line0.contains("third"), "first formatted line was {line0:?}");
    assert!(a.notice.is_none());
}

#[test]
fn bookmark_navigation_under_hiding_filter_sets_notice() {
    let mut a = multi_line_app(&[
        (10, "first", &[]),
        (20, "second", &[]),
        (30, "third", &[]),
    ]);
    a.press(shift('F'));
    create_bookmark(&mut a, 1, Some("second"));
    let filter = parsed("msg!=second");
    a.apply_filter(filter);
    a.settle();
    a.press(key(KeyCode::Tab));
    a.press(key(KeyCode::Char('j')));
    a.press(key(KeyCode::Char('k')));
    a.press(key(KeyCode::Enter));
    let n = a.notice.as_deref().unwrap_or_default();
    assert!(n.contains("hidden"), "notice was: {n:?}");
}

#[test]
fn apply_filter_preserves_viewport_when_anchor_survives() {
    let mut a = five_record_app();
    a.press(key(KeyCode::Char('j')));
    a.press(key(KeyCode::Char('j')));
    assert_eq!(viewport_top_msg(&a).as_deref(), Some("third"));
    let filter = parsed("level>=trace");
    a.apply_filter(filter);
    a.settle();
    assert_eq!(viewport_top_msg(&a).as_deref(), Some("third"));
}

#[test]
fn apply_filter_falls_forward_when_anchor_is_excluded() {
    let mut a = five_record_app();
    a.press(key(KeyCode::Char('j')));
    a.press(key(KeyCode::Char('j')));
    assert_eq!(viewport_top_msg(&a).as_deref(), Some("third"));
    let filter = parsed("msg!=third");
    a.apply_filter(filter);
    a.settle();
    assert_eq!(viewport_top_msg(&a).as_deref(), Some("fourth"));
}

#[test]
fn apply_filter_falls_back_when_no_later_record_visible() {
    let mut a = five_record_app();
    for _ in 0..3 {
        a.press(key(KeyCode::Char('j')));
    }
    assert_eq!(viewport_top_msg(&a).as_deref(), Some("fourth"));
    let filter = parsed("msg!=fourth msg!=fifth");
    a.apply_filter(filter);
    a.settle();
    let formatted = a.tab().formatted();
    assert!(
        formatted.iter().any(|l| l.contains("third")),
        "expected fallback to land 'third' in the viewport, \
         got {formatted:?}",
    );
    assert_eq!(viewport_top_msg(&a).as_deref(), Some("second"));
}

#[test]
fn x_exclude_keeps_view_near_excluded_record() {
    let mut a = five_record_app();
    a.press(key(KeyCode::Char('j')));
    a.press(key(KeyCode::Char('j')));
    a.press(key(KeyCode::Char('x')));
    a.press(key(KeyCode::Enter));
    assert_eq!(viewport_top_msg(&a).as_deref(), Some("fourth"));
}

#[test]
fn streams_default_to_hiding_extras() {
    let log = vec![
        Record {
            secs: 10,
            host: "h".to_string(),
            msg: "first".to_string(),
            extras: vec![("build".to_string(), r#""0.1.0""#.to_string())],
        },
        Record {
            secs: 11,
            host: "h".to_string(),
            msg: "second".to_string(),
            extras: vec![("zones".to_string(), "4".to_string())],
        },
    ];
    let a = Seer::over(log, Session::new(SessionId(7), at(0)), false);
    let tab = a.tab();
    assert_eq!(tab.events().len(), 2);
    assert_eq!(tab.formatted().len(), 2, "extras should be hidden");
    assert!(tab.formatted()[0].ends_with(" first"));
    assert!(tab.formatted()[1].ends_with(" second"));
    assert!(!a.active_stream().show_extras);
}

#[test]
fn k_after_seek_to_end_advances_viewport_top() {
    let mut a = host_app(300);
    a.press(shift('G'));
    let after_g = a.tab().viewport_top;
    assert_eq!(after_g, 290);
    a.press(key(KeyCode::Char('k')));
    assert!(
        a.tab().viewport_top < after_g,
        "viewport_top should retreat after k; was {after_g}, now {}",
        a.tab().viewport_top,
    );
}

#[test]
fn j_after_search_advances_viewport_top() {
    let mut a = host_app(300);
    a.press(key(KeyCode::Char('/')));
    type_into(&mut a, r"payload-m129\b");
    a.press(key(KeyCode::Enter));
    let after_search = a.tab().viewport_top;
    assert_eq!(after_search, 129);
    for _ in 0..3 {
        a.press(key(KeyCode::Char('j')));
    }
    assert_eq!(a.tab().viewport_top, after_search + 3);
}

#[test]
fn dialog_apply_resets_viewport_and_requeries_engine() {
    let mut a = multi_line_app(&[
        (10, "info", &[]),
        (11, "info", &[]),
        (12, "info", &[]),
        (13, "info", &[]),
        (14, "info", &[]),
        (15, "warn", &[]),
    ]);
    a.viewport_height = 2;
    a.tab_mut().viewport_top = 3;
    assert_eq!(a.tab().formatted().len(), 6);
    a.press(key(KeyCode::Char('f')));
    type_into(&mut a, "msg=warn");
    a.press(key(KeyCode::Enter));
    assert!(a.dialog.is_none());
    assert_eq!(a.tab().formatted().len(), 1);
    assert_eq!(a.tab().viewport_top, 0);
}

#[test]
fn interrupting_asks_the_view_on_show_to_stop() {
    let mut a = host_app(5);
    a.interrupt();
    let asked = a.take_commands();
    assert!(matches!(asked[0], Command::Interrupt { tab: 0 }), "{asked:?}");
}

#[test]
fn closing_a_tab_closes_its_view() {
    let mut a = host_app(5);
    a.press(ctrl('t'));
    a.press(key(KeyCode::Esc));
    assert_eq!(a.views.len(), 2);
    a.press(ctrl('w'));
    assert_eq!(a.views.len(), 1);
    assert_eq!(a.tabs.len(), 1);
    a.press(key(KeyCode::Char('j')));
    assert_eq!(a.tab().formatted().len(), 5);
}

// the store

#[test]
fn try_save_now_persists_session_and_marks_policy_clean() {
    let mut a = app_with_store_and_one_tab();
    a.policy.record(Cadence::Debounced);
    assert!(a.policy.dirty());
    a.save_after_inline_mutation();
    a.settle();
    assert!(!a.policy.dirty());
    assert_eq!(a.saves, 1);
}

#[test]
fn try_save_now_is_a_noop_without_a_store() {
    let mut a = host_app(0);
    assert!(!a.stored);
    a.policy.record(Cadence::Debounced);
    a.save_after_inline_mutation();
    a.settle();
    assert!(a.policy.dirty(), "dirty bit untouched without a store");
    assert_eq!(a.saves, 0);
}

#[test]
fn add_bookmark_persists_inline() {
    let mut a = app_with_store_and_one_tab();
    assert_eq!(a.session.bookmark_count(), 0);
    let stream = a.tabs[a.active].stream;
    let fresh = a.fresh();
    a.add_bookmark(Some(BookmarkName("here".to_string())), draft("marked"), fresh);
    a.settle();
    assert!(!a.policy.dirty(), "save flushed the dirty bit");
    assert_eq!(a.saves, 1);
    let flat = a.flat_bookmarks();
    assert_eq!(flat.len(), 1);
    assert_eq!(flat[0].stream, stream);
    assert_eq!(flat[0].draft.display_msg, "marked");
}

#[test]
fn delete_bookmark_persists_inline() {
    let mut a = app_with_store_and_one_tab();
    let fresh = a.fresh();
    a.add_bookmark(None, draft("doomed"), fresh);
    a.settle();
    let id = a.flat_bookmarks()[0].id;
    a.delete_bookmark(id);
    a.settle();
    assert!(!a.policy.dirty());
    assert_eq!(a.saves, 2);
    assert_eq!(a.session.bookmark_count(), 0);
}

#[test]
fn any_key_clears_the_notice() {
    let mut a = multi_line_app(&[(10, "first", &[])]);
    a.notice = Some("over a tab".to_string());
    a.press(key(KeyCode::Char('f')));
    assert_eq!(a.notice, None);
    a.notice = Some("over a dialog".to_string());
    a.press(key(KeyCode::Char('x')));
    assert_eq!(a.notice, None);
    a.press(key(KeyCode::Esc));
    a.press(key(KeyCode::Char('x')));
    assert!(a.tab().select.is_some());
    a.notice = Some("over a selection".to_string());
    a.press(key(KeyCode::Char('j')));
    assert_eq!(a.notice, None);
}

#[test]
fn the_bookmark_cursor_goes_with_the_last_bookmark() {
    let mut a = app_with_store_and_one_tab();
    let fresh = a.fresh();
    a.add_bookmark(None, draft("doomed"), fresh);
    a.settle();
    let id = a.flat_bookmarks()[0].id;
    a.bookmark_cursor = Some(id);
    a.delete_bookmark(id);
    a.settle();
    assert_eq!(a.bookmark_cursor, None);
}

#[test]
fn push_tab_persists_the_new_stream_inline() {
    let mut a = app_with_store_and_one_tab();
    let before = a.session.streams.len();
    let fresh = a.fresh();
    a.push_tab(TabKind::Stream, Filter::default(), fresh.stream);
    a.settle();
    assert!(!a.policy.dirty());
    assert_eq!(a.saves, 1);
    assert_eq!(a.session.streams.len(), before + 1);
}

#[test]
fn save_mirrors_tabs_into_session_tabs() {
    let mut a = app_with_store_and_one_tab();
    let first = a.tabs[0].stream;
    let fresh = a.fresh();
    a.push_tab(TabKind::Stream, Filter::default(), fresh.stream);
    a.settle();
    let second = a.tabs[1].stream;
    assert_eq!(a.session.tabs.len(), 2);
    assert_eq!(a.session.tabs[0].stream, first);
    assert_eq!(a.session.tabs[0].kind, TabKind::Stream);
    assert_eq!(a.session.tabs[1].stream, second);
    assert_eq!(a.session.tabs[1].kind, TabKind::Stream);
}

#[test]
fn rename_persists_inline_and_survives_reload() {
    let mut a = app_with_store_and_one_tab();
    a.press(key(KeyCode::Char('r')));
    a.press(ctrl('u'));
    type_into(&mut a, "Nexus");
    a.press(key(KeyCode::Enter));
    assert!(!a.policy.dirty(), "save flushed the dirty bit");
    assert_eq!(a.saves, 1);
    assert_eq!(a.session.tabs.len(), 1);
    assert_eq!(a.session.tabs[0].name, "Nexus");

    let again = Seer::over(Vec::new(), a.app.session, true);
    assert_eq!(again.tabs.len(), 1);
    assert_eq!(again.tabs[0].name, "Nexus");
}

#[test]
fn save_records_summary_tab_kind() {
    let mut a = app_with_store_and_one_tab();
    let fresh = a.fresh();
    a.push_tab(TabKind::Summary, Filter::default(), fresh.stream);
    a.settle();
    let summary = a
        .session
        .tabs
        .iter()
        .find(|t| t.kind == TabKind::Summary)
        .expect("the summary tab should round-trip");
    assert_eq!(summary.stream, a.tabs[1].stream);
}

#[test]
fn apply_filter_persists_the_new_filter_inline() {
    let mut a = app_with_store_and_one_tab();
    let stream = a.tabs[a.active].stream;
    let pattern = seer::pattern::compile_pattern("hello").unwrap();
    let mut filter = Filter::default();
    filter.add_predicate(Predicate::Event(EventPredicate::MsgMatches {
        pattern,
        form: Form::Affirmed,
    }));
    let expected = format!("{filter:?}");
    a.apply_filter(filter);
    a.settle();
    assert!(!a.policy.dirty());
    assert_eq!(a.saves, 1);
    let kept = &a.session.streams.get(&stream.0).unwrap().filter;
    assert_eq!(format!("{kept:?}"), expected);
}

#[test]
fn toggle_show_extras_persists_inline() {
    let mut a = app_with_store_and_one_tab();
    let stream = a.tabs[a.active].stream;
    let before = a.session.streams.get(&stream.0).unwrap().show_extras;
    a.toggle_show_extras();
    a.settle();
    assert!(!a.policy.dirty());
    assert_eq!(a.saves, 1);
    assert_eq!(a.session.streams.get(&stream.0).unwrap().show_extras, !before);
}

#[test]
fn j_scroll_records_debounced() {
    let mut a = app_with_store_and_one_tab();
    assert!(!a.policy.dirty());
    a.press(key(KeyCode::Char('j')));
    assert!(a.policy.dirty(), "j should have marked the policy dirty");
}

#[test]
fn ctrl_d_scroll_records_debounced() {
    let mut a = app_with_store_and_one_tab();
    assert!(!a.policy.dirty());
    a.press(ctrl('d'));
    assert!(a.policy.dirty());
}

#[test]
fn flush_if_due_flushes_when_window_has_elapsed() {
    let mut a = app_with_store_and_one_tab();
    a.policy.mark_saved(40);
    a.policy.record(Cadence::Debounced);
    assert!(a.policy.dirty());
    a.flush_if_due(100);
    a.settle();
    assert!(!a.policy.dirty(), "flush_if_due should have cleared the dirty bit");
    assert!(a.notice.is_none(), "successful flush should not set a notice");
}

#[test]
fn flush_if_due_is_a_noop_when_clean() {
    let mut a = app_with_store_and_one_tab();
    a.policy.mark_saved(40);
    assert!(!a.policy.dirty());
    a.flush_if_due(100);
    a.settle();
    assert!(!a.policy.dirty());
    assert_eq!(a.saves, 0);
}

#[test]
fn flush_if_due_is_a_noop_within_debounce_window() {
    let mut a = app_with_store_and_one_tab();
    a.policy.mark_saved(100);
    a.policy.record(Cadence::Debounced);
    assert!(a.policy.dirty());
    a.flush_if_due(100);
    a.settle();
    assert!(a.policy.dirty(), "dirty bit must persist when the window hasn't elapsed");
}

#[test]
fn flush_if_due_failure_sets_notice_and_keeps_dirty_bit() {
    let mut a = app_with_store_and_one_tab();
    a.policy.mark_saved(40);
    a.policy.record(Cadence::Debounced);
    a.broken = true;
    a.flush_if_due(100);
    a.settle();
    assert!(a.policy.dirty(), "failed save leaves dirty bit set");
    let notice = a.notice.as_ref().expect("notice must be set");
    assert!(notice.contains("session save failed"), "unexpected notice: {notice}");
}

#[test]
fn inline_save_failure_sets_notice_and_keeps_dirty_bit() {
    let mut a = app_with_store_and_one_tab();
    assert!(a.notice.is_none());
    a.broken = true;
    let stream = a.tabs[a.active].stream;
    let fresh = a.fresh();
    a.add_bookmark(None, draft("marked"), fresh);
    a.settle();
    assert!(a.policy.dirty(), "failed save leaves dirty bit set");
    let notice = a.notice.as_ref().expect("notice must be set on failure");
    assert!(notice.contains("session save failed"), "unexpected notice: {notice}");
    assert!(a.flat_bookmarks().iter().any(|b| b.stream == stream));
}

#[test]
fn capital_y_opens_seeit_command_dialog() {
    let mut a = app_with_store_and_one_tab();
    a.press(shift('Y'));
    let Some(Dialog::SeeitCommand { text }) = &a.dialog else {
        panic!("expected SeeitCommand dialog after Y");
    };
    let expected = format!("seeit --session {} --tab 'Tab 1'", a.session.id.to_text());
    assert_eq!(text, &expected);
}

#[test]
fn esc_closes_seeit_command_dialog() {
    let mut a = app_with_store_and_one_tab();
    a.press(shift('Y'));
    assert!(matches!(a.dialog, Some(Dialog::SeeitCommand { .. })));
    a.press(key(KeyCode::Esc));
    assert!(a.dialog.is_none());
}

#[test]
fn enter_closes_seeit_command_dialog() {
    let mut a = app_with_store_and_one_tab();
    a.press(shift('Y'));
    a.press(key(KeyCode::Enter));
    assert!(a.dialog.is_none());
}

#[test]
fn seeit_command_dialog_ignores_random_keys() {
    let mut a = app_with_store_and_one_tab();
    a.press(shift('Y'));
    a.press(key(KeyCode::Char('j')));
    a.press(key(KeyCode::Char('q')));
    assert!(matches!(a.dialog, Some(Dialog::SeeitCommand { .. })));
    assert!(!a.quit);
}

#[test]
fn seeit_command_dialog_saves_session_before_opening() {
    let mut a = app_with_store_and_one_tab();
    a.policy.record(Cadence::Inline);
    assert!(a.policy.dirty());
    a.press(shift('Y'));
    assert!(!a.policy.dirty(), "Y should have flushed the dirty bit");
}

#[test]
fn seeit_command_dialog_renders_visibly() {
    let mut a = app_with_store_and_one_tab();
    a.press(shift('Y'));
    let dump = a.dump((200, 10));
    assert!(dump.contains("seeit reproduction"), "{dump}");
    assert!(dump.contains("seeit --session"), "{dump}");
}

#[test]
fn seeit_command_dialog_notice_when_session_is_transient() {
    let mut a = host_app(0);
    assert!(!a.stored);
    a.press(shift('Y'));
    assert!(a.dialog.is_none());
    let notice = a.notice.as_ref().expect("notice should be set");
    assert!(notice.contains("transient"), "expected transient-session notice, got: {notice}");
}

#[test]
fn failed_reproductions_say_why() {
    let mut a = app_with_store_and_one_tab();
    a.reproduction_failed("no such tab");
    assert!(a.notice.as_ref().unwrap().contains("no such tab"));
    assert!(a.dialog.is_none());
}

#[test]
fn capital_y_in_bookmarks_opens_seeit_for_cursor() {
    let mut a = app_with_store_and_one_tab();
    enter_bookmarks_pane_with(&mut a, 3);
    for _ in 0..3 {
        a.press(key(KeyCode::Char('j')));
    }
    let cursor = a.bookmark_cursor.expect("cursor should be set");
    a.press(shift('Y'));
    let Some(Dialog::SeeitCommand { text }) = &a.dialog else {
        panic!("expected SeeitCommand dialog after Y");
    };
    let expected = format!(
        "seeit --session {} --bookmark {}",
        a.session.id.to_text(),
        cursor.to_text(),
    );
    assert_eq!(text, &expected);
}

#[test]
fn capital_y_in_bookmarks_without_shift_modifier_also_works() {
    let mut a = app_with_store_and_one_tab();
    enter_bookmarks_pane_with(&mut a, 1);
    a.press(key(KeyCode::Char('Y')));
    assert!(matches!(a.dialog, Some(Dialog::SeeitCommand { .. })));
}

#[test]
fn capital_y_in_bookmarks_initializes_cursor_when_unset() {
    let mut a = app_with_store_and_one_tab();
    enter_bookmarks_pane_with(&mut a, 2);
    assert!(a.bookmark_cursor_idx().is_none());
    a.press(shift('Y'));
    assert_eq!(a.bookmark_cursor_idx(), Some(0));
    assert!(matches!(a.dialog, Some(Dialog::SeeitCommand { .. })));
}

#[test]
fn bookmarks_seeit_uses_bookmark_id_not_name() {
    let mut a = app_with_store_and_one_tab();
    enter_bookmarks_pane_with(&mut a, 1);
    let id = a.flat_bookmarks()[0].id;
    a.press(shift('Y'));
    let Some(Dialog::SeeitCommand { text }) = &a.dialog else {
        panic!("expected SeeitCommand dialog");
    };
    assert!(text.contains(&id.to_text()), "expected bookmark id in command, got: {text}");
    assert!(!text.contains("bm-0"), "command should not embed the name, got: {text}");
}

#[test]
fn bookmarks_enter_still_navigates() {
    let mut a = app_with_store_and_one_tab();
    enter_bookmarks_pane_with(&mut a, 1);
    a.press(key(KeyCode::Char('j')));
    let fresh = a.fresh();
    a.app.handle_key(key(KeyCode::Enter), &Syntax, fresh);
    assert!(
        !matches!(a.dialog, Some(Dialog::SeeitCommand { .. })),
        "Enter must not open the seeit popup",
    );
    assert!(!a.bookmarks_active(), "Enter must have navigated away");
}

#[test]
fn bookmarks_y_with_no_store_falls_back_to_notice() {
    let mut a = host_app(0);
    let stream = a.tabs[a.active].stream;
    add_bookmark_at(&mut a, stream, 1, "only");
    while !a.bookmarks_active() {
        a.press(key(KeyCode::Tab));
    }
    a.press(shift('Y'));
    assert!(a.dialog.is_none());
    let notice = a.notice.as_ref().expect("notice should be set");
    assert!(notice.contains("transient"), "expected transient-session notice, got: {notice}");
}

#[test]
fn render_shows_progress_bar_while_long_op_active() {
    let mut a = multi_line_app(&[(10, "first", &[]), (20, "second", &[])]);
    a.stalled = true;
    a.press(shift('S'));
    let dump = a.dump((120, 6));
    assert!(dump.contains("Computing summary"), "dump:\n{dump}");
    assert!(dump.contains("Computing summary: ["), "no progress bar:\n{dump}");
    assert!(dump.contains("0.0%   0 B / "), "no progress:\n{dump}");
    a.press(key(KeyCode::Tab));
    let dump = a.dump((120, 6));
    assert!(!dump.contains("Computing summary"), "another tab's progress:\n{dump}");
    a.drain_long_op();
    a.press(key(KeyCode::Tab));
    let dump = a.dump((120, 6));
    assert!(dump.contains("Summary: 2 events"), "dump:\n{dump}");
    assert!(!dump.contains("Computing summary"), "progress of nothing:\n{dump}");
}

#[test]
fn long_op_drives_summary_to_completion() {
    let mut a = multi_line_app(&[
        (10, "first", &[]),
        (20, "first", &[]),
        (30, "second", &[]),
    ]);
    a.stalled = true;
    a.press(shift('S'));
    assert_eq!(a.tab().formatted(), &["Computing summary...".to_string()]);
    assert!(a.ops.long_op.is_some());
    a.drain_long_op();
    assert!(a.ops.long_op.is_none());
    let lines = a.tab().formatted();
    assert!(
        lines.iter().any(|l| l.starts_with("Summary: 3 events")),
        "got:\n{}",
        lines.join("\n"),
    );
}

#[test]
fn long_op_summary_cancel_leaves_placeholder_and_clears_queue() {
    let mut a = multi_line_app(&[(10, "first", &[]), (20, "second", &[])]);
    a.stalled = true;
    a.press(shift('S'));
    assert!(matches!(a.ops.long_op, Some(LongOp::BuildSummary(_))));
    a.cancel_long_op();
    assert!(a.ops.long_op.is_none());
    assert!(a.ops.pending_summary_builds.is_empty());
    let lines = a.tab().formatted();
    assert!(
        lines.iter().any(|l| l.contains("cancelled")),
        "expected cancel notice, got: {lines:?}"
    );
}

#[test]
fn long_op_summary_filter_change_supersedes_pending() {
    let mut a = multi_line_app(&[(10, "alpha", &[]), (20, "beta", &[])]);
    a.stalled = true;
    a.press(shift('S'));
    let active_tab = TabIdx(a.active);
    let filter = Syntax.parse("msg=alpha").unwrap();
    a.ops.pending_summary_builds.push(SummaryRequest { tab_idx: active_tab, filter });
    let filter = Syntax.parse("msg=beta").unwrap();
    let started = a.ops.enqueue_summary_build(&a.engine, active_tab, filter);
    assert!(!started);
    assert_eq!(a.ops.pending_summary_builds.len(), 1);
    let last = &a.ops.pending_summary_builds[0].filter;
    assert_eq!(Syntax.show(last), "msg=beta");
}

#[test]
fn requests_of_other_tabs_keep_their_turn() {
    let mut a = multi_line_app(&[(10, "alpha", &[]), (20, "beta", &[])]);
    a.stalled = true;
    a.press(shift('S'));
    for (tab, text) in [(3, "msg=a"), (4, "msg=b"), (3, "msg=c")] {
        let filter = Syntax.parse(text).unwrap();
        a.ops.enqueue_summary_build(&a.engine, TabIdx(tab), filter);
    }
    let waiting = |a: &Seer| -> Vec<(usize, String)> {
        let pending = &a.ops.pending_summary_builds;
        pending.iter().map(|r| (r.tab_idx.get(), Syntax.show(&r.filter))).collect()
    };
    assert_eq!(waiting(&a), vec![(4, "msg=b".to_string()), (3, "msg=c".to_string())]);
    a.ops.adjust_for_closed_tab(TabIdx(3));
    assert_eq!(waiting(&a), vec![(3, "msg=b".to_string())]);
    let Some(op) = &a.ops.long_op else { panic!("the summary is gone") };
    assert!(op.targets_tab(TabIdx(1)));
    a.ops.adjust_for_closed_tab(TabIdx(0));
    let Some(op) = &a.ops.long_op else { panic!("the summary is gone") };
    assert!(op.targets_tab(TabIdx(0)));
    a.ops.adjust_for_closed_tab(TabIdx(0));
    assert!(a.ops.long_op.is_none());
    assert_eq!(a.ops.drain_pending_summary_builds(&a.engine), Some(TabIdx(1)));
    assert!(waiting(&a).is_empty());
    assert_eq!(a.ops.drain_pending_summary_builds(&a.engine), None);
}

#[test]
fn ctrl_c_stops_a_summary() {
    let mut a = multi_line_app(&[(10, "alpha", &[]), (20, "beta", &[])]);
    a.stalled = true;
    a.press(shift('S'));
    a.press(ctrl('c'));
    assert!(a.ops.long_op.is_none());
    assert_eq!(
        a.tab().formatted(),
        &["summary cancelled — rerun with `f<enter>`".to_string()],
    );
    a.app.long_op_cancelled(Cancelled::Search);
    assert_eq!(a.notice.as_deref(), Some("search cancelled"));
    a.app.long_op_cancelled(Cancelled::Seek("Seeking".to_string()));
    assert_eq!(a.notice.as_deref(), Some("Seeking cancelled"));
    a.app.long_op_cancelled(Cancelled::Nothing);
    assert_eq!(a.notice.as_deref(), Some("Seeking cancelled"));
}

#[test]
fn display_fields_dialog_repaints_on_apply() {
    let log = vec![Record {
        secs: 10,
        host: "oxz_nexus_c53300fc-84eb-490a-9e1e-9e18d372856d.oxide.test".to_string(),
        msg: "first".to_string(),
        extras: Vec::new(),
    }];
    let mut a = Seer::over(log, Session::new(SessionId(7), at(0)), false);
    a.viewport_height = 10;
    let short_line = a.tab().formatted()[0].clone();
    assert!(
        short_line.contains(" oxz_nexus_c53300fc Nexus "),
        "expected short hostname (and no pid by default), got {short_line:?}",
    );
    a.press(key(KeyCode::Char('d')));
    focus_display_field(&mut a, DisplayFieldItem::HostnameFull);
    a.press(key(KeyCode::Char(' ')));
    a.press(key(KeyCode::Enter));
    let full_line = a.tab().formatted()[0].clone();
    assert!(
        full_line
            .contains(" oxz_nexus_c53300fc-84eb-490a-9e1e-9e18d372856d.oxide.test Nexus "),
        "expected full hostname after apply, got {full_line:?}",
    );
}

#[test]
fn all_render_opts_persist_into_session_round_trip() {
    let mut a = multi_line_app(&[(10, "first", &[("k", "1")])]);
    let stream_id = a.tab().stream;
    let initial = a.active_stream();
    assert!(initial.show_extras, "multi_line_app starts with extras on");
    assert!(!initial.show_raw);
    assert!(initial.show_date);
    assert!(!initial.show_pid);
    assert!(initial.show_name);
    assert_eq!(initial.hostname_display, HostnameDisplay::Short);

    a.press(shift('F'));
    a.press(shift('R'));
    a.press(shift('D'));
    a.press(key(KeyCode::Char('d')));
    focus_display_field(&mut a, DisplayFieldItem::Pid);
    a.press(key(KeyCode::Char(' ')));
    focus_display_field(&mut a, DisplayFieldItem::Name);
    a.press(key(KeyCode::Char(' ')));
    focus_display_field(&mut a, DisplayFieldItem::HostnameFull);
    a.press(key(KeyCode::Char(' ')));
    a.press(key(KeyCode::Enter));

    let after = a.active_stream();
    assert!(!after.show_extras);
    assert!(after.show_raw);
    assert!(!after.show_date);
    assert!(after.show_pid);
    assert!(!after.show_name);
    assert_eq!(after.hostname_display, HostnameDisplay::Full);

    let stream = a.session.streams.get(&stream_id.0).unwrap();
    assert!(!stream.show_extras);
    assert!(stream.show_raw);
    assert!(!stream.show_date);
    assert!(stream.show_pid);
    assert!(!stream.show_name);
    assert_eq!(stream.hostname_display, HostnameDisplay::Full);
}

#[test]
fn sessions_with_stray_bookmarks_cannot_be_opened() {
    let mut session = Session::new(SessionId(7), at(0));
    assert!(can_open(&session));
    session.add_bookmark(Bookmark {
        id: BookmarkId(4),
        stream: LogStreamId(9),
        name: None,
        created_at: at(0),
        draft: BookmarkDraft {
            cursor: Cursor::new(),
            display_source: log_id(),
            display_time: at(1),
            display_name: "Nexus".to_string(),
            display_msg: "stray".to_string(),
        },
    });
    assert!(!can_open(&session));
}
