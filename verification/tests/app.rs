//! The application: keys, tabs, dialogs, searches, selections and bookmarks.

use seer::app::{time_step_at, App, Fresh, TIME_STEP_COUNT};
use seer::command::Command;
use seer::dialog::{Dialog, DialogResult};
use seer::engine::EngineEvent;
use seer::event::{Event, Hostname, Level, LoggerName, Pid, Timestamp};
use seer::filter::{EventPredicate, FieldName, Filter, FilterSyntax, Form, Predicate};
use seer::key::{KeyCode, KeyEvent, KeyEventKind, KeyModifiers};
use seer::pattern::compile_pattern;
use seer::position::{Cursor, LogStreamPosition, SourceId};
use seer::rows::{Materialized, ParseStats, Row};
use seer::search::{
    compute_matches, find_target, highlight_line, regex_error_summary, Emphasis, SearchAnchor,
    SearchDirection,
};
use seer::session::{
    Bookmark, BookmarkDraft, BookmarkId, BookmarkName, LogStream, LogStreamId, SavePolicy,
    SavedTab, Session, SessionId, TabKind,
};
use seer::source::Direction;
use seer::tab::{Selection, SelectionAction, Tab};
use std::ops::{Deref, DerefMut};

const PLAIN: KeyModifiers =
    KeyModifiers { shift: false, control: false, alt: false, other: false };

fn key(code: KeyCode) -> KeyEvent {
    KeyEvent::new(code, PLAIN)
}

fn ctrl(c: char) -> KeyEvent {
    KeyEvent::new(KeyCode::Char(c), KeyModifiers { control: true, ..PLAIN })
}

fn shift(c: char) -> KeyEvent {
    KeyEvent::new(KeyCode::Char(c), KeyModifiers { shift: true, ..PLAIN })
}

/// A small filter language: tokens of a field, an operator and a value.
struct Syntax;

impl FilterSyntax for Syntax {
    fn parse(&self, text: &str) -> Result<Filter, String> {
        let mut filter = Filter::default();
        for token in text.split_whitespace() {
            let predicate = if let Some(value) = token.strip_prefix("msg!=") {
                EventPredicate::FieldEquals {
                    field: FieldName::Msg,
                    value: value.to_string(),
                    form: Form::Negated,
                }
            } else if let Some(value) = token.strip_prefix("msg=") {
                EventPredicate::FieldEquals {
                    field: FieldName::Msg,
                    value: value.to_string(),
                    form: Form::Affirmed,
                }
            } else if token.contains('=') {
                EventPredicate::Other(token.to_string())
            } else {
                return Err(format!("token {token} has no operator"));
            };
            filter.add_predicate(Predicate::Event(predicate));
        }
        Ok(filter)
    }

    fn show(&self, filter: &Filter) -> String {
        let shown: Vec<String> = filter
            .predicates()
            .iter()
            .map(|p| match p {
                Predicate::SourceIdMatches { pattern, .. } => {
                    format!("source_id=~{}", pattern.as_str())
                }
                Predicate::Event(EventPredicate::MsgMatches { pattern, .. }) => {
                    format!("msg=~{}", pattern.as_str())
                }
                Predicate::Event(EventPredicate::Other(text)) => text.clone(),
                Predicate::Event(EventPredicate::FieldEquals { value, form, .. }) => {
                    let op = if *form == Form::Affirmed { "=" } else { "!=" };
                    if value.contains(' ') {
                        format!("msg{op}\"{value}\"")
                    } else {
                        format!("msg{op}{value}")
                    }
                }
            })
            .collect();
        shown.join(" ")
    }
}

fn shown(a: &App) -> String {
    Syntax.show(&a.active_stream().filter)
}

fn row(event: Option<Event>) -> Row {
    match event {
        Some(event) => Row::Event(EngineEvent {
            position: LogStreamPosition::new(
                SourceId::new("test".to_string()),
                event.time,
                0,
            ),
            event,
        }),
        None => Row::Error("error".to_string()),
    }
}

fn content(events: Vec<Option<Event>>, formatted: Vec<String>) -> Materialized {
    let n = formatted.len();
    Materialized {
        events: events.into_iter().map(row).collect(),
        formatted,
        event_for_line: (0..n).collect(),
        first_line_for_event: (0..n).collect(),
        parse_stats: ParseStats::default(),
    }
}

/// The application, with ids to hand out.
struct Seer {
    app: App,
    ids: u128,
}

impl Deref for Seer {
    type Target = App;

    fn deref(&self) -> &App {
        &self.app
    }
}

impl DerefMut for Seer {
    fn deref_mut(&mut self) -> &mut App {
        &mut self.app
    }
}

impl Seer {
    fn over(session: Session) -> Self {
        let fresh = Fresh { stream: LogStreamId(1), bookmark: BookmarkId(1), now: at(0) };
        Seer {
            app: App::new_with_session(session, false, SavePolicy::new(5, 0), fresh),
            ids: 1,
        }
    }

    fn new() -> Self {
        Seer::over(Session::new(SessionId(7), at(0)))
    }

    /// One tab that holds these rows, without a live view.
    fn with_events(events: Vec<Option<Event>>, formatted: Vec<String>) -> Self {
        let mut seer = Seer::new();
        seer.tabs[0].live = false;
        seer.tabs[0].content = content(events, formatted);
        seer
    }

    fn with_rows(rows: Vec<String>) -> Self {
        let events = rows.iter().map(|_| None).collect();
        Seer::with_events(events, rows)
    }

    fn fresh(&mut self) -> Fresh {
        self.ids += 1;
        Fresh {
            stream: LogStreamId(self.ids),
            bookmark: BookmarkId(self.ids),
            now: at(self.ids as i64),
        }
    }

    fn press(&mut self, key: KeyEvent) {
        let fresh = self.fresh();
        self.app.handle_key(key, &Syntax, fresh);
    }

    fn tab(&self) -> &Tab {
        &self.app.tabs[self.app.active]
    }

    fn tab_mut(&mut self) -> &mut Tab {
        let active = self.app.active;
        &mut self.app.tabs[active]
    }
}

fn at(secs: i64) -> Timestamp {
    Timestamp { secs, nanos: 0 }
}

fn app(rows: usize, height: u16) -> Seer {
    let rows = (0..rows).map(|i| format!("row {i}")).collect();
    let mut a = Seer::with_rows(rows);
    a.viewport_height = height;
    a
}

fn ev_at(secs: i64, msg: &str) -> Event {
    Event {
        time: at(secs),
        level: Level::Info,
        name: LoggerName("Nexus".to_string()),
        hostname: Hostname("sled-01".to_string()),
        pid: Pid(1234),
        msg: msg.to_string(),
        v: 0,
        extra: Vec::new(),
    }
}

fn ev(msg: &str) -> Event {
    ev_at(1_743_465_600, msg)
}

fn select_app(n: usize, h: u16) -> Seer {
    let events = (0..n).map(|i| Some(ev(&format!("msg {i}")))).collect();
    let formatted = (0..n).map(|i| format!("row {i}")).collect();
    let mut a = Seer::with_events(events, formatted);
    a.viewport_height = h;
    a
}

fn type_into(d: &mut Dialog, s: &str) {
    for c in s.chars() {
        match d.handle_key(key(KeyCode::Char(c)), &Syntax) {
            DialogResult::Stay => {}
            _ => panic!("typing {c:?} unexpectedly closed dialog"),
        }
    }
}

/// Names a bookmark on the given row of the tab.
fn create_bookmark(a: &mut Seer, row: usize, name: Option<&str>) {
    a.press(key(KeyCode::Char('b')));
    for _ in 0..row {
        a.press(key(KeyCode::Char('j')));
    }
    a.press(key(KeyCode::Enter));
    if let Some(n) = name {
        for c in n.chars() {
            a.press(key(KeyCode::Char(c)));
        }
    }
    a.press(key(KeyCode::Enter));
}

/// Adds a bookmark on a record of the given time.
fn add_bookmark_at(a: &mut Seer, stream: LogStreamId, secs: i64, label: &str) {
    let fresh = a.fresh();
    a.session.add_bookmark(Bookmark {
        id: fresh.bookmark,
        stream,
        created_at: fresh.now,
        name: Some(BookmarkName(label.to_string())),
        draft: draft_at(secs, &format!("msg @ {secs}")),
    });
}

fn draft_at(secs: i64, msg: &str) -> BookmarkDraft {
    BookmarkDraft {
        cursor: Cursor::new(),
        display_source: SourceId::new("test".to_string()),
        display_time: at(secs),
        display_name: "Nexus".to_string(),
        display_msg: msg.to_string(),
    }
}

fn search_app() -> Seer {
    let rows = (0..10)
        .map(|i| if i % 2 == 0 { format!("alpha row {i}") } else { format!("beta row {i}") })
        .collect();
    let mut a = Seer::with_rows(rows);
    a.viewport_height = 3;
    a
}

fn search_buffer(a: &App) -> &str {
    match a.dialog.as_ref().expect("search dialog should be open") {
        Dialog::Search { editor, .. } => editor.text.as_str(),
        _ => panic!("expected Dialog::Search"),
    }
}

fn excl_sel(event_idx: usize) -> Selection {
    Selection { event_idx, action: SelectionAction::Exclude }
}

fn incl_sel(event_idx: usize) -> Selection {
    Selection { event_idx, action: SelectionAction::Include }
}

fn bm_sel(event_idx: usize) -> Selection {
    Selection { event_idx, action: SelectionAction::Bookmark }
}

fn time_app(n: i64, h: u16) -> Seer {
    let events = (0..n).map(|i| Some(ev_at(i, &format!("at {i}")))).collect();
    let formatted = (0..n).map(|i| format!("row {i}")).collect();
    let mut a = Seer::with_events(events, formatted);
    a.viewport_height = h;
    a
}

#[test]
fn q_opens_quit_confirmation() {
    let mut a = app(10, 5);
    a.press(key(KeyCode::Char('q')));
    assert!(!a.quit);
    assert!(matches!(a.dialog, Some(Dialog::ConfirmQuit)));
}

#[test]
fn esc_does_not_open_quit_confirmation() {
    let mut a = app(10, 5);
    a.press(key(KeyCode::Esc));
    assert!(!a.quit);
    assert!(a.dialog.is_none());
}

#[test]
fn ctrl_c_does_not_open_quit_confirmation() {
    let mut a = app(10, 5);
    a.press(ctrl('c'));
    assert!(!a.quit);
    assert!(a.dialog.is_none());
}

#[test]
fn quit_confirmation_enter_quits() {
    let mut a = app(10, 5);
    a.press(key(KeyCode::Char('q')));
    a.press(key(KeyCode::Enter));
    assert!(a.quit);
    assert!(a.dialog.is_none());
}

#[test]
fn quit_confirmation_esc_cancels() {
    let mut a = app(10, 5);
    a.press(key(KeyCode::Char('q')));
    a.press(key(KeyCode::Esc));
    assert!(!a.quit);
    assert!(a.dialog.is_none());
}

#[test]
fn quit_confirmation_drops_other_keys() {
    let mut a = app(10, 5);
    a.press(key(KeyCode::Char('q')));
    a.press(key(KeyCode::Char('j')));
    a.press(key(KeyCode::Char('q')));
    assert!(!a.quit);
    assert_eq!(a.tab().viewport_top, 0);
    assert!(matches!(a.dialog, Some(Dialog::ConfirmQuit)));
}

#[test]
fn j_and_down_scroll_down_one() {
    let mut a = app(10, 5);
    a.press(key(KeyCode::Char('j')));
    assert_eq!(a.tab().viewport_top, 1);
    a.press(key(KeyCode::Down));
    assert_eq!(a.tab().viewport_top, 2);
}

#[test]
fn k_and_up_scroll_up_one() {
    let mut a = app(10, 5);
    a.tab_mut().viewport_top = 3;
    a.press(key(KeyCode::Char('k')));
    assert_eq!(a.tab().viewport_top, 2);
    a.press(key(KeyCode::Up));
    assert_eq!(a.tab().viewport_top, 1);
}

#[test]
fn ctrl_d_scrolls_half_page_down() {
    let mut a = app(100, 10);
    a.press(ctrl('d'));
    assert_eq!(a.tab().viewport_top, 5);
}

#[test]
fn space_scrolls_full_page_down() {
    let mut a = app(100, 10);
    a.press(key(KeyCode::Char(' ')));
    assert_eq!(a.tab().viewport_top, 10);
}

#[test]
fn ctrl_u_scrolls_half_page_up() {
    let mut a = app(100, 10);
    a.tab_mut().viewport_top = 20;
    a.press(ctrl('u'));
    assert_eq!(a.tab().viewport_top, 15);
}

#[test]
fn g_jumps_top() {
    let mut a = app(100, 10);
    a.tab_mut().viewport_top = 50;
    a.press(key(KeyCode::Char('g')));
    assert_eq!(a.tab().viewport_top, 0);
}

#[test]
fn home_jumps_top() {
    let mut a = app(100, 10);
    a.tab_mut().viewport_top = 50;
    a.press(key(KeyCode::Home));
    assert_eq!(a.tab().viewport_top, 0);
}

#[test]
fn shift_g_jumps_bottom() {
    let mut a = app(100, 10);
    a.press(shift('G'));
    assert_eq!(a.tab().viewport_top, 90);
}

#[test]
fn end_jumps_bottom() {
    let mut a = app(100, 10);
    a.press(key(KeyCode::End));
    assert_eq!(a.tab().viewport_top, 90);
}

#[test]
fn cant_scroll_above_top() {
    let mut a = app(10, 5);
    a.press(key(KeyCode::Char('k')));
    assert_eq!(a.tab().viewport_top, 0);
    a.press(ctrl('u'));
    assert_eq!(a.tab().viewport_top, 0);
}

#[test]
fn cant_scroll_below_bottom() {
    let mut a = app(10, 5);
    a.tab_mut().viewport_top = 5;
    a.press(key(KeyCode::Char('j')));
    assert_eq!(a.tab().viewport_top, 5);
    a.press(ctrl('d'));
    assert_eq!(a.tab().viewport_top, 5);
}

#[test]
fn small_content_clamps_to_zero() {
    let mut a = app(3, 10);
    a.press(key(KeyCode::Char('j')));
    assert_eq!(a.tab().viewport_top, 0);
    a.press(shift('G'));
    assert_eq!(a.tab().viewport_top, 0);
    a.press(key(KeyCode::End));
    assert_eq!(a.tab().viewport_top, 0);
}

#[test]
fn release_events_are_ignored() {
    let mut a = app(10, 5);
    let mut k = key(KeyCode::Char('q'));
    k.kind = KeyEventKind::Release;
    a.press(k);
    assert!(!a.quit);
    assert!(a.dialog.is_none());
}

#[test]
fn f_opens_filter_dialog() {
    let mut a = app(10, 5);
    a.press(key(KeyCode::Char('f')));
    assert!(matches!(a.dialog, Some(Dialog::Filter { .. })));
}

#[test]
fn dialog_keys_do_not_quit_or_scroll() {
    let mut a = app(10, 5);
    a.press(key(KeyCode::Char('f')));
    a.press(key(KeyCode::Char('q')));
    assert!(!a.quit);
    assert!(a.dialog.is_some());
    a.press(key(KeyCode::Char('j')));
    assert_eq!(a.tab().viewport_top, 0);
    assert_eq!(a.dialog.as_ref().unwrap().editor().unwrap().text, "qj");
}

#[test]
fn dialog_prepopulates_with_current_filter() {
    let f = Syntax.parse("level>=warn name=Nexus").unwrap();
    let d = Dialog::filter(&f, &Syntax);
    assert_eq!(d.editor().unwrap().text, "level>=warn name=Nexus");
    assert_eq!(d.editor().unwrap().cursor, d.editor().unwrap().text.len());
    assert!(d.parse_error().is_none());
}

#[test]
fn dialog_shows_parse_error_live() {
    let mut d = Dialog::filter(&Filter::default(), &Syntax);
    type_into(&mut d, "bogus");
    assert!(d.parse_error().is_some());
    let len = d.editor().unwrap().text.len();
    for _ in 0..len {
        d.handle_key(key(KeyCode::Backspace), &Syntax);
    }
    type_into(&mut d, "level>=warn");
    assert!(d.parse_error().is_none());
}

#[test]
fn dialog_enter_with_invalid_filter_keeps_dialog_open() {
    let mut a = app(10, 5);
    a.press(key(KeyCode::Char('f')));
    type_into(a.dialog.as_mut().unwrap(), "bogus");
    a.press(key(KeyCode::Enter));
    let d = a.dialog.as_ref().expect("dialog should still be open");
    assert!(d.parse_error().is_some());
}

#[test]
fn dialog_enter_with_valid_filter_applies_and_closes() {
    let mut a = app(10, 5);
    a.press(key(KeyCode::Char('f')));
    type_into(a.dialog.as_mut().unwrap(), "level>=warn");
    a.press(key(KeyCode::Enter));
    assert!(a.dialog.is_none());
    assert_eq!(&shown(&a), "level>=warn");
}

#[test]
fn dialog_escape_discards_changes() {
    let mut a = app(10, 5);
    let original_filter = &shown(&a);
    a.press(key(KeyCode::Char('f')));
    type_into(a.dialog.as_mut().unwrap(), "name=Nexus");
    a.press(key(KeyCode::Esc));
    assert!(a.dialog.is_none());
    assert_eq!(&shown(&a), original_filter);
}

#[test]
fn h_opens_help_dialog() {
    let mut a = Seer::with_rows(vec!["row".to_string()]);
    a.press(key(KeyCode::Char('h')));
    assert!(
        matches!(a.dialog, Some(Dialog::Help { scroll: 0 })),
        "expected Help dialog, got {:?}",
        a.dialog.as_ref().map(|_| "<other>"),
    );
}

#[test]
fn help_dialog_esc_closes() {
    let mut a = Seer::with_rows(vec!["row".to_string()]);
    a.press(key(KeyCode::Char('h')));
    a.press(key(KeyCode::Esc));
    assert!(a.dialog.is_none());
}

#[test]
fn help_dialog_enter_closes() {
    let mut a = Seer::with_rows(vec!["row".to_string()]);
    a.press(key(KeyCode::Char('h')));
    a.press(key(KeyCode::Enter));
    assert!(a.dialog.is_none());
}

#[test]
fn help_dialog_j_and_k_scroll() {
    let mut a = Seer::with_rows(vec!["row".to_string()]);
    a.press(key(KeyCode::Char('h')));
    a.press(key(KeyCode::Char('j')));
    a.press(key(KeyCode::Char('j')));
    match a.dialog {
        Some(Dialog::Help { scroll }) => assert_eq!(scroll, 2),
        _ => panic!("expected Help dialog after j×2"),
    }
    a.press(key(KeyCode::Char('k')));
    match a.dialog {
        Some(Dialog::Help { scroll }) => assert_eq!(scroll, 1),
        _ => panic!("expected Help dialog after k"),
    }
    a.press(key(KeyCode::Char('k')));
    a.press(key(KeyCode::Char('k')));
    match a.dialog {
        Some(Dialog::Help { scroll }) => assert_eq!(scroll, 0),
        _ => panic!("expected Help dialog after k saturate"),
    }
}

#[test]
fn help_dialog_does_not_quit_on_q() {
    let mut a = Seer::with_rows(vec!["row".to_string()]);
    a.press(key(KeyCode::Char('h')));
    a.press(key(KeyCode::Char('q')));
    assert!(matches!(a.dialog, Some(Dialog::Help { .. })));
}

#[test]
fn fresh_app_has_one_tab_named_tab_one() {
    let a = app(0, 5);
    assert_eq!(a.tabs.len(), 1);
    assert_eq!(a.active, 0);
    assert_eq!(a.tab().name, "Tab 1");
}

#[test]
fn ctrl_t_creates_new_tab_with_cloned_filter_and_opens_dialog() {
    let mut a = app(10, 5);
    a.press(key(KeyCode::Char('f')));
    type_into(a.dialog.as_mut().unwrap(), "level>=warn");
    a.press(key(KeyCode::Enter));
    assert_eq!(a.tabs.len(), 1);
    a.press(ctrl('t'));
    assert_eq!(a.tabs.len(), 2);
    assert_eq!(a.active, 1);
    assert_eq!(&shown(&a), "level>=warn");
    let d = a.dialog.as_ref().expect("dialog should be open");
    assert!(matches!(d, Dialog::Filter { .. }));
    assert_eq!(d.editor().unwrap().text, "level>=warn");
}

#[test]
fn ctrl_t_uses_monotonic_tab_numbering() {
    let mut a = app(10, 5);
    assert_eq!(a.tab().name, "Tab 1");
    a.press(ctrl('t'));
    a.press(key(KeyCode::Esc));
    assert_eq!(a.tab().name, "Tab 2");
    a.press(ctrl('t'));
    a.press(key(KeyCode::Esc));
    assert_eq!(a.tab().name, "Tab 3");
}

#[test]
fn esc_on_new_tab_dialog_keeps_tab_with_cloned_filter() {
    let mut a = app(10, 5);
    a.press(key(KeyCode::Char('f')));
    type_into(a.dialog.as_mut().unwrap(), "level>=warn");
    a.press(key(KeyCode::Enter));
    a.press(ctrl('t'));
    a.press(key(KeyCode::Esc));
    assert_eq!(a.tabs.len(), 2);
    assert_eq!(a.active, 1);
    assert_eq!(&shown(&a), "level>=warn");
}

#[test]
fn tab_cycles_to_next_with_wrap() {
    let mut a = app(10, 5);
    a.press(ctrl('t'));
    a.press(key(KeyCode::Esc));
    a.press(ctrl('t'));
    a.press(key(KeyCode::Esc));
    assert_eq!(a.tabs.len(), 3);
    assert_eq!(a.active, 2);
    a.press(key(KeyCode::Tab));
    assert_eq!(a.active, 0);
    a.press(key(KeyCode::Tab));
    assert_eq!(a.active, 1);
}

#[test]
fn shift_tab_cycles_to_previous_with_wrap() {
    let mut a = app(10, 5);
    a.press(ctrl('t'));
    a.press(key(KeyCode::Esc));
    assert_eq!(a.tabs.len(), 2);
    assert_eq!(a.active, 1);
    a.press(key(KeyCode::BackTab));
    assert_eq!(a.active, 0);
    a.press(key(KeyCode::BackTab));
    assert_eq!(a.active, 1);
}

#[test]
fn ctrl_w_closes_active_tab() {
    let mut a = app(10, 5);
    a.press(ctrl('t'));
    a.press(key(KeyCode::Esc));
    assert_eq!(a.tabs.len(), 2);
    let surviving_name = a.tabs[0].name.clone();
    a.press(ctrl('w'));
    assert_eq!(a.tabs.len(), 1);
    assert_eq!(a.tabs[0].name, surviving_name);
}

#[test]
fn ctrl_w_on_last_tab_creates_fresh_one() {
    let mut a = app(10, 5);
    assert_eq!(a.tabs.len(), 1);
    let original_name = a.tab().name.clone();
    a.press(ctrl('w'));
    assert_eq!(a.tabs.len(), 1);
    assert_eq!(a.active, 0);
    assert_ne!(a.tab().name, original_name);
    assert!(&a.active_stream().filter.predicates().is_empty());
}

#[test]
fn each_tab_keeps_its_own_viewport_top() {
    let mut a = app(100, 10);
    a.tab_mut().viewport_top = 30;
    a.press(ctrl('t'));
    a.press(key(KeyCode::Esc));
    assert_eq!(a.tab().viewport_top, 0);
    a.tab_mut().viewport_top = 50;
    a.press(key(KeyCode::BackTab));
    assert_eq!(a.tab().viewport_top, 30);
    a.press(key(KeyCode::Tab));
    assert_eq!(a.tab().viewport_top, 50);
}

#[test]
fn ctrl_w_inside_filter_dialog_kills_word_not_close_tab() {
    let mut a = app(10, 5);
    a.press(key(KeyCode::Char('f')));
    type_into(a.dialog.as_mut().unwrap(), "level>=warn name=Nexus");
    a.press(ctrl('w'));
    assert!(a.dialog.is_some());
    assert_eq!(
        a.dialog.as_ref().unwrap().editor().unwrap().text,
        "level>=warn "
    );
    assert_eq!(a.tabs.len(), 1);
}

#[test]
fn r_opens_rename_dialog_with_current_name() {
    let mut a = app(10, 5);
    a.press(key(KeyCode::Char('r')));
    let d = a.dialog.as_ref().expect("dialog should be open");
    assert!(matches!(d, Dialog::Rename { .. }));
    assert_eq!(d.editor().unwrap().text, "Tab 1");
}

#[test]
fn rename_dialog_enter_applies_new_name() {
    let mut a = app(10, 5);
    a.press(key(KeyCode::Char('r')));
    a.press(ctrl('u'));
    type_into(a.dialog.as_mut().unwrap(), "Nexus");
    a.press(key(KeyCode::Enter));
    assert!(a.dialog.is_none());
    assert_eq!(a.tab().name, "Nexus");
}

#[test]
fn rename_dialog_escape_discards() {
    let mut a = app(10, 5);
    a.press(key(KeyCode::Char('r')));
    type_into(a.dialog.as_mut().unwrap(), "garbage");
    a.press(key(KeyCode::Esc));
    assert!(a.dialog.is_none());
    assert_eq!(a.tab().name, "Tab 1");
}

#[test]
fn rename_dialog_has_no_parse_error() {
    let mut a = app(10, 5);
    a.press(key(KeyCode::Char('r')));
    type_into(a.dialog.as_mut().unwrap(), " not a filter ");
    assert!(a.dialog.as_ref().unwrap().parse_error().is_none());
}

#[test]
fn max_top_accounts_for_wrap() {
    let mut rows: Vec<String> = (0..5).map(|i| format!("r{i}")).collect();
    rows.push("X".repeat(40));
    let mut a = Seer::with_rows(rows);
    a.viewport_height = 10;
    a.viewport_width = 10;
    let max = a.tab().max_top(a.viewport_height, a.viewport_width);
    assert_eq!(max, 0, "buffer fits, max_top should be 0");
    a.viewport_height = 5;
    let max = a.tab().max_top(a.viewport_height, a.viewport_width);
    assert_eq!(max, 4, "should leave room for short row + wrap");
}

#[test]
fn max_top_caps_for_oversized_last_line() {
    let big = "Z".repeat(200);
    let mut a = Seer::with_rows(vec!["short".to_string(), big]);
    a.viewport_height = 5;
    a.viewport_width = 20;
    let max = a.tab().max_top(a.viewport_height, a.viewport_width);
    assert_eq!(max, 1);
}

#[test]
fn slash_opens_forward_search_dialog() {
    let mut a = search_app();
    a.press(key(KeyCode::Char('/')));
    let d = a.dialog.as_ref().expect("search dialog should be open");
    assert!(matches!(
        d,
        Dialog::Search { direction: SearchDirection::Forward, .. }
    ));
    assert_eq!(d.editor().unwrap().text, "");
}

#[test]
fn question_opens_backward_search_dialog() {
    let mut a = search_app();
    a.press(key(KeyCode::Char('?')));
    let d = a.dialog.as_ref().expect("search dialog should be open");
    assert!(matches!(
        d,
        Dialog::Search { direction: SearchDirection::Backward, .. }
    ));
}

#[test]
fn search_dialog_keys_do_not_quit_or_scroll() {
    let mut a = search_app();
    a.press(key(KeyCode::Char('/')));
    a.press(key(KeyCode::Char('q')));
    assert!(!a.quit);
    assert!(a.dialog.is_some());
    a.press(key(KeyCode::Char('j')));
    assert_eq!(a.tab().viewport_top, 0);
    assert_eq!(a.dialog.as_ref().unwrap().editor().unwrap().text, "qj");
}

#[test]
fn ctrl_w_inside_search_dialog_kills_word_not_close_tab() {
    let mut a = search_app();
    a.press(key(KeyCode::Char('/')));
    type_into(a.dialog.as_mut().unwrap(), "alpha beta");
    a.press(ctrl('w'));
    assert!(a.dialog.is_some());
    assert_eq!(a.dialog.as_ref().unwrap().editor().unwrap().text, "alpha ");
    assert_eq!(a.tabs.len(), 1);
}

#[test]
fn backspace_on_empty_search_prompt_cancels_dialog() {
    let mut a = search_app();
    a.press(key(KeyCode::Char('/')));
    a.press(key(KeyCode::Char('a')));
    a.press(key(KeyCode::Backspace));
    assert!(a.dialog.is_some());
    assert_eq!(a.dialog.as_ref().unwrap().editor().unwrap().text, "");
    a.press(key(KeyCode::Backspace));
    assert!(a.dialog.is_none());
    assert!(a.last_search.is_none());
    assert!(a.tab().search.is_none());
}

#[test]
fn backspace_on_freshly_opened_search_prompt_cancels_dialog() {
    let mut a = search_app();
    a.press(key(KeyCode::Char('/')));
    assert!(a.dialog.is_some());
    a.press(key(KeyCode::Backspace));
    assert!(a.dialog.is_none());
}

#[test]
fn backspace_on_empty_filter_dialog_does_not_cancel() {
    let mut a = app(10, 5);
    a.press(key(KeyCode::Char('f')));
    assert!(a.dialog.is_some());
    let len = a.dialog.as_ref().unwrap().editor().unwrap().text.len();
    for _ in 0..len {
        a.press(key(KeyCode::Backspace));
    }
    assert_eq!(a.dialog.as_ref().unwrap().editor().unwrap().text, "");
    a.press(key(KeyCode::Backspace));
    assert!(a.dialog.is_some(), "filter dialog should stay open");
}

#[test]
fn applying_search_records_pattern_in_session_history() {
    let mut a = search_app();
    a.press(key(KeyCode::Char('/')));
    type_into(a.dialog.as_mut().unwrap(), "alpha");
    a.press(key(KeyCode::Enter));
    assert_eq!(a.session.search_history, vec!["alpha"]);
    a.press(key(KeyCode::Char('/')));
    type_into(a.dialog.as_mut().unwrap(), "beta");
    a.press(key(KeyCode::Enter));
    assert_eq!(a.session.search_history, vec!["beta", "alpha"]);
    a.press(key(KeyCode::Char('/')));
    type_into(a.dialog.as_mut().unwrap(), "alpha");
    a.press(key(KeyCode::Enter));
    assert_eq!(a.session.search_history, vec!["alpha", "beta"]);
}

#[test]
fn search_dialog_up_walks_history_oldest_direction() {
    let mut a = search_app();
    a.session.search_history =
        vec!["gamma".into(), "beta".into(), "alpha".into()];
    a.press(key(KeyCode::Char('/')));
    a.press(key(KeyCode::Up));
    assert_eq!(search_buffer(&a), "gamma");
    a.press(key(KeyCode::Up));
    assert_eq!(search_buffer(&a), "beta");
    a.press(key(KeyCode::Up));
    assert_eq!(search_buffer(&a), "alpha");
    a.press(key(KeyCode::Up));
    assert_eq!(search_buffer(&a), "alpha");
}

#[test]
fn search_dialog_down_restores_originally_typed_text() {
    let mut a = search_app();
    a.session.search_history = vec!["gamma".into(), "beta".into()];
    a.press(key(KeyCode::Char('/')));
    type_into(a.dialog.as_mut().unwrap(), "ne");
    a.press(key(KeyCode::Up));
    assert_eq!(search_buffer(&a), "ne");
    a.press(key(KeyCode::Down));
    assert_eq!(search_buffer(&a), "ne");
}

#[test]
fn search_dialog_up_filters_history_by_typed_prefix() {
    let mut a = search_app();
    a.session.search_history = vec![
        "nexus".into(),
        "beta".into(),
        "name=nexus".into(),
        "needle".into(),
    ];
    a.press(key(KeyCode::Char('/')));
    type_into(a.dialog.as_mut().unwrap(), "ne");
    a.press(key(KeyCode::Up));
    assert_eq!(search_buffer(&a), "nexus");
    a.press(key(KeyCode::Up));
    assert_eq!(search_buffer(&a), "needle");
    a.press(key(KeyCode::Up));
    assert_eq!(search_buffer(&a), "needle");
    a.press(key(KeyCode::Down));
    assert_eq!(search_buffer(&a), "nexus");
    a.press(key(KeyCode::Down));
    assert_eq!(search_buffer(&a), "ne");
    a.press(key(KeyCode::Down));
    assert_eq!(search_buffer(&a), "ne");
}

#[test]
fn editing_after_history_walk_uses_new_buffer_as_prefix() {
    let mut a = search_app();
    a.session.search_history =
        vec!["alpha2".into(), "alpha".into(), "beta".into()];
    a.press(key(KeyCode::Char('/')));
    a.press(key(KeyCode::Up));
    assert_eq!(search_buffer(&a), "alpha2");
    a.press(key(KeyCode::Up));
    assert_eq!(search_buffer(&a), "alpha");
    a.press(key(KeyCode::Char('1')));
    assert_eq!(search_buffer(&a), "alpha1");
    a.press(key(KeyCode::Up));
    assert_eq!(search_buffer(&a), "alpha1");
}

#[test]
fn search_dialog_shows_parse_error_live() {
    let mut a = search_app();
    a.press(key(KeyCode::Char('/')));
    type_into(a.dialog.as_mut().unwrap(), "[");
    assert!(a.dialog.as_ref().unwrap().parse_error().is_some());
    a.press(key(KeyCode::Backspace));
    assert!(a.dialog.as_ref().unwrap().parse_error().is_none());
}

#[test]
fn search_enter_with_invalid_regex_keeps_dialog_open() {
    let mut a = search_app();
    a.press(key(KeyCode::Char('/')));
    type_into(a.dialog.as_mut().unwrap(), "[");
    a.press(key(KeyCode::Enter));
    let d = a.dialog.as_ref().expect("dialog should still be open");
    assert!(d.parse_error().is_some());
    assert!(a.last_search.is_none());
    assert!(a.tab().search.is_none());
}

#[test]
fn search_enter_with_valid_regex_jumps_to_first_match() {
    let mut a = search_app();
    a.tab_mut().viewport_top = 3;
    a.press(key(KeyCode::Char('/')));
    type_into(a.dialog.as_mut().unwrap(), "alpha");
    a.press(key(KeyCode::Enter));
    assert!(a.dialog.is_none());
    assert_eq!(a.tab().viewport_top, 4);
    assert_eq!(
        a.last_search.as_ref().unwrap().pattern,
        "alpha".to_string(),
    );
    assert_eq!(
        a.last_search.as_ref().unwrap().direction,
        SearchDirection::Forward,
    );
    let s = a.tab().search.as_ref().unwrap();
    assert_eq!(s.matches, vec![0, 2, 4, 6, 8]);
}

#[test]
fn backward_search_jumps_to_previous_match() {
    let mut a = search_app();
    a.tab_mut().viewport_top = 5;
    a.press(key(KeyCode::Char('?')));
    type_into(a.dialog.as_mut().unwrap(), "alpha");
    a.press(key(KeyCode::Enter));
    assert_eq!(a.tab().viewport_top, 4);
    assert_eq!(
        a.last_search.as_ref().unwrap().direction,
        SearchDirection::Backward,
    );
}

#[test]
fn n_advances_to_next_match() {
    let mut a = search_app();
    a.press(key(KeyCode::Char('/')));
    type_into(a.dialog.as_mut().unwrap(), "alpha");
    a.press(key(KeyCode::Enter));
    assert_eq!(a.tab().viewport_top, 0);
    a.press(key(KeyCode::Char('n')));
    assert_eq!(a.tab().viewport_top, 2);
    a.press(key(KeyCode::Char('n')));
    assert_eq!(a.tab().viewport_top, 4);
}

#[test]
fn shift_n_reverses_direction_for_one_step_only() {
    let mut a = search_app();
    a.press(key(KeyCode::Char('/')));
    type_into(a.dialog.as_mut().unwrap(), "alpha");
    a.press(key(KeyCode::Enter));
    a.press(key(KeyCode::Char('n')));
    a.press(key(KeyCode::Char('n')));
    assert_eq!(a.tab().viewport_top, 4);
    a.press(shift('N'));
    assert_eq!(a.tab().viewport_top, 2);
    a.press(key(KeyCode::Char('n')));
    assert_eq!(a.tab().viewport_top, 4);
}

#[test]
fn slash_enter_repeats_last_search_forward() {
    let mut a = search_app();
    a.tab_mut().viewport_top = 5;
    a.press(key(KeyCode::Char('?')));
    type_into(a.dialog.as_mut().unwrap(), "alpha");
    a.press(key(KeyCode::Enter));
    assert_eq!(a.tab().viewport_top, 4);
    a.press(key(KeyCode::Char('/')));
    a.press(key(KeyCode::Enter));
    assert!(a.dialog.is_none());
    assert_eq!(a.tab().viewport_top, 6);
    assert_eq!(
        a.last_search.as_ref().unwrap().direction,
        SearchDirection::Forward,
    );
}

#[test]
fn question_enter_repeats_last_search_backward() {
    let mut a = search_app();
    a.press(key(KeyCode::Char('/')));
    type_into(a.dialog.as_mut().unwrap(), "alpha");
    a.press(key(KeyCode::Enter));
    a.press(key(KeyCode::Char('n')));
    a.press(key(KeyCode::Char('n')));
    assert_eq!(a.tab().viewport_top, 4);
    a.press(key(KeyCode::Char('?')));
    a.press(key(KeyCode::Enter));
    assert_eq!(a.tab().viewport_top, 2);
    assert_eq!(
        a.last_search.as_ref().unwrap().direction,
        SearchDirection::Backward,
    );
}

#[test]
fn empty_search_with_no_history_is_noop() {
    let mut a = search_app();
    a.press(key(KeyCode::Char('/')));
    a.press(key(KeyCode::Enter));
    assert!(a.dialog.is_none());
    assert_eq!(a.tab().viewport_top, 0);
    assert!(a.last_search.is_none());
    assert!(a.tab().search.is_none());
}

#[test]
fn n_with_no_history_is_noop() {
    let mut a = search_app();
    a.press(key(KeyCode::Char('n')));
    a.press(shift('N'));
    assert_eq!(a.tab().viewport_top, 0);
    assert!(a.last_search.is_none());
}

#[test]
fn search_stays_put_when_no_match_in_direction() {
    let mut a = search_app();
    a.press(key(KeyCode::Char('/')));
    type_into(a.dialog.as_mut().unwrap(), "no_such_pattern");
    a.press(key(KeyCode::Enter));
    assert_eq!(a.tab().viewport_top, 0);
    a.press(key(KeyCode::Char('n')));
    assert_eq!(a.tab().viewport_top, 0);
}

#[test]
fn search_cleared_on_filter_change() {
    let mut a = search_app();
    a.press(key(KeyCode::Char('/')));
    type_into(a.dialog.as_mut().unwrap(), "alpha");
    a.press(key(KeyCode::Enter));
    assert!(a.tab().search.is_some());
    a.press(key(KeyCode::Char('f')));
    type_into(a.dialog.as_mut().unwrap(), "level>=warn");
    a.press(key(KeyCode::Enter));
    assert!(a.tab().search.is_none());
    assert!(a.last_search.is_some());
}

#[test]
fn n_after_filter_change_re_derives_search() {
    let mut a = search_app();
    a.press(key(KeyCode::Char('/')));
    type_into(a.dialog.as_mut().unwrap(), "alpha");
    a.press(key(KeyCode::Enter));
    a.press(key(KeyCode::Char('n')));
    assert_eq!(a.tab().viewport_top, 2);
    a.tab_mut().content.formatted = (0..10)
        .map(|i| {
            if i % 2 == 0 {
                format!("alpha row {i}")
            } else {
                format!("beta row {i}")
            }
        })
        .collect();
    a.tab_mut().search = None;
    a.tab_mut().viewport_top = 3;
    a.press(key(KeyCode::Char('n')));
    assert_eq!(a.tab().viewport_top, 4);
    assert!(a.tab().search.is_some());
}

#[test]
fn compute_matches_returns_sorted_indices() {
    let rows: Vec<String> = ["foo", "bar", "foo bar", "baz", "qux foo"]
        .iter()
        .map(|s| s.to_string())
        .collect();
    let pattern = compile_pattern("foo").unwrap();
    assert_eq!(compute_matches(&rows, &pattern), vec![0, 2, 4]);
}

#[test]
fn highlight_line_styles_only_matched_runs() {
    let pattern = compile_pattern("alpha").unwrap();
    let spans = highlight_line("xx alpha yy alpha zz", &pattern);
    assert_eq!(spans.len(), 5);
    assert_eq!(spans[0].style, Emphasis::Plain);
    assert_eq!(spans[0].content, "xx ");
    assert_eq!(spans[1].style, Emphasis::Reversed);
    assert_eq!(spans[1].content, "alpha");
    assert_eq!(spans[2].style, Emphasis::Plain);
    assert_eq!(spans[2].content, " yy ");
    assert_eq!(spans[3].style, Emphasis::Reversed);
    assert_eq!(spans[3].content, "alpha");
    assert_eq!(spans[4].style, Emphasis::Plain);
    assert_eq!(spans[4].content, " zz");
}

#[test]
fn highlight_line_skips_zero_width_matches() {
    let pattern = compile_pattern("a*").unwrap();
    let spans = highlight_line("xyz", &pattern);
    assert_eq!(spans.len(), 1);
    assert_eq!(spans[0].content, "xyz");
}

#[test]
fn x_enters_exclude_mode_at_viewport_top() {
    let mut a = select_app(10, 5);
    a.tab_mut().viewport_top = 3;
    a.press(key(KeyCode::Char('x')));
    assert_eq!(a.tab().select, Some(excl_sel(3)));
}

#[test]
fn x_is_noop_when_no_rows() {
    let mut a = Seer::with_rows(Vec::new());
    a.viewport_height = 5;
    a.press(key(KeyCode::Char('x')));
    assert_eq!(a.tab().select, None);
}

#[test]
fn shift_x_enters_include_mode_at_viewport_top() {
    let mut a = select_app(10, 5);
    a.tab_mut().viewport_top = 3;
    a.press(shift('X'));
    assert_eq!(a.tab().select, Some(incl_sel(3)));
}

#[test]
fn shift_x_accepts_no_modifier_form() {
    let mut a = select_app(10, 5);
    a.press(key(KeyCode::Char('X')));
    assert_eq!(a.tab().select, Some(incl_sel(0)));
}

#[test]
fn select_j_moves_selection_within_viewport() {
    let mut a = select_app(10, 5);
    a.press(key(KeyCode::Char('x')));
    a.press(key(KeyCode::Char('j')));
    assert_eq!(a.tab().select, Some(excl_sel(1)));
    assert_eq!(a.tab().viewport_top, 0);
    a.press(key(KeyCode::Down));
    assert_eq!(a.tab().select, Some(excl_sel(2)));
}

#[test]
fn select_k_moves_selection_up() {
    let mut a = select_app(10, 5);
    a.press(key(KeyCode::Char('x')));
    a.tab_mut().select = Some(excl_sel(3));
    a.press(key(KeyCode::Char('k')));
    assert_eq!(a.tab().select, Some(excl_sel(2)));
    a.press(key(KeyCode::Up));
    assert_eq!(a.tab().select, Some(excl_sel(1)));
}

#[test]
fn select_motion_preserves_polarity() {
    let mut a = select_app(10, 5);
    a.press(shift('X'));
    a.press(key(KeyCode::Char('j')));
    assert_eq!(a.tab().select, Some(incl_sel(1)));
}

#[test]
fn select_j_past_viewport_bottom_scrolls() {
    let mut a = select_app(10, 3);
    a.press(key(KeyCode::Char('x')));
    for _ in 0..3 {
        a.press(key(KeyCode::Char('j')));
    }
    assert_eq!(a.tab().select, Some(excl_sel(3)));
    assert_eq!(a.tab().viewport_top, 1);
}

#[test]
fn select_k_above_viewport_top_scrolls() {
    let mut a = select_app(10, 3);
    a.tab_mut().viewport_top = 5;
    a.press(key(KeyCode::Char('x')));
    a.press(key(KeyCode::Char('k')));
    assert_eq!(a.tab().select, Some(excl_sel(4)));
    assert_eq!(a.tab().viewport_top, 4);
}

#[test]
fn select_clamps_at_ends() {
    let mut a = select_app(3, 5);
    a.press(key(KeyCode::Char('x')));
    a.press(key(KeyCode::Char('k')));
    assert_eq!(a.tab().select, Some(excl_sel(0)));
    for _ in 0..10 {
        a.press(key(KeyCode::Char('j')));
    }
    assert_eq!(a.tab().select, Some(excl_sel(2)));
}

#[test]
fn select_esc_cancels_without_changing_filter() {
    let mut a = select_app(5, 5);
    let before = &shown(&a);
    a.press(key(KeyCode::Char('x')));
    a.press(key(KeyCode::Char('j')));
    a.press(key(KeyCode::Esc));
    assert_eq!(a.tab().select, None);
    assert_eq!(&shown(&a), before);
}

#[test]
fn exclude_enter_appends_negated_predicate_and_exits_mode() {
    let mut a = select_app(5, 5);
    a.press(key(KeyCode::Char('x')));
    a.press(key(KeyCode::Char('j')));
    a.press(key(KeyCode::Char('j')));
    a.press(key(KeyCode::Enter));
    assert_eq!(a.tab().select, None);
    let displayed = &shown(&a);
    assert!(
        displayed.contains("msg!=") && displayed.contains("msg 2"),
        "expected exclusion predicate in {displayed:?}",
    );
}

#[test]
fn include_enter_appends_positive_predicate_and_exits_mode() {
    let mut a = select_app(5, 5);
    a.press(shift('X'));
    a.press(key(KeyCode::Char('j')));
    a.press(key(KeyCode::Char('j')));
    a.press(key(KeyCode::Enter));
    assert_eq!(a.tab().select, None);
    let displayed = &shown(&a);
    assert!(
        displayed.contains("msg=") && displayed.contains("msg 2"),
        "expected inclusion predicate in {displayed:?}",
    );
    assert!(
        !displayed.contains("msg!="),
        "include must not produce a negated predicate: {displayed:?}",
    );
}

#[test]
fn select_enter_on_error_row_is_noop() {
    let events = vec![Some(ev("first")), None, Some(ev("third"))];
    let formatted = vec![
        "row 0".to_string(),
        "error: parse failure".to_string(),
        "row 2".to_string(),
    ];
    let mut a = Seer::with_events(events, formatted);
    a.viewport_height = 5;
    a.press(key(KeyCode::Char('x')));
    a.press(key(KeyCode::Char('j')));
    let before = &shown(&a);
    a.press(key(KeyCode::Enter));
    assert_eq!(a.tab().select, Some(excl_sel(1)));
    assert_eq!(&shown(&a), before);
}

#[test]
fn select_other_keys_are_ignored() {
    let mut a = select_app(10, 5);
    a.press(key(KeyCode::Char('x')));
    a.press(key(KeyCode::Char('q')));
    assert!(!a.quit);
    assert_eq!(a.tab().select, Some(excl_sel(0)));
    a.press(key(KeyCode::Char('f')));
    assert!(a.dialog.is_none());
    a.press(key(KeyCode::Tab));
    assert_eq!(a.active, 0);
}

#[test]
fn default_step_is_one_minute() {
    let a = app(0, 5);
    assert_eq!(a.current_step_label(), "1m");
}

#[test]
fn equals_increases_step_clamped_at_top() {
    let mut a = app(0, 5);
    for _ in 0..TIME_STEP_COUNT {
        a.press(key(KeyCode::Char('=')));
    }
    assert_eq!(a.current_step_label(), time_step_at(TIME_STEP_COUNT - 1).0);
    a.press(key(KeyCode::Char('=')));
    assert_eq!(a.current_step_label(), time_step_at(TIME_STEP_COUNT - 1).0);
}

#[test]
fn plus_is_alias_for_increase() {
    let mut a = app(0, 5);
    let before = a.time_step_idx;
    a.press(shift('+'));
    assert_eq!(a.time_step_idx, before + 1);
    a.press(key(KeyCode::Char('+')));
    assert_eq!(a.time_step_idx, before + 2);
}

#[test]
fn minus_decreases_step_clamped_at_bottom() {
    let mut a = app(0, 5);
    for _ in 0..TIME_STEP_COUNT {
        a.press(key(KeyCode::Char('-')));
    }
    assert_eq!(a.current_step_label(), time_step_at(0).0);
    a.press(key(KeyCode::Char('-')));
    assert_eq!(a.current_step_label(), time_step_at(0).0);
}

#[test]
fn gt_lands_on_first_event_past_target() {
    let mut a = time_app(120, 10);
    a.press(shift('>'));
    assert_eq!(a.tab().viewport_top, 60);
    a.press(shift('>'));
    let max = a.tab().max_top(a.viewport_height, a.viewport_width);
    assert_eq!(a.tab().viewport_top, max);
}

#[test]
fn gt_snaps_to_end_when_no_event_past_target() {
    let mut a = time_app(60, 10);
    a.press(shift('>'));
    let max = a.tab().max_top(a.viewport_height, a.viewport_width);
    assert_eq!(a.tab().viewport_top, max);
}

#[test]
fn gt_accepts_no_modifier_form() {
    let mut a = time_app(120, 10);
    a.press(key(KeyCode::Char('>')));
    assert_eq!(a.tab().viewport_top, 60);
}

#[test]
fn lt_rewinds_by_current_step() {
    let mut a = time_app(120, 10);
    a.tab_mut().viewport_top = 90;
    a.press(shift('<'));
    assert_eq!(a.tab().viewport_top, 30);
    a.press(shift('<'));
    assert_eq!(a.tab().viewport_top, 0);
}

#[test]
fn step_change_then_advance_uses_new_step() {
    let mut a = time_app(30, 10);
    for _ in 0..4 {
        a.press(key(KeyCode::Char('-')));
    }
    assert_eq!(a.current_step_label(), "1s");
    a.press(key(KeyCode::Char('=')));
    assert_eq!(a.current_step_label(), "5s");
    a.press(shift('>'));
    assert_eq!(a.tab().viewport_top, 5);
}

#[test]
fn advance_with_no_events_is_noop() {
    let mut a = Seer::with_events(Vec::new(), Vec::new());
    a.viewport_height = 5;
    a.press(shift('>'));
    a.press(shift('<'));
    assert_eq!(a.tab().viewport_top, 0);
}

#[test]
fn advance_with_only_error_rows_is_noop() {
    let events = vec![None, None, None];
    let formatted = vec!["err 0".into(), "err 1".into(), "err 2".into()];
    let mut a = Seer::with_events(events, formatted);
    a.viewport_height = 5;
    a.tab_mut().viewport_top = 1;
    a.press(shift('>'));
    a.press(shift('<'));
    assert_eq!(a.tab().viewport_top, 1);
}

#[test]
fn advance_anchors_through_error_row() {
    let events = vec![Some(ev_at(0, "a")), None, Some(ev_at(120, "b"))];
    let formatted = vec!["a".into(), "err".into(), "b".into()];
    let mut a = Seer::with_events(events, formatted);
    a.viewport_height = 5;
    a.tab_mut().viewport_top = 1;
    a.press(shift('>'));
    let max = a.tab().max_top(a.viewport_height, a.viewport_width);
    assert_eq!(a.tab().viewport_top, max);
    a.press(shift('<'));
    assert_eq!(a.tab().viewport_top, 0);
}

#[test]
fn step_keys_inside_dialog_dont_affect_step() {
    let mut a = app(10, 5);
    let before = a.time_step_idx;
    a.press(key(KeyCode::Char('f')));
    a.press(key(KeyCode::Char('=')));
    a.press(key(KeyCode::Char('-')));
    a.press(shift('>'));
    a.press(shift('<'));
    assert_eq!(a.time_step_idx, before);
    assert_eq!(a.dialog.as_ref().unwrap().editor().unwrap().text, "=-><");
}

#[test]
fn b_enters_bookmark_mode_at_viewport_top() {
    let mut a = select_app(10, 5);
    a.tab_mut().viewport_top = 3;
    a.press(key(KeyCode::Char('b')));
    assert_eq!(a.tab().select, Some(bm_sel(3)));
}

#[test]
fn b_is_noop_when_no_rows() {
    let mut a = Seer::with_rows(Vec::new());
    a.viewport_height = 5;
    a.press(key(KeyCode::Char('b')));
    assert_eq!(a.tab().select, None);
}

#[test]
fn bookmark_enter_opens_name_dialog() {
    let mut a = select_app(5, 5);
    a.press(key(KeyCode::Char('b')));
    a.press(key(KeyCode::Enter));
    assert!(matches!(a.dialog, Some(Dialog::BookmarkName { .. })));
    assert!(a.tab().select.is_none());
}

#[test]
fn bookmark_apply_with_blank_name_creates_unnamed() {
    let mut a = select_app(5, 5);
    create_bookmark(&mut a, 1, None);
    assert!(a.dialog.is_none());
    assert_eq!(a.session.bookmark_count(), 1);
    let bm = a.flat_bookmarks()[0];
    assert!(bm.name.is_none());
}

#[test]
fn bookmark_apply_with_name_creates_named() {
    let mut a = select_app(5, 5);
    create_bookmark(&mut a, 2, Some("here"));
    assert_eq!(a.session.bookmark_count(), 1);
    let bm = a.flat_bookmarks()[0];
    assert_eq!(
        bm.name.as_ref().map(|n| n.0.clone()),
        Some("here".into())
    );
}

#[test]
fn bookmark_on_error_row_is_noop() {
    let events = vec![Some(ev("first")), None, Some(ev("third"))];
    let formatted = vec![
        "row 0".to_string(),
        "error: parse failure".to_string(),
        "row 2".to_string(),
    ];
    let mut a = Seer::with_events(events, formatted);
    a.viewport_height = 5;
    a.press(key(KeyCode::Char('b')));
    a.press(key(KeyCode::Char('j')));
    a.press(key(KeyCode::Enter));
    assert!(a.dialog.is_none(), "no dialog should open for an error row");
    assert_eq!(a.session.bookmark_count(), 0);
    assert_eq!(a.tab().select, Some(bm_sel(1)));
}

#[test]
fn bookmarks_tab_appears_iff_at_least_one_bookmark() {
    let mut a = select_app(5, 5);
    assert!(!a.has_bookmarks_tab());
    create_bookmark(&mut a, 0, None);
    assert!(a.has_bookmarks_tab());
}

#[test]
fn bookmarks_tab_cycling_with_tab_key() {
    let mut a = select_app(5, 5);
    create_bookmark(&mut a, 0, None);
    assert_eq!(a.tabs.len() + usize::from(a.has_bookmarks_tab()), 2);
    assert!(!a.bookmarks_active());
    a.press(key(KeyCode::Tab));
    assert!(a.bookmarks_active());
    a.press(key(KeyCode::Tab));
    assert!(!a.bookmarks_active());
}

#[test]
fn bookmarks_tab_h_opens_help() {
    let mut a = select_app(5, 5);
    create_bookmark(&mut a, 0, None);
    a.press(key(KeyCode::Tab));
    assert!(a.bookmarks_active());
    a.press(key(KeyCode::Char('h')));
    assert!(matches!(a.dialog, Some(Dialog::Help { .. })));
}

#[test]
fn bookmarks_tab_ignores_ctrl_w() {
    let mut a = select_app(5, 5);
    create_bookmark(&mut a, 0, None);
    a.press(key(KeyCode::Tab));
    assert!(a.bookmarks_active());
    a.press(ctrl('w'));
    assert!(a.bookmarks_active());
    assert_eq!(a.tabs.len(), 1);
}

#[test]
fn bookmarks_tab_jk_moves_cursor() {
    let mut a = select_app(5, 5);
    create_bookmark(&mut a, 0, None);
    create_bookmark(&mut a, 1, None);
    create_bookmark(&mut a, 2, None);
    a.press(key(KeyCode::Tab));
    assert!(a.bookmarks_active());
    a.press(key(KeyCode::Char('j')));
    assert_eq!(a.bookmark_cursor_idx(), Some(1));
    a.press(key(KeyCode::Char('j')));
    assert_eq!(a.bookmark_cursor_idx(), Some(2));
    a.press(key(KeyCode::Char('k')));
    assert_eq!(a.bookmark_cursor_idx(), Some(1));
}

#[test]
fn bookmark_x_opens_confirmation_dialog() {
    let mut a = select_app(5, 5);
    create_bookmark(&mut a, 0, Some("named"));
    a.press(key(KeyCode::Tab));
    assert!(a.bookmarks_active());
    a.press(key(KeyCode::Char('j')));
    a.press(key(KeyCode::Char('x')));
    assert!(
        matches!(a.dialog, Some(Dialog::ConfirmDeleteBookmark { .. }),)
    );
    assert_eq!(a.session.bookmark_count(), 1);
}

#[test]
fn bookmark_x_confirm_deletes_and_hides_tab_when_last() {
    let mut a = select_app(5, 5);
    create_bookmark(&mut a, 0, None);
    a.press(key(KeyCode::Tab));
    assert!(a.bookmarks_active());
    a.press(key(KeyCode::Char('j')));
    a.press(key(KeyCode::Char('x')));
    a.press(key(KeyCode::Enter));
    assert!(a.dialog.is_none());
    assert_eq!(a.session.bookmark_count(), 0);
    assert!(!a.has_bookmarks_tab());
    assert_eq!(a.active, 0);
}

#[test]
fn bookmark_x_cancel_keeps_bookmark() {
    let mut a = select_app(5, 5);
    create_bookmark(&mut a, 0, None);
    a.press(key(KeyCode::Tab));
    a.press(key(KeyCode::Char('j')));
    a.press(key(KeyCode::Char('x')));
    a.press(key(KeyCode::Esc));
    assert!(a.dialog.is_none());
    assert_eq!(a.session.bookmark_count(), 1);
}

#[test]
fn bookmark_enter_navigates_within_existing_tab() {
    let mut a = select_app(5, 5);
    create_bookmark(&mut a, 2, None);
    let original_tab = a.active;
    a.press(key(KeyCode::Tab));
    assert!(a.bookmarks_active());
    a.press(key(KeyCode::Char('j')));
    a.press(key(KeyCode::Char('k')));
    a.press(key(KeyCode::Enter));
    assert!(!a.bookmarks_active());
    assert_eq!(a.active, original_tab);
}

#[test]
fn flat_bookmarks_sorted_by_display_time() {
    let mut a = select_app(5, 5);
    let stream_id = a.tabs[a.active].stream;
    add_bookmark_at(&mut a, stream_id, 300, "third");
    add_bookmark_at(&mut a, stream_id, 100, "first");
    add_bookmark_at(&mut a, stream_id, 200, "second");
    let names: Vec<String> = a
        .flat_bookmarks()
        .iter()
        .map(|b| b.name.as_ref().unwrap().0.clone())
        .collect();
    assert_eq!(names, vec!["first", "second", "third"]);
}

#[test]
fn resume_restores_persisted_tabs_into_app() {
    let mut session = Session::new(SessionId(7), at(0));
    let stream_a = LogStream::new(LogStreamId(101), "Tab 7".to_string());
    let stream_b = LogStream::new(LogStreamId(102), "Summary 9".to_string());
    let id_a = stream_a.id;
    let id_b = stream_b.id;
    session.streams.insert_unique(stream_a).unwrap();
    session.streams.insert_unique(stream_b).unwrap();
    session.tabs.push(SavedTab {
        name: "Tab 7".to_string(),
        stream: id_a,
        kind: TabKind::Stream,
        cursor: None,
    });
    session.tabs.push(SavedTab {
        name: "Summary 9".to_string(),
        stream: id_b,
        kind: TabKind::Summary,
        cursor: None,
    });
    let app = Seer::over(session);
    assert_eq!(app.tabs.len(), 2);
    assert_eq!(app.tabs[0].stream, id_a);
    assert_eq!(app.tabs[0].kind, TabKind::Stream);
    assert_eq!(app.tabs[1].stream, id_b);
    assert_eq!(app.tabs[1].kind, TabKind::Summary);
    assert!(app.next_tab_number > 9);
}

#[test]
fn resume_with_no_persisted_tabs_falls_back_to_a_fresh_tab() {
    let session = Session::new(SessionId(7), at(0));
    let app = Seer::over(session);
    assert_eq!(app.tabs.len(), 1);
    assert_eq!(app.tabs[0].kind, TabKind::Stream);
}

#[test]
fn resume_drops_tabs_pointing_at_missing_streams() {
    let mut session = Session::new(SessionId(7), at(0));
    let phantom = LogStream::new(LogStreamId(101), "Tab 1".to_string()).id;
    session.tabs.push(SavedTab {
        name: "Tab 1".to_string(),
        stream: phantom,
        kind: TabKind::Stream,
        cursor: None,
    });
    let app = Seer::over(session);
    assert_eq!(app.tabs.len(), 1);
    assert_ne!(app.tabs[0].stream, phantom);
}

#[test]
fn flat_bookmarks_ties_broken_by_created_at() {
    let mut a = select_app(5, 5);
    let stream = a.tabs[a.active].stream;
    for (id, secs, label) in [(50, 1_700_000_001, "later"), (51, 1_700_000_000, "earlier")] {
        a.session.add_bookmark(Bookmark {
            id: BookmarkId(id),
            stream,
            created_at: at(secs),
            name: Some(BookmarkName(label.to_string())),
            draft: draft_at(500, label),
        });
    }
    let names: Vec<String> = a
        .flat_bookmarks()
        .iter()
        .map(|b| b.name.as_ref().unwrap().0.clone())
        .collect();
    assert_eq!(names, vec!["earlier", "later"]);
}

// what every step keeps

#[test]
fn esc_closes_any_dialog() {
    for c in ['q', 'f', 'r', '/', '?', 'd', 'h'] {
        let mut a = app(10, 5);
        a.press(key(KeyCode::Char(c)));
        assert!(a.dialog.is_some(), "{c}");
        a.press(key(KeyCode::Esc));
        assert!(a.dialog.is_none(), "{c}");
        assert!(!a.quit);
    }
}

#[test]
fn only_presses_count() {
    for kind in [KeyEventKind::Repeat, KeyEventKind::Release] {
        let mut a = app(100, 10);
        let mut k = key(KeyCode::Char('j'));
        k.kind = kind;
        a.press(k);
        assert_eq!(a.tab().viewport_top, 0, "{kind:?}");
    }
}

#[test]
fn panes_cycle_both_ways() {
    let mut a = app(10, 5);
    for _ in 0..2 {
        a.press(ctrl('t'));
        a.press(key(KeyCode::Esc));
    }
    for start in 0..3 {
        a.active = start;
        a.next_tab();
        a.prev_tab();
        assert_eq!(a.active, start);
    }
}

#[test]
fn filter_is_shared_by_the_tabs_of_a_stream() {
    let mut a = Seer::new();
    let stream = a.tabs[0].stream;
    a.tabs.push(Tab::new("Twin".to_string(), TabKind::Stream, stream));
    a.tabs.push(Tab::new("Summary".to_string(), TabKind::Summary, stream));
    a.take_commands();
    a.apply_filter(Syntax.parse("msg=x").unwrap());
    assert_eq!(shown(&a), "msg=x");
    let asked: Vec<usize> = a
        .take_commands()
        .iter()
        .filter_map(|c| match c {
            Command::BuildSummary { tab, .. } | Command::Refilter { tab, .. } => Some(*tab),
            _ => None,
        })
        .collect();
    assert_eq!(asked, vec![0, 1, 2]);
}

#[test]
fn toggles_undo_themselves() {
    let mut a = app(10, 5);
    let before = a.active_stream().render_opts();
    a.toggle_show_extras();
    a.toggle_show_date();
    a.toggle_show_raw();
    let flipped = a.active_stream().render_opts();
    assert_eq!(flipped.show_extras, !before.show_extras);
    assert_eq!(flipped.show_date, !before.show_date);
    assert_eq!(flipped.show_raw, !before.show_raw);
    a.toggle_show_extras();
    a.toggle_show_date();
    a.toggle_show_raw();
    assert_eq!(a.active_stream().render_opts(), before);
}

#[test]
fn time_steps_ascend() {
    for i in 1..TIME_STEP_COUNT {
        assert!(time_step_at(i - 1).1 < time_step_at(i).1);
    }
    assert_eq!(time_step_at(5), ("1m", 60_000));
}

#[test]
fn live_tabs_ask_for_what_they_cannot_do() {
    let mut a = Seer::new();
    a.viewport_height = 10;
    let opened = a.take_commands();
    assert!(matches!(
        opened[0],
        Command::OpenView { tab: 0, stream: LogStreamId(1) }
    ));
    a.press(key(KeyCode::Char('j')));
    a.press(ctrl('d'));
    a.press(key(KeyCode::Char('k')));
    a.press(key(KeyCode::Char('g')));
    a.press(shift('G'));
    a.press(shift('>'));
    let asked = a.take_commands();
    assert!(matches!(asked[0], Command::ScrollDown { tab: 0, lines: 1 }), "{asked:?}");
    assert!(matches!(asked[1], Command::ScrollDown { tab: 0, lines: 5 }), "{asked:?}");
    assert!(matches!(asked[2], Command::ScrollUp { tab: 0, lines: 1 }), "{asked:?}");
    assert!(matches!(asked[3], Command::SeekToStart { tab: 0 }), "{asked:?}");
    assert!(matches!(asked[4], Command::SeekToEnd { tab: 0 }), "{asked:?}");
    assert!(
        matches!(
            asked[5],
            Command::SeekByTime { tab: 0, direction: Direction::Forward, millis: 60_000 }
        ),
        "{asked:?}"
    );
    assert!(a.take_commands().is_empty());
}

#[test]
fn matches_are_found_nearest_first() {
    let matches = vec![2, 5, 9];
    let target = |from, direction, anchor| find_target(&matches, from, direction, anchor);
    assert_eq!(target(5, SearchDirection::Forward, SearchAnchor::Include), Some(5));
    assert_eq!(target(5, SearchDirection::Forward, SearchAnchor::Skip), Some(9));
    assert_eq!(target(5, SearchDirection::Backward, SearchAnchor::Include), Some(5));
    assert_eq!(target(5, SearchDirection::Backward, SearchAnchor::Skip), Some(2));
    assert_eq!(target(9, SearchDirection::Forward, SearchAnchor::Skip), None);
    assert_eq!(target(1, SearchDirection::Backward, SearchAnchor::Include), None);
    assert_eq!(SearchDirection::Forward.opposite(), SearchDirection::Backward);
    assert_eq!(SearchDirection::Backward.prompt(), '?');
}

#[test]
fn highlighting_keeps_the_line() {
    let pattern = compile_pattern("[aeiou]+").unwrap();
    let text = "häuser über Bäume";
    let joined: String =
        highlight_line(text, &pattern).iter().map(|s| s.content.as_str()).collect();
    assert_eq!(joined, text);
    assert_eq!(pattern.as_str(), "[aeiou]+");
}

#[test]
fn patterns_that_do_not_compile_say_why_on_one_line() {
    let error = compile_pattern("[").unwrap_err();
    let summary = regex_error_summary(&error);
    assert_eq!(summary, error.split_whitespace().collect::<Vec<_>>().join(" "));
    assert!(summary.contains("unclosed character class"), "{summary}");
}

#[test]
fn restored_tabs_stand_where_they_stood() {
    let mut session = Session::new(SessionId(7), at(0));
    session
        .streams
        .insert_unique(LogStream::new(LogStreamId(9), "s".to_string()))
        .unwrap();
    let mut cursor = Cursor::new();
    cursor.set(SourceId::new("a.log".to_string()), seer::position::ByteOffset(12));
    session.tabs.push(SavedTab {
        name: "Nexus".to_string(),
        stream: LogStreamId(9),
        kind: TabKind::Stream,
        cursor: Some(cursor),
    });
    let mut a = Seer::over(session);
    assert_eq!(a.tabs[0].name, "Nexus");
    let asked = a.take_commands();
    assert!(
        asked.iter().any(|c| matches!(c, Command::SeekToCursor { tab: 0, cursor }
            if cursor.byte_offset().0 == 12)),
        "{asked:?}"
    );
}

#[test]
fn enter_on_an_error_leaves_text_and_cursor_alone() {
    let mut d = Dialog::filter(&Filter::default(), &Syntax);
    type_into(&mut d, "bogus");
    d.handle_key(key(KeyCode::Left), &Syntax);
    let cursor = d.editor().unwrap().cursor;
    assert!(matches!(d.handle_key(key(KeyCode::Enter), &Syntax), DialogResult::Stay));
    assert_eq!(d.editor().unwrap().text, "bogus");
    assert_eq!(d.editor().unwrap().cursor, cursor);
    assert!(d.parse_error().is_some());

    let mut d = Dialog::search(SearchDirection::Forward, vec!["(old".to_string()]);
    for (typed, wrong) in [("a", false), ("(", true), (")", false)] {
        type_into(&mut d, typed);
        assert_eq!(d.parse_error().is_some(), wrong, "after {typed}");
    }
    let mut d = Dialog::search(SearchDirection::Forward, vec!["(old".to_string()]);
    d.handle_key(key(KeyCode::Up), &Syntax);
    assert!(d.parse_error().is_some());
    assert!(matches!(d.handle_key(key(KeyCode::Enter), &Syntax), DialogResult::Stay));
    assert_eq!(d.editor().unwrap().text, "(old");
    d.handle_key(key(KeyCode::Down), &Syntax);
    assert!(d.parse_error().is_none());
}
