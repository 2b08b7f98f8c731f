//! The start of the program: saved sessions and the choice among them.

use seer::area::{percent_width, popup_area, popup_area_with_width, rows_of, Area, RowSize};
use seer::event::Timestamp;
use seer::key::{KeyCode, KeyEvent, KeyModifiers};
use seer::position::SourceId;
use seer::screen::startup::render_startup_dialog;
use seer::session::{BookmarkId, Cadence, SavePolicy, Session, SessionId, SessionSource};
use seer::startup::{
    check_resumable, format_session_list, match_kind_label, report_exit, sort_newest_first,
    MatchKind, SessionMatch, StartupChoice, StartupDialog, StartupDialogStep,
};

const PLAIN: KeyModifiers =
    KeyModifiers { shift: false, control: false, alt: false, other: false };

fn at(secs: i64) -> Timestamp {
    Timestamp { secs, nanos: 0 }
}

fn session(id: u32) -> Session {
    Session::new(SessionId(id), at(0))
}

fn source(path: &str) -> SessionSource {
    SessionSource {
        id: SourceId::new(path.to_string()),
        path: path.to_string(),
        mtime: at(0),
        size: 3,
    }
}

fn fake_match(kind: MatchKind) -> SessionMatch {
    SessionMatch { kind, session: session(7) }
}

fn keypress(code: KeyCode) -> KeyEvent {
    KeyEvent::new(code, PLAIN)
}

#[test]
fn format_session_list_empty_returns_friendly_message() {
    let out = format_session_list(&Vec::new());
    assert_eq!(out, "(no saved sessions)\n");
}

#[test]
fn format_session_list_contains_one_row_per_session() {
    let s1 = session(0x12ab34cd);
    let s2 = session(0x00000001);
    let ids = [s1.id.to_text(), s2.id.to_text()];
    let out = format_session_list(&vec![s1, s2]);
    assert_eq!(out.matches('\n').count(), 3);
    assert!(out.contains(&ids[0]));
    assert!(out.contains(&ids[1]));
    assert!(out.lines().next().unwrap().contains("LAST SAVED"));
}

#[test]
fn session_list_shows_when_and_over_what() {
    let mut s = Session::new(SessionId(0xdeadbeef), at(86_400));
    s.sources.insert_unique(source("/logs/a.log")).unwrap();
    s.sources.insert_unique(source("/logs/b.log")).unwrap();
    let out = format_session_list(&vec![s]);
    let row = out.lines().nth(1).unwrap();
    assert!(row.contains("deadbeef"), "{row}");
    assert!(row.contains("1970-01-02"), "{row}");
    assert!(row.contains("/logs/a.log"), "{row}");
}

#[test]
fn session_ids_read_back() {
    for n in [0, 1, 0xdeadbeef, u32::MAX] {
        let text = SessionId(n).to_text();
        assert_eq!(text, format!("{n:08x}"));
        assert_eq!(SessionId::parse(&text), Some(SessionId(n)));
    }
    assert_eq!(SessionId::parse("not-an-id"), None);
    assert_eq!(SessionId::parse(""), None);
}

#[test]
fn bookmark_ids_print_in_groups() {
    let id = BookmarkId(0x0123_4567_89ab_cdef_0123_4567_89ab_cdef);
    assert_eq!(id.to_text(), "01234567-89ab-cdef-0123-456789abcdef");
}

#[test]
fn engine_for_resumed_session_errors_naming_missing_paths() {
    let mut s = session(1);
    s.sources.insert_unique(source("/logs/present.log")).unwrap();
    s.sources.insert_unique(source("/logs/gone.log")).unwrap();
    // in the order of their ids: gone, then present
    let msg = check_resumable(&s, &vec![false, true])
        .expect("expected error when a source file is missing");
    assert!(msg.contains("missing source files"), "msg = {msg}");
    assert!(msg.contains("/logs/gone.log"), "msg = {msg}");
    assert!(!msg.contains("/logs/present.log"), "msg = {msg}");
}

#[test]
fn engine_for_resumed_session_succeeds_when_all_paths_present() {
    let mut s = session(1);
    s.sources.insert_unique(source("/logs/a.log")).unwrap();
    s.sources.insert_unique(source("/logs/b.log")).unwrap();
    assert!(check_resumable(&s, &vec![true, true]).is_none());
}

#[test]
fn sessions_come_newest_first() {
    let old = Session::new(SessionId(1), at(100));
    let mid = Session::new(SessionId(2), at(200));
    let new = Session::new(SessionId(3), at(300));
    let ids: Vec<SessionId> =
        sort_newest_first(vec![mid, old, new]).iter().map(|s| s.id).collect();
    assert_eq!(ids, vec![SessionId(3), SessionId(2), SessionId(1)]);
}

#[test]
fn startup_dialog_with_no_matches_has_two_rows() {
    let d = StartupDialog::new(Vec::new());
    assert_eq!(d.rows(), 2);
    assert_eq!(d.new_saved_idx(), 0);
    assert_eq!(d.new_transient_idx(), 1);
    assert_eq!(d.selected, 0);
}

#[test]
fn startup_dialog_navigation_clamps_at_ends() {
    let mut d = StartupDialog::new(vec![
        fake_match(MatchKind::Exact),
        fake_match(MatchKind::Overlap),
    ]);
    assert_eq!(d.rows(), 4);
    d.move_up();
    assert_eq!(d.selected, 0);
    for expected in 1..4 {
        d.move_down();
        assert_eq!(d.selected, expected);
    }
    d.move_down();
    assert_eq!(d.selected, 3);
}

#[test]
fn startup_dialog_confirm_at_each_index() {
    let make = || {
        StartupDialog::new(vec![
            fake_match(MatchKind::Exact),
            fake_match(MatchKind::Overlap),
        ])
    };

    let mut d = make();
    d.selected = 0;
    assert!(matches!(d.confirm(), StartupChoice::ResumeSavedSession(_)));

    let mut d = make();
    d.selected = 1;
    assert!(matches!(d.confirm(), StartupChoice::ResumeSavedSession(_)));

    let mut d = make();
    d.selected = 2;
    assert!(matches!(d.confirm(), StartupChoice::NewSavedSession));

    let mut d = make();
    d.selected = 3;
    assert!(matches!(d.confirm(), StartupChoice::NewTransientSession));
}

#[test]
fn confirming_resumes_the_highlighted_session_itself() {
    let candidate = |id: u32, size: u64| {
        let mut session = session(id);
        session.sources.insert_unique(SessionSource { size, ..source("/a.log") }).unwrap();
        SessionMatch { kind: MatchKind::Exact, session }
    };
    let mut d = StartupDialog::new(vec![candidate(1, 10), candidate(2, 20)]);
    d.move_down();
    let StartupDialogStep::Done(choice) = d.handle_key(keypress(KeyCode::Enter)) else {
        panic!("the dialog goes on")
    };
    let StartupChoice::ResumeSavedSession(session) = choice else {
        panic!("no session was chosen")
    };
    assert_eq!(session.id, SessionId(2));
    assert_eq!(session.sources.iter().map(|s| s.size).collect::<Vec<u64>>(), vec![20]);
}

#[test]
fn startup_dialog_esc_returns_quit() {
    let d = StartupDialog::new(Vec::new());
    match d.handle_key(keypress(KeyCode::Esc)) {
        StartupDialogStep::Done(StartupChoice::Quit) => {}
        other => panic!("expected Done(Quit), got {other:?}"),
    }
}

#[test]
fn startup_dialog_ctrl_c_returns_quit() {
    let d = StartupDialog::new(Vec::new());
    let control = KeyModifiers { control: true, ..PLAIN };
    match d.handle_key(KeyEvent::new(KeyCode::Char('c'), control)) {
        StartupDialogStep::Done(StartupChoice::Quit) => {}
        _ => panic!("expected Done(Quit)"),
    }
}

#[test]
fn startup_dialog_enter_at_default_picks_first_candidate() {
    let d = StartupDialog::new(vec![fake_match(MatchKind::Exact)]);
    match d.handle_key(keypress(KeyCode::Enter)) {
        StartupDialogStep::Done(StartupChoice::ResumeSavedSession(_)) => {}
        _ => panic!("expected Done(Resume)"),
    }
}

#[test]
fn startup_dialog_enter_with_no_candidates_picks_new_saved() {
    let d = StartupDialog::new(Vec::new());
    match d.handle_key(keypress(KeyCode::Enter)) {
        StartupDialogStep::Done(StartupChoice::NewSavedSession) => {}
        _ => panic!("expected Done(NewSaved)"),
    }
}

#[test]
fn startup_dialog_digit_shortcut_jumps_to_candidate() {
    let d = StartupDialog::new(vec![
        fake_match(MatchKind::Exact),
        fake_match(MatchKind::Superset),
        fake_match(MatchKind::Overlap),
    ]);
    let d = match d.handle_key(keypress(KeyCode::Char('2'))) {
        StartupDialogStep::Continue(d) => d,
        _ => panic!("expected Continue"),
    };
    assert_eq!(d.selected, 1);
}

#[test]
fn startup_dialog_digit_shortcut_out_of_range_is_ignored() {
    let d = StartupDialog::new(vec![fake_match(MatchKind::Exact)]);
    let d = match d.handle_key(keypress(KeyCode::Char('5'))) {
        StartupDialogStep::Continue(d) => d,
        _ => panic!("expected Continue"),
    };
    assert_eq!(d.selected, 0);
}

#[test]
fn render_startup_dialog_does_not_panic_on_empty_or_populated() {
    let area = Area { x: 0, y: 0, width: 120, height: 40 };
    let dialog = StartupDialog::new(Vec::new());
    let popup = render_startup_dialog(&dialog, area);
    assert!(popup.body.len() >= 2);

    let dialog = StartupDialog::new(vec![
        fake_match(MatchKind::Exact),
        fake_match(MatchKind::Superset),
        fake_match(MatchKind::Overlap),
    ]);
    let popup = render_startup_dialog(&dialog, area);
    let text: String = popup
        .body
        .iter()
        .flat_map(|l| l.spans.iter().map(|s| s.content.as_str()))
        .collect();
    for kind in [MatchKind::Exact, MatchKind::Superset, MatchKind::Overlap] {
        assert!(text.contains(match_kind_label(kind)), "{text}");
    }
    // as wide as its widest line, which ratatui measures, within its border
    let widest = popup
        .body
        .iter()
        .map(|l| l.spans.iter().map(|s| s.content.chars().count()).sum::<usize>())
        .max()
        .unwrap();
    assert!(popup.area.width as usize >= widest, "{:?} {widest}", popup.area);
    assert!(popup.area.width < 120, "{:?}", popup.area);
}

#[test]
fn exit_reports_say_how_to_resume() {
    let saved = report_exit(SessionId(0xab), false, false, None);
    assert!(saved.errors.is_empty());
    assert_eq!(
        saved.messages,
        vec!["session saved.  resume with: seer --resume 000000ab".to_string()]
    );
    let resumed = report_exit(SessionId(0xab), false, true, None);
    assert_eq!(
        resumed.messages,
        vec!["session continued.  resume again with: seer --resume 000000ab".to_string()]
    );
    let transient = report_exit(SessionId(0xab), true, false, None);
    assert!(transient.errors.is_empty() && transient.messages.is_empty());
    let failed = report_exit(SessionId(0xab), false, false, Some("disk full".to_string()));
    assert!(failed.errors[0].contains("final session save failed: disk full"));
}

#[test]
fn save_policy_waits_for_the_debounce_window() {
    let mut policy = SavePolicy::new(5, 100);
    assert!(!policy.dirty());
    assert!(!policy.due(1000));
    policy.record(Cadence::Debounced);
    assert!(policy.dirty());
    assert!(!policy.due(104));
    assert!(policy.due(105));
    policy.mark_saved(105);
    assert!(!policy.dirty());
    assert!(!policy.due(1000));
    policy.record(Cadence::Inline);
    assert!(policy.dirty());
}

#[test]
fn rows_fill_their_area_from_the_top() {
    let area = Area { x: 2, y: 3, width: 40, height: 10 };
    let parts =
        rows_of(area, &vec![RowSize::Length(1), RowSize::Min(1), RowSize::Length(2)]);
    let heights: Vec<u16> = parts.iter().map(|p| p.height).collect();
    assert_eq!(heights, vec![1, 7, 2]);
    let tops: Vec<u16> = parts.iter().map(|p| p.y).collect();
    assert_eq!(tops, vec![3, 4, 11]);
    assert!(parts.iter().all(|p| p.x == 2 && p.width == 40));
}

#[test]
fn rows_that_fit_are_stacked() {
    for height in 0..=30u16 {
        for (above, least, below) in [(0, 0, 0), (1, 1, 1), (3, 0, 2), (7, 5, 4), (0, 9, 1)] {
            if above + least + below > height {
                continue;
            }
            let area = Area { x: 5, y: height / 2, width: 17, height };
            let sizes =
                vec![RowSize::Length(above), RowSize::Min(least), RowSize::Length(below)];
            let rest = height - above - below;
            let strip = |y: u16, height: u16| Area { y: area.y + y, height, ..area };
            assert_eq!(
                rows_of(area, &sizes),
                vec![strip(0, above), strip(above, rest), strip(above + rest, below)],
            );
        }
    }
}

#[test]
fn a_row_that_may_vanish_yields_to_the_other() {
    for height in 0..=20u16 {
        for asked in [0, 1, 5, 19, 20, 21, 400, u16::MAX] {
            let area = Area { x: 1, y: 2, width: 9, height };
            let parts = rows_of(area, &vec![RowSize::Length(asked), RowSize::Min(0)]);
            let taken = asked.min(height);
            assert_eq!(parts[0], Area { height: taken, ..area });
            assert_eq!(parts[1], Area { y: 2 + taken, height: height - taken, ..area });
        }
    }
}

#[test]
fn rows_that_compete_stay_within_their_area() {
    let area = Area { x: 0, y: 4, width: 10, height: 3 };
    let sizes = vec![RowSize::Length(2), RowSize::Min(2), RowSize::Length(2)];
    for part in rows_of(area, &sizes) {
        assert!(part.x == 0 && part.width == 10);
        assert!(part.y >= 4 && part.y + part.height <= 7);
    }
}

#[test]
fn popups_are_centred_and_clipped() {
    let area = Area { x: 0, y: 0, width: 100, height: 40 };
    assert_eq!(percent_width(100, 70), 70);
    let popup = popup_area(area, 70, 10);
    assert_eq!(popup, Area { x: 15, y: 15, width: 70, height: 10 });
    assert_eq!(popup.inner(), Area { x: 16, y: 16, width: 68, height: 8 });
    let wide = popup_area_with_width(area, 300, 90);
    assert_eq!(wide, area);
}
