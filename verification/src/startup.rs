//! Choosing a session: the table of saved ones and the startup dialog.

use crate::event::Timestamp;
use crate::format::{push_right_aligned, right_aligned};
use crate::key::{KeyCode, KeyEvent};
use crate::number::{decimal, decimal_text, hex};
use crate::session::{
    list_sources, paths_of, stream_count, Session, SessionId, SessionSource, SessionView,
};
use crate::text::{head_truncated, truncate_path_head};
use vstd::prelude::*;

verus! {

/// How a saved session's sources relate to the files named by the user.
#[derive(Debug, Clone, Copy, PartialEq, Eq, Structural)]
pub enum MatchKind {
    /// the same files
    Exact,
    /// all of them and more
    Superset,
    /// some of them
    Overlap,
}

/// What the startup dialog calls the relation.
pub open spec fn kind_text(kind: MatchKind) -> Seq<char> {
    match kind {
        MatchKind::Exact => "exact"@,
        MatchKind::Superset => "superset"@,
        MatchKind::Overlap => "overlap"@,
    }
}

/// What the startup dialog calls the relation.
pub fn match_kind_label(kind: MatchKind) -> (label: &'static str)
    ensures
        label@ == kind_text(kind),
{
    match kind {
        MatchKind::Exact => "exact",
        MatchKind::Superset => "superset",
        MatchKind::Overlap => "overlap",
    }
}

/// A saved session that may be meant.
#[derive(Debug)]
pub struct SessionMatch {
    pub session: Session,
    pub kind: MatchKind,
}

/// What the user chose at startup.
#[derive(Debug)]
pub enum StartupChoice {
    /// go on with this session
    ResumeSavedSession(Session),
    /// begin a session and keep it on disk
    NewSavedSession,
    /// begin a session that is never written
    NewTransientSession,
    /// leave
    Quit,
}

/// What a [`StartupChoice`] says.
#[verifier::ext_equal]
pub enum ChoiceView {
    ResumeSavedSession(SessionView),
    NewSavedSession,
    NewTransientSession,
    Quit,
}

impl View for StartupChoice {
    type V = ChoiceView;

    open spec fn view(&self) -> ChoiceView {
        match self {
            StartupChoice::ResumeSavedSession(session) => ChoiceView::ResumeSavedSession(session@),
            StartupChoice::NewSavedSession => ChoiceView::NewSavedSession,
            StartupChoice::NewTransientSession => ChoiceView::NewTransientSession,
            StartupChoice::Quit => ChoiceView::Quit,
        }
    }
}

/// The startup dialog: a row per saved session that may be meant, then one
/// for a new saved session and one for a transient one.
#[derive(Debug)]
pub struct StartupDialog {
    pub matches: Vec<SessionMatch>,
    /// the highlighted row
    pub selected: usize,
}

/// What a [`StartupDialog`] shows.
#[verifier::ext_equal]
pub struct StartupView {
    pub matches: Seq<(SessionView, MatchKind)>,
    pub selected: usize,
}

/// The views of session matches.
pub open spec fn match_views(matches: Seq<SessionMatch>) -> Seq<(SessionView, MatchKind)> {
    matches.map_values(|m: SessionMatch| (m.session@, m.kind))
}

impl View for StartupDialog {
    type V = StartupView;

    open spec fn view(&self) -> StartupView {
        StartupView { matches: match_views(self.matches@), selected: self.selected }
    }
}

/// Outcome of one key.
#[derive(Debug)]
pub enum StartupDialogStep {
    /// the dialog goes on
    Continue(StartupDialog),
    /// the user has chosen
    Done(StartupChoice),
}

/// What a [`StartupDialogStep`] says.
#[verifier::ext_equal]
pub enum StepView {
    Continue(StartupView),
    Done(ChoiceView),
}

impl View for StartupDialogStep {
    type V = StepView;

    open spec fn view(&self) -> StepView {
        match self {
            StartupDialogStep::Continue(dialog) => StepView::Continue(dialog@),
            StartupDialogStep::Done(choice) => StepView::Done(choice@),
        }
    }
}

/// The row that a digit key jumps to, counting from one.
pub open spec fn row_of_digit(c: char) -> Option<int> {
    if c == '1' {
        Some(0)
    } else if c == '2' {
        Some(1)
    } else if c == '3' {
        Some(2)
    } else if c == '4' {
        Some(3)
    } else if c == '5' {
        Some(4)
    } else if c == '6' {
        Some(5)
    } else if c == '7' {
        Some(6)
    } else if c == '8' {
        Some(7)
    } else if c == '9' {
        Some(8)
    } else {
        None
    }
}

fn digit_row(c: char) -> (row: Option<usize>)
    ensures
        match row {
            Some(row) => row_of_digit(c) == Some(row as int),
            None => row_of_digit(c) is None,
        },
{
    if c == '1' {
        Some(0)
    } else if c == '2' {
        Some(1)
    } else if c == '3' {
        Some(2)
    } else if c == '4' {
        Some(3)
    } else if c == '5' {
        Some(4)
    } else if c == '6' {
        Some(5)
    } else if c == '7' {
        Some(6)
    } else if c == '8' {
        Some(7)
    } else if c == '9' {
        Some(8)
    } else {
        None
    }
}

impl StartupView {
    /// The number of rows.
    pub open spec fn rows(self) -> int {
        (self.matches.len() + 2) as int
    }

    /// A row is highlighted, and rows can be counted.
    pub open spec fn wf(self) -> bool {
        self.selected < self.rows() <= usize::MAX
    }

    /// What the highlighted row stands for.
    pub open spec fn choice(self) -> ChoiceView {
        if self.selected < self.matches.len() {
            ChoiceView::ResumeSavedSession(self.matches[self.selected as int].0)
        } else if self.selected == self.matches.len() {
            ChoiceView::NewSavedSession
        } else {
            ChoiceView::NewTransientSession
        }
    }

    /// One row up; the first stays.
    pub open spec fn up(self) -> StartupView {
        StartupView {
            selected: if self.selected > 0 {
                (self.selected - 1) as usize
            } else {
                0
            },
            ..self
        }
    }

    /// One row down; the last stays.
    pub open spec fn down(self) -> StartupView {
        StartupView {
            selected: if self.selected + 1 < self.rows() {
                (self.selected + 1) as usize
            } else {
                self.selected
            },
            ..self
        }
    }

    /// After a key.
    pub open spec fn pressed(self, key: KeyEvent) -> StepView {
        if key.code == KeyCode::Esc || (key.code == KeyCode::Char('c') && key.modifiers.control) {
            StepView::Done(ChoiceView::Quit)
        } else if key.code == KeyCode::Enter {
            StepView::Done(self.choice())
        } else if key.code == KeyCode::Char('j') || key.code == KeyCode::Down {
            StepView::Continue(self.down())
        } else if key.code == KeyCode::Char('k') || key.code == KeyCode::Up {
            StepView::Continue(self.up())
        } else if key.code is Char && row_of_digit(key.code->Char_0) is Some && row_of_digit(
            key.code->Char_0,
        )->Some_0 < self.matches.len() {
            StepView::Continue(
                StartupView {
                    selected: row_of_digit(key.code->Char_0)->Some_0 as usize,
                    ..self
                },
            )
        } else {
            StepView::Continue(self)
        }
    }
}

impl StartupDialog {
    /// The dialog over the given candidates, with the first row highlighted.
    pub fn new(matches: Vec<SessionMatch>) -> (dialog: Self)
        requires
            matches@.len() + 2 <= usize::MAX,
        ensures
            dialog@ == (StartupView { matches: match_views(matches@), selected: 0 }),
            dialog.matches == matches,
            dialog@.wf(),
    {
        StartupDialog { matches, selected: 0 }
    }

    /// The number of rows.
    pub fn rows(&self) -> (rows: usize)
        requires
            self@.wf(),
        ensures
            rows == self@.rows(),
    {
        self.matches.len() + 2
    }

    /// The row for a new saved session.
    pub fn new_saved_idx(&self) -> (row: usize)
        ensures
            row == self@.matches.len(),
    {
        self.matches.len()
    }

    /// The row for a new transient session.
    pub fn new_transient_idx(&self) -> (row: usize)
        requires
            self@.wf(),
        ensures
            row == self@.matches.len() + 1,
    {
        self.matches.len() + 1
    }

    /// What the highlighted row stands for: its own session, where it has one.
    pub fn confirm(self) -> (choice: StartupChoice)
        ensures
            choice@ == self@.choice(),
            choice matches StartupChoice::ResumeSavedSession(session) ==> session
                == self.matches@[self.selected as int].session,
    {
        let selected: usize = self.selected;
        let mut matches = self.matches;
        let count: usize = matches.len();
        if selected < count {
            let found = matches.remove(selected);
            StartupChoice::ResumeSavedSession(found.session)
        } else if selected == count {
            StartupChoice::NewSavedSession
        } else {
            StartupChoice::NewTransientSession
        }
    }

    /// Moves the highlight up.
    pub fn move_up(&mut self)
        ensures
            final(self)@ == old(self)@.up(),
            final(self).matches == old(self).matches,
            old(self)@.wf() ==> final(self)@.wf(),
    {
        if self.selected > 0 {
            self.selected = self.selected - 1;
        }
    }

    /// Moves the highlight down.
    pub fn move_down(&mut self)
        requires
            old(self)@.wf(),
        ensures
            final(self)@ == old(self)@.down(),
            final(self).matches == old(self).matches,
            final(self)@.wf(),
    {
        let last: usize = self.rows() - 1;
        if self.selected < last {
            self.selected = self.selected + 1;
        }
    }

    /// Routes a key.
    pub fn handle_key(self, key: KeyEvent) -> (step: StartupDialogStep)
        requires
            self@.wf(),
        ensures
            step@ == self@.pressed(key),
            step matches StartupDialogStep::Continue(dialog) ==> dialog@.wf() && dialog.matches
                == self.matches,
            step matches StartupDialogStep::Done(
                StartupChoice::ResumeSavedSession(session),
            ) ==> session == self.matches@[self.selected as int].session,
    {
        let mut dialog = self;
        match key.code {
            KeyCode::Esc => StartupDialogStep::Done(StartupChoice::Quit),
            KeyCode::Enter => StartupDialogStep::Done(dialog.confirm()),
            KeyCode::Down => {
                dialog.move_down();
                StartupDialogStep::Continue(dialog)
            },
            KeyCode::Up => {
                dialog.move_up();
                StartupDialogStep::Continue(dialog)
            },
            KeyCode::Char(c) => {
                if c == 'c' && key.modifiers.control {
                    return StartupDialogStep::Done(StartupChoice::Quit);
                }
                if c == 'j' {
                    dialog.move_down();
                } else if c == 'k' {
                    dialog.move_up();
                } else if let Some(row) = digit_row(c) {
                    if row < dialog.matches.len() {
                        dialog.selected = row;
                    }
                }
                StartupDialogStep::Continue(dialog)
            },
            _ => StartupDialogStep::Continue(dialog),
        }
    }
}

/// Moving stays within the rows: at the ends nothing moves, and elsewhere up
/// and down undo each other.
pub proof fn law_startup_navigation_clamps(dialog: StartupView)
    requires
        dialog.wf(),
    ensures
        dialog.up().wf(),
        dialog.down().wf(),
        dialog.selected == 0 ==> dialog.up() == dialog,
        dialog.selected == dialog.rows() - 1 ==> dialog.down() == dialog,
        dialog.selected > 0 ==> dialog.up().down() == dialog,
        dialog.selected < dialog.rows() - 1 ==> dialog.down().up() == dialog,
{
}

/// The views of sessions.
pub open spec fn session_views(sessions: Seq<Session>) -> Seq<SessionView> {
    sessions.map_values(|s: Session| s@)
}

/// The head of the table of sessions.
pub open spec fn table_head() -> Seq<char> {
    "ID        LAST SAVED (UTC)     STREAMS  SOURCES  FIRST SOURCE\n"@
}

/// The path of the first source, cut to what the table shows of it.
pub open spec fn first_source(session: SessionView) -> Seq<char> {
    head_truncated(
        if session.sources.len() > 0 {
            session.sources[0].path
        } else {
            "(none)"@
        },
        60,
    )
}

/// A session's row in the table.
pub open spec fn table_row(session: SessionView) -> Seq<char> {
    hex(session.id as nat, 8) + "  "@ + session.last_saved_at.date_and_second() + "  "@
        + right_aligned(decimal(session.streams.dom().len()), 7) + "  "@ + right_aligned(
        decimal(session.sources.len()),
        7,
    ) + "  "@ + first_source(session) + "\n"@
}

/// The rows of the table.
pub open spec fn table_rows(sessions: Seq<SessionView>) -> Seq<char>
    decreases sessions.len(),
{
    if sessions.len() == 0 {
        Seq::empty()
    } else {
        table_rows(sessions.drop_last()) + table_row(sessions.last())
    }
}

/// The table of saved sessions.
pub open spec fn session_table(sessions: Seq<SessionView>) -> Seq<char> {
    if sessions.len() == 0 {
        "(no saved sessions)\n"@
    } else {
        table_head() + table_rows(sessions)
    }
}

fn push_row(out: &mut String, session: &Session)
    ensures
        final(out)@ == old(out)@ + table_row(session@),
{
    let id = session.id.to_text();
    out.append(id.as_str());
    out.append("  ");
    let time = session.last_saved_at.to_second_text();
    out.append(time.as_str());
    out.append("  ");
    let streams = decimal_text(stream_count(&session.streams) as u64);
    push_right_aligned(out, streams.as_str(), 7);
    out.append("  ");
    let list = list_sources(&session.sources);
    assert(list@.len() == session@.sources.len());
    let count = decimal_text(list.len() as u64);
    push_right_aligned(out, count.as_str(), 7);
    out.append("  ");
    let first = if list.len() > 0 {
        assert(list@.map_values(|s: &SessionSource| s@)[0] == list@[0]@);
        truncate_path_head(list[0].path.as_str(), 60)
    } else {
        truncate_path_head("(none)", 60)
    };
    out.append(first.as_str());
    out.append("\n");
    assert(out@ =~= old(out)@ + table_row(session@));
}

/// The table of saved sessions: a head and a row each, or a line saying that
/// there are none.
pub fn format_session_list(sessions: &Vec<Session>) -> (out: String)
    ensures
        out@ == session_table(session_views(sessions@)),
{
    if sessions.len() == 0 {
        return "(no saved sessions)\n".to_owned();
    }
    let ghost all = session_views(sessions@);
    let mut out =
        "ID        LAST SAVED (UTC)     STREAMS  SOURCES  FIRST SOURCE\n".to_owned();
    let mut i: usize = 0;
    assert(out@ =~= table_head() + table_rows(all.take(0)));
    while i < sessions.len()
        invariant
            i <= sessions@.len(),
            all == session_views(sessions@),
            out@ == table_head() + table_rows(all.take(i as int)),
        decreases sessions@.len() - i,
    {
        let ghost before = out@;
        assert(all[i as int] == sessions@[i as int]@);
        assert(all.take(i + 1).drop_last() =~= all.take(i as int));
        push_row(&mut out, &sessions[i]);
        assert(out@ =~= table_head() + table_rows(all.take(i + 1)));
        i = i + 1;
    }
    assert(all.take(i as int) =~= all);
    out
}

/// Where a session saved at `time` goes among sessions ordered newest first:
/// behind those saved no earlier.
pub open spec fn place_of(sessions: Seq<SessionView>, time: Timestamp, end: int) -> int
    decreases end,
{
    if end <= 0 {
        0
    } else if sessions[end - 1].last_saved_at.earlier(time) {
        place_of(sessions, time, end - 1)
    } else {
        end
    }
}

/// The sessions, newest first; those saved at the same time keep their
/// order.
pub open spec fn newest_first(sessions: Seq<SessionView>) -> Seq<SessionView>
    decreases sessions.len(),
{
    if sessions.len() == 0 {
        Seq::empty()
    } else {
        let before = newest_first(sessions.drop_last());
        let last = sessions.last();
        before.insert(place_of(before, last.last_saved_at, before.len() as int), last)
    }
}

/// Orders sessions newest first.
pub fn sort_newest_first(sessions: Vec<Session>) -> (sorted: Vec<Session>)
    ensures
        session_views(sorted@) == newest_first(session_views(sessions@)),
{
    let ghost all = session_views(sessions@);
    let mut sorted: Vec<Session> = Vec::new();
    assert(session_views(sorted@) =~= newest_first(all.take(0)));
    for session in it: sessions
        invariant
            it.seq() == sessions@,
            all == session_views(sessions@),
            session_views(sorted@) == newest_first(all.take(it.index() as int)),
    {
        let ghost i = it.index() as int;
        let ghost before = session_views(sorted@);
        let mut at: usize = sorted.len();
        while at > 0 && sorted[at - 1].last_saved_at.is_before(session.last_saved_at)
            invariant
                at <= sorted@.len(),
                before == session_views(sorted@),
                place_of(before, session@.last_saved_at, before.len() as int) == place_of(
                    before,
                    session@.last_saved_at,
                    at as int,
                ),
            decreases at,
        {
            assert(before[at - 1] == sorted@[at - 1]@);
            at = at - 1;
        }
        proof {
            if at > 0 {
                assert(before[at - 1] == sorted@[at - 1]@);
            }
            assert(all[i] == session@);
            assert(all.take(i + 1).drop_last() =~= all.take(i));
        }
        sorted.insert(at, session);
        assert(session_views(sorted@) =~= before.insert(at as int, session@));
    }
    assert(all.take(all.len() as int) =~= all);
    sorted
}

/// Whether the sessions come newest first.
pub open spec fn in_newest_order(sessions: Seq<SessionView>) -> bool {
    forall|i: int, j: int|
        0 <= i < j < sessions.len() ==> !(#[trigger] sessions[i]).last_saved_at.earlier(
            (#[trigger] sessions[j]).last_saved_at,
        )
}

/// Ordering sessions loses none, adds none, and puts the newest first.
pub proof fn law_sessions_come_newest_first(sessions: Seq<SessionView>)
    ensures
        in_newest_order(newest_first(sessions)),
        newest_first(sessions).to_multiset() == sessions.to_multiset(),
    decreases sessions.len(),
{
    broadcast use vstd::seq_lib::group_to_multiset_ensures;

    if sessions.len() == 0 {
        assert(newest_first(sessions) =~= sessions);
    } else {
        let rest = sessions.drop_last();
        let last = sessions.last();
        law_sessions_come_newest_first(rest);
        let before = newest_first(rest);
        let at = place_of(before, last.last_saved_at, before.len() as int);
        lemma_place(before, last.last_saved_at, before.len() as int);
        let after = before.insert(at, last);
        assert forall|i: int, j: int| 0 <= i < j < after.len() implies !(
        #[trigger] after[i]).last_saved_at.earlier((#[trigger] after[j]).last_saved_at) by {
            if i < at && j < at {
                assert(after[i] == before[i] && after[j] == before[j]);
            } else if i < at && j == at {
                assert(after[i] == before[i]);
            } else if i < at {
                assert(after[i] == before[i] && after[j] == before[j - 1]);
            } else if i == at {
                assert(after[j] == before[j - 1]);
            } else {
                assert(after[i] == before[i - 1] && after[j] == before[j - 1]);
            }
        }
        assert(after.remove(at) =~= before);
        assert(after.to_multiset().remove(last) =~= before.to_multiset());
        assert(after.contains(last)) by {
            assert(after[at] == last);
        }
        assert(after.to_multiset() =~= before.to_multiset().insert(last));
        assert(sessions =~= rest.push(last));
        assert(sessions.to_multiset() =~= rest.to_multiset().insert(last));
    }
}

proof fn lemma_place(sessions: Seq<SessionView>, time: Timestamp, end: int)
    requires
        in_newest_order(sessions),
        0 <= end <= sessions.len(),
        forall|k: int|
            end <= k < sessions.len() ==> (#[trigger] sessions[k]).last_saved_at.earlier(time),
    ensures
        0 <= place_of(sessions, time, end) <= end,
        forall|k: int|
            0 <= k < place_of(sessions, time, end) ==> !(
            #[trigger] sessions[k]).last_saved_at.earlier(time),
        forall|k: int|
            place_of(sessions, time, end) <= k < sessions.len() ==> (
            #[trigger] sessions[k]).last_saved_at.earlier(time),
    decreases end,
{
    if end > 0 {
        if sessions[end - 1].last_saved_at.earlier(time) {
            lemma_place(sessions, time, end - 1);
        } else {
            assert forall|k: int| 0 <= k < end implies !(
            #[trigger] sessions[k]).last_saved_at.earlier(time) by {
                if k < end - 1 {
                    assert(!sessions[k].last_saved_at.earlier(sessions[end - 1].last_saved_at));
                }
            }
        }
    }
}

/// The paths of the sources that are not there, in order.
pub open spec fn missing_paths(paths: Seq<Seq<char>>, there: Seq<bool>) -> Seq<Seq<char>>
    decreases paths.len(),
{
    if paths.len() == 0 {
        Seq::empty()
    } else {
        let before = missing_paths(paths.drop_last(), there);
        if there[paths.len() - 1] {
            before
        } else {
            before.push(paths.last())
        }
    }
}

/// The texts with a comma between two.
pub open spec fn comma_joined(texts: Seq<Seq<char>>) -> Seq<char>
    decreases texts.len(),
{
    if texts.len() == 0 {
        Seq::empty()
    } else if texts.len() == 1 {
        texts[0]
    } else {
        comma_joined(texts.drop_last()) + ", "@ + texts.last()
    }
}

/// Why a session cannot be resumed: sources that are not there.
pub open spec fn resume_error(session: SessionView, there: Seq<bool>) -> Option<Seq<char>> {
    let missing = missing_paths(paths_of(session.sources), there);
    if missing.len() == 0 {
        None
    } else {
        Some(
            "cannot resume session "@ + hex(session.id as nat, 8) + ": missing source files: "@
                + comma_joined(missing),
        )
    }
}

/// Says why a session cannot be resumed, given which of its sources are
/// there.  All that are missing are named at once.
pub fn check_resumable(session: &Session, there: &Vec<bool>) -> (error: Option<String>)
    requires
        there@.len() == session@.sources.len(),
    ensures
        crate::dialog::text_view(error) == resume_error(session@, there@),
{
    let list = list_sources(&session.sources);
    let ghost paths = paths_of(session@.sources);
    assert(list@.len() == session@.sources.len());
    assert(paths =~= list@.map_values(|s: &SessionSource| s.path@)) by {
        assert(session@.sources == list@.map_values(|s: &SessionSource| s@));
    }
    let mut names = String::new();
    let mut any = false;
    let mut i: usize = 0;
    assert(missing_paths(paths.take(0), there@) =~= Seq::empty());
    while i < list.len()
        invariant
            i <= list@.len(),
            list@.len() == paths.len() == there@.len(),
            paths == list@.map_values(|s: &SessionSource| s.path@),
            any == (missing_paths(paths.take(i as int), there@).len() > 0),
            names@ == comma_joined(missing_paths(paths.take(i as int), there@)),
        decreases list@.len() - i,
    {
        let ghost missing = missing_paths(paths.take(i as int), there@);
        assert(paths[i as int] == list@[i as int].path@);
        assert(paths.take(i + 1).drop_last() =~= paths.take(i as int));
        assert(paths.take(i + 1).last() == paths[i as int]);
        if !there[i] {
            if any {
                names.append(", ");
            }
            names.append(list[i].path.as_str());
            any = true;
            proof {
                let more = missing.push(paths[i as int]);
                assert(more.drop_last() =~= missing);
                assert(names@ =~= comma_joined(more));
            }
        }
        i = i + 1;
    }
    assert(paths.take(i as int) =~= paths);
    if !any {
        return None;
    }
    let mut error = "cannot resume session ".to_owned();
    let id = session.id.to_text();
    error.append(id.as_str());
    error.append(": missing source files: ");
    error.append(names.as_str());
    Some(error)
}

/// A session can be resumed exactly where all its sources are there.
pub proof fn law_resumable_when_all_sources_are_there(session: SessionView, there: Seq<bool>)
    requires
        there.len() == session.sources.len(),
    ensures
        resume_error(session, there) is None <==> forall|i: int|
            0 <= i < there.len() ==> #[trigger] there[i],
{
    lemma_none_missing(paths_of(session.sources), there);
}

proof fn lemma_none_missing(paths: Seq<Seq<char>>, there: Seq<bool>)
    requires
        paths.len() <= there.len(),
    ensures
        missing_paths(paths, there).len() == 0 <==> forall|i: int|
            0 <= i < paths.len() ==> #[trigger] there[i],
    decreases paths.len(),
{
    if paths.len() > 0 {
        lemma_none_missing(paths.drop_last(), there);
    }
}

/// What is printed when the program ends: errors, then messages.
pub struct ExitReport {
    pub errors: Vec<String>,
    pub messages: Vec<String>,
}

/// The lines printed when the program ends, as errors and as messages.
/// Nothing is said of a transient session.
pub open spec fn exit_lines(
    id: SessionId,
    transient: bool,
    resumed: bool,
    save_error: Option<Seq<char>>,
) -> (Seq<Seq<char>>, Seq<Seq<char>>) {
    let shown = hex(id.0 as nat, 8);
    if transient {
        (Seq::empty(), Seq::empty())
    } else if save_error is Some {
        (
            seq![
                "seer: final session save failed: "@ + save_error->Some_0,
                "session id: "@ + shown + " (state on disk may be partial)"@,
            ],
            Seq::empty(),
        )
    } else if resumed {
        (
            Seq::empty(),
            seq!["session continued.  resume again with: seer --resume "@ + shown],
        )
    } else {
        (Seq::empty(), seq!["session saved.  resume with: seer --resume "@ + shown])
    }
}

/// What to print when the program ends.
pub fn report_exit(
    id: SessionId,
    transient: bool,
    resumed: bool,
    save_error: Option<String>,
) -> (report: ExitReport)
    ensures
        (crate::text::views(report.errors@), crate::text::views(report.messages@)) == exit_lines(
            id,
            transient,
            resumed,
            crate::dialog::text_view(save_error),
        ),
{
    let mut errors: Vec<String> = Vec::new();
    let mut messages: Vec<String> = Vec::new();
    let shown = id.to_text();
    if transient {
    } else if let Some(error) = &save_error {
        let mut first = "seer: final session save failed: ".to_owned();
        first.append(error.as_str());
        errors.push(first);
        let mut second = "session id: ".to_owned();
        second.append(shown.as_str());
        second.append(" (state on disk may be partial)");
        errors.push(second);
    } else if resumed {
        let mut line = "session continued.  resume again with: seer --resume ".to_owned();
        line.append(shown.as_str());
        messages.push(line);
    } else {
        let mut line = "session saved.  resume with: seer --resume ".to_owned();
        line.append(shown.as_str());
        messages.push(line);
    }
    proof {
        let lines = exit_lines(id, transient, resumed, crate::dialog::text_view(save_error));
        assert(crate::text::views(errors@) =~= lines.0);
        assert(crate::text::views(messages@) =~= lines.1);
    }
    ExitReport { errors, messages }
}

/// The keys of the startup dialog: Esc, and Control with `c`, quit; Enter
/// chooses the row on which the selection stands; `j` and `k` move it by one;
/// a digit goes to the session of that number.
pub proof fn law_startup_keys_do_what_they_stand_for(dialog: StartupView, key: KeyEvent, n: int)
    requires
        dialog.wf(),
        !(key.code == KeyCode::Char('c') && key.modifiers.control),
        1 <= n <= 9,
    ensures
        key.code == KeyCode::Esc ==> dialog.pressed(key) == StepView::Done(ChoiceView::Quit),
        key.code == KeyCode::Enter && dialog.selected < dialog.matches.len() ==> dialog.pressed(key)
            == StepView::Done(
            ChoiceView::ResumeSavedSession(dialog.matches[dialog.selected as int].0),
        ),
        key.code == KeyCode::Enter && dialog.selected == dialog.matches.len() ==> dialog.pressed(
            key,
        ) == StepView::Done(ChoiceView::NewSavedSession),
        key.code == KeyCode::Enter && dialog.selected == dialog.matches.len() + 1
            ==> dialog.pressed(key) == StepView::Done(ChoiceView::NewTransientSession),
        key.code == KeyCode::Char('j') || key.code == KeyCode::Down ==> (dialog.pressed(
            key,
        ) matches StepView::Continue(after) && after.matches == dialog.matches && after.selected
            == if dialog.selected < dialog.matches.len() + 1 {
            dialog.selected + 1
        } else {
            dialog.selected as int
        }),
        key.code == KeyCode::Char('k') || key.code == KeyCode::Up ==> (dialog.pressed(
            key,
        ) matches StepView::Continue(after) && after.matches == dialog.matches && after.selected
            == if dialog.selected > 0 {
            dialog.selected - 1
        } else {
            0
        }),
        key.code == KeyCode::Char(('0' as int + n) as char) && n <= dialog.matches.len() ==> (
        dialog.pressed(key) matches StepView::Continue(after) && after.matches == dialog.matches
            && after.selected == n - 1),
        key.code == KeyCode::Char(('0' as int + n) as char) && n > dialog.matches.len()
            ==> dialog.pressed(key) == StepView::Continue(dialog),
{
}

/// Control with `c` quits.
pub proof fn law_control_c_quits_at_startup(dialog: StartupView, key: KeyEvent)
    requires
        key.code == KeyCode::Char('c'),
        key.modifiers.control,
    ensures
        dialog.pressed(key) == StepView::Done(ChoiceView::Quit),
{
}

/// Sessions are listed by the instant of their last save, the latest first.
pub proof fn law_sessions_are_listed_by_last_save(sessions: Seq<SessionView>, i: int, j: int)
    requires
        0 <= i < j < newest_first(sessions).len(),
        newest_first(sessions)[i].last_saved_at.nanos < 1_000_000_000,
        newest_first(sessions)[j].last_saved_at.nanos < 1_000_000_000,
    ensures
        ({
            let (s, t) = (
                newest_first(sessions)[i].last_saved_at,
                newest_first(sessions)[j].last_saved_at,
            );
            s.secs * 1_000_000_000 + s.nanos >= t.secs * 1_000_000_000 + t.nanos
        }),
        newest_first(sessions).len() == sessions.len(),
        forall|s: SessionView| #[trigger]
            newest_first(sessions).contains(s) <==> sessions.contains(s),
{
    broadcast use vstd::seq_lib::group_to_multiset_ensures;

    law_sessions_come_newest_first(sessions);
    let listed = newest_first(sessions);
    assert(!listed[i].last_saved_at.earlier(listed[j].last_saved_at));
    assert(listed.to_multiset().len() == listed.len());
    assert(sessions.to_multiset().len() == sessions.len());
    assert forall|s: SessionView| #[trigger] listed.contains(s) <==> sessions.contains(s) by {
        assert(listed.contains(s) <==> listed.to_multiset().count(s) > 0);
        assert(sessions.contains(s) <==> sessions.to_multiset().count(s) > 0);
    }
}

/// The paths that are told to be missing are those of the sources that are not
/// there.
pub proof fn law_missing_paths_are_those_not_there(
    paths: Seq<Seq<char>>,
    there: Seq<bool>,
    path: Seq<char>,
)
    requires
        paths.len() <= there.len(),
    ensures
        missing_paths(paths, there).contains(path) <==> exists|i: int|
            0 <= i < paths.len() && #[trigger] paths[i] == path && !there[i],
    decreases paths.len(),
{
    if paths.len() > 0 {
        let shorter = paths.drop_last();
        law_missing_paths_are_those_not_there(shorter, there, path);
        let before = missing_paths(shorter, there);
        let missing = missing_paths(paths, there);
        let n = paths.len() - 1;
        if missing.contains(path) {
            let k = choose|k: int| 0 <= k < missing.len() && missing[k] == path;
            if k < before.len() {
                assert(before[k] == path);
                let i = choose|i: int|
                    0 <= i < shorter.len() && #[trigger] shorter[i] == path && !there[i];
                assert(paths[i] == path);
            } else {
                assert(paths[n] == path && !there[n]);
            }
        }
        if exists|i: int| 0 <= i < paths.len() && #[trigger] paths[i] == path && !there[i] {
            let i = choose|i: int| 0 <= i < paths.len() && #[trigger] paths[i] == path && !there[i];
            if i < n {
                assert(shorter[i] == path);
                let k = choose|k: int| 0 <= k < before.len() && before[k] == path;
                assert(missing[k] == path);
            } else {
                assert(missing[before.len() as int] == path);
            }
        }
    }
}

/// A session that cannot be resumed is told by its id, with the missing files.
pub proof fn law_resuming_tells_what_is_missing(session: SessionView, there: Seq<bool>, i: int)
    requires
        there.len() == session.sources.len(),
        0 <= i < there.len(),
        !there[i],
        forall|k: int| 0 <= k < there.len() && k != i ==> #[trigger] there[k],
    ensures
        resume_error(session, there) == Some(
            "cannot resume session "@ + hex(session.id as nat, 8) + ": missing source files: "@
                + session.sources[i].path,
        ),
{
    lemma_one_missing(paths_of(session.sources), there, i, there.len() as int);
    let paths = paths_of(session.sources);
    assert(paths.take(there.len() as int) =~= paths);
}

proof fn lemma_one_missing(paths: Seq<Seq<char>>, there: Seq<bool>, i: int, end: int)
    requires
        paths.len() == there.len(),
        0 <= i < there.len(),
        !there[i],
        forall|k: int| 0 <= k < there.len() && k != i ==> #[trigger] there[k],
        0 <= end <= paths.len(),
    ensures
        end <= i ==> missing_paths(paths.take(end), there).len() == 0,
        end > i ==> missing_paths(paths.take(end), there) == seq![paths[i]],
    decreases end,
{
    if end > 0 {
        lemma_one_missing(paths, there, i, end - 1);
        assert(paths.take(end).drop_last() =~= paths.take(end - 1));
        assert(paths.take(end).last() == paths[end - 1]);
        if end - 1 != i {
            assert(there[end - 1]);
        } else {
            assert(missing_paths(paths.take(end), there) =~= seq![paths[i]]);
        }
    }
}

/// What is printed in the end: nothing of a transient session, an error where
/// the last save failed, and else how to resume.
pub proof fn law_exit_tells_how_to_resume(
    id: SessionId,
    resumed: bool,
    save_error: Option<Seq<char>>,
)
    ensures
        ({
            let shown = hex(id.0 as nat, 8);
            let (errors, messages) = exit_lines(id, false, resumed, save_error);
            &&& exit_lines(id, true, resumed, save_error).0.len() == 0
            &&& exit_lines(id, true, resumed, save_error).1.len() == 0
            &&& save_error matches Some(error) ==> messages.len() == 0 && errors.len() == 2
                && errors[0] == "seer: final session save failed: "@ + error && errors[1]
                == "session id: "@ + shown + " (state on disk may be partial)"@
            &&& save_error is None && resumed ==> errors.len() == 0 && messages == seq![
                "session continued.  resume again with: seer --resume "@ + shown,
            ]
            &&& save_error is None && !resumed ==> errors.len() == 0 && messages == seq![
                "session saved.  resume with: seer --resume "@ + shown,
            ]
        }),
{
}

/// The table of sessions has a row for each, in their order: its id, its last
/// save, how many streams and sources it has, and its first source.
pub proof fn law_table_has_a_row_for_each_session(
    sessions: Seq<SessionView>,
    session: SessionView,
)
    requires
        session.sources.len() > 0,
    ensures
        table_rows(sessions.push(session)) == table_rows(sessions) + (hex(session.id as nat, 8)
            + "  "@ + session.last_saved_at.date_and_second() + "  "@ + right_aligned(
            decimal(session.streams.dom().len()),
            7,
        ) + "  "@ + right_aligned(decimal(session.sources.len()), 7) + "  "@ + head_truncated(
            session.sources[0].path,
            60,
        ) + "\n"@),
        session_table(sessions.push(session)) == table_head() + table_rows(sessions.push(session)),
        session_table(Seq::empty()) == "(no saved sessions)\n"@,
{
    assert(sessions.push(session).drop_last() =~= sessions);
}

/// Sessions that were saved at once keep the order in which they came: a
/// further one is listed behind all that were not saved before it.
pub proof fn law_sessions_saved_at_once_keep_their_order(
    sessions: Seq<SessionView>,
    session: SessionView,
)
    ensures
        exists|at: int|
            {
                &&& 0 <= at <= newest_first(sessions).len()
                &&& newest_first(sessions.push(session)) == #[trigger] newest_first(
                    sessions,
                ).insert(at, session)
                &&& forall|k: int|
                    0 <= k < at ==> !(#[trigger] newest_first(
                        sessions,
                    )[k]).last_saved_at.earlier(session.last_saved_at)
                &&& forall|k: int|
                    at <= k < newest_first(sessions).len() ==> (#[trigger] newest_first(
                        sessions,
                    )[k]).last_saved_at.earlier(session.last_saved_at)
            },
{
    let before = newest_first(sessions);
    assert(sessions.push(session).drop_last() =~= sessions);
    law_sessions_come_newest_first(sessions);
    lemma_place(before, session.last_saved_at, before.len() as int);
    let at = place_of(before, session.last_saved_at, before.len() as int);
    assert(newest_first(sessions.push(session)) == before.insert(at, session));
}

/// Missing files are told in the order of the sources, with commas between.
pub proof fn law_missing_files_are_told_in_order(
    paths: Seq<Seq<char>>,
    path: Seq<char>,
    there: Seq<bool>,
    texts: Seq<Seq<char>>,
    text: Seq<char>,
)
    ensures
        there[paths.len() as int] ==> missing_paths(paths.push(path), there) == missing_paths(
            paths,
            there,
        ),
        !there[paths.len() as int] ==> missing_paths(paths.push(path), there) == missing_paths(
            paths,
            there,
        ).push(path),
        texts.len() > 0 ==> comma_joined(texts.push(text)) == comma_joined(texts) + ", "@ + text,
        comma_joined(seq![text]) == text,
{
    assert(paths.push(path).drop_last() =~= paths);
    assert(texts.push(text).drop_last() =~= texts);
}

} // verus!
