//! The keymaps.

use super::{Answers, App, AppView, Fresh};
use crate::command::{CommandView, Selector, SelectorView};
use crate::command::Command;
use crate::dialog::{preview, preview_msg, showing, Dialog, DialogResult, DialogView};
use crate::filter::{parsed_view, reads_as, writes_as, FilterSyntax, Parsed, PredicateView};
use crate::key::{KeyCode, KeyEvent, KeyEventKind};
use crate::search::SearchDirection;
use crate::session::{BookmarkId, TabKind};
use crate::source::Direction;
use crate::tab::{SelectionAction, TabView};
use crate::text::views;
use vstd::prelude::*;

verus! {

impl AppView {
    /// A key while the bookmarks are on show.
    pub open spec fn bookmarks_key(self, key: KeyEvent) -> AppView {
        if key.bare(KeyCode::Char('q')) {
            self.asking_user(DialogView::ConfirmQuit)
        } else if key.bare(KeyCode::Tab) {
            self.next_pane()
        } else if key.code == KeyCode::BackTab || key.shifted(KeyCode::Tab) {
            self.prev_pane()
        } else if key.bare(KeyCode::Char('j')) || key.bare(KeyCode::Down) {
            self.bookmark_cursor_moved(1)
        } else if key.bare(KeyCode::Char('k')) || key.bare(KeyCode::Up) {
            self.bookmark_cursor_moved(-1)
        } else if key.plain(KeyCode::Char('Y')) {
            let placed = if self.bookmark_cursor_idx() is None {
                self.bookmark_cursor_moved(0)
            } else {
                self
            };
            placed.bookmark_reproduction_asked()
        } else if key.bare(KeyCode::Enter) {
            self.bookmark_visited()
        } else if key.bare(KeyCode::Char('x')) {
            self.bookmark_deletion_asked()
        } else if key.bare(KeyCode::Char('h')) {
            self.asking_user(DialogView::Help { scroll: 0 })
        } else {
            self
        }
    }

    /// Asking for the command that reproduces the highlighted bookmark.
    pub open spec fn bookmark_reproduction_asked(self) -> AppView {
        match self.bookmark_cursor_idx() {
            Some(i) => self.reproduction_asked(
                SelectorView::Bookmark(BookmarkId(self.flat()[i].id).text()),
            ),
            None => self,
        }
    }

    /// Asking whether to delete the highlighted bookmark, under its name or
    /// else the start of its message.
    pub open spec fn bookmark_deletion_asked(self) -> AppView {
        match self.bookmark_cursor_idx() {
            Some(i) => {
                let bookmark = self.flat()[i];
                self.asking_user(
                    DialogView::ConfirmDeleteBookmark {
                        id: bookmark.id,
                        label: match bookmark.name {
                            Some(name) => "\""@ + name + "\""@,
                            None => preview(bookmark.draft.display_msg),
                        },
                    },
                )
            },
            None => self,
        }
    }

    /// A key while a record is being selected.
    pub open spec fn selection_key(self, key: KeyEvent) -> AppView {
        let tab = self.active_tab();
        if key.bare(KeyCode::Esc) {
            self.with_active(TabView { select: None, ..tab })
        } else if key.bare(KeyCode::Enter) {
            self.selection_committed()
        } else if key.bare(KeyCode::Char('j')) || key.bare(KeyCode::Down) {
            self.with_active(tab.selection_moved(1, self.viewport_height))
        } else if key.bare(KeyCode::Char('k')) || key.bare(KeyCode::Up) {
            self.with_active(tab.selection_moved(-1, self.viewport_height))
        } else {
            self
        }
    }

    /// Whether the key opens the filter dialog over the tab on show.
    pub open spec fn shows_filter(self, key: KeyEvent) -> bool {
        &&& key.kind == KeyEventKind::Press
        &&& self.dialog is None
        &&& self.active < self.tabs.len()
        &&& self.active_tab().select is None
        &&& key.bare(KeyCode::Char('f')) || key.control(KeyCode::Char('t'))
    }

    /// The text that a key makes an open dialog read as a filter.
    pub open spec fn text_asked(self, key: KeyEvent) -> Option<Seq<char>> {
        match self.dialog {
            Some(dialog) => if key.kind == KeyEventKind::Press {
                dialog.asks(key)
            } else {
                None
            },
            None => None,
        }
    }

    /// With the filter dialog open on the given text.
    pub open spec fn filter_asked(self, answers: Answers) -> AppView {
        self.asking_user(
            (DialogView::Filter {
                editor: showing(answers.shown),
                parse_error: None,
            }).with_filter_error(answers.parsed),
        )
    }

    /// With the search prompt open.
    pub open spec fn search_asked(self, direction: SearchDirection) -> AppView {
        self.asking_user(
            DialogView::Search {
                editor: showing(Seq::empty()),
                direction,
                parse_error: None,
                history: self.session.search_history,
                nav: None,
            },
        )
    }

    /// A key that moves through the tab on show.
    pub open spec fn motion_key(self, key: KeyEvent) -> Option<AppView> {
        let page = self.viewport_height as usize;
        if key.bare(KeyCode::Char('j')) || key.bare(KeyCode::Down) {
            Some(self.scrolled_down(1))
        } else if key.bare(KeyCode::Char('k')) || key.bare(KeyCode::Up) {
            Some(self.scrolled_up(1))
        } else if key.control(KeyCode::Char('d')) {
            Some(self.scrolled_down((page / 2) as usize))
        } else if key.bare(KeyCode::Char(' ')) {
            Some(self.scrolled_down(page))
        } else if key.control(KeyCode::Char('u')) {
            Some(self.scrolled_up((page / 2) as usize))
        } else if key.bare(KeyCode::Char('g')) || key.bare(KeyCode::Home) {
            Some(self.sought_start())
        } else if key.plain(KeyCode::Char('G')) || key.bare(KeyCode::End) {
            Some(self.sought_end())
        } else if key.plain(KeyCode::Char('>')) {
            Some(self.advanced(Direction::Forward))
        } else if key.plain(KeyCode::Char('<')) {
            Some(self.advanced(Direction::Backward))
        } else if key.bare(KeyCode::Char('n')) {
            match self.last_search {
                Some(last) => Some(self.search_stepped(last.direction)),
                None => Some(self),
            }
        } else if key.plain(KeyCode::Char('N')) {
            match self.last_search {
                Some(last) => Some(self.search_stepped(last.direction.turned())),
                None => Some(self),
            }
        } else {
            None
        }
    }

    /// A key that opens a dialog or starts a selection.
    pub open spec fn opening_key(self, key: KeyEvent) -> Option<AppView> {
        if key.bare(KeyCode::Char('q')) {
            Some(self.asking_user(DialogView::ConfirmQuit))
        } else if key.bare(KeyCode::Char('d')) {
            Some(
                self.asking_user(
                    DialogView::DisplayFields { draft: self.active_stream().opts, cursor: 0 },
                ),
            )
        } else if key.bare(KeyCode::Char('h')) {
            Some(self.asking_user(DialogView::Help { scroll: 0 }))
        } else if key.bare(KeyCode::Char('x')) {
            Some(self.selection_started(SelectionAction::Exclude))
        } else if key.plain(KeyCode::Char('X')) {
            Some(self.selection_started(SelectionAction::Include))
        } else if key.bare(KeyCode::Char('b')) {
            Some(self.selection_started(SelectionAction::Bookmark))
        } else if key.bare(KeyCode::Char('r')) {
            Some(
                self.asking_user(DialogView::Rename { editor: showing(self.active_tab().name) }),
            )
        } else if key.bare(KeyCode::Char('/')) {
            Some(self.search_asked(SearchDirection::Forward))
        } else if key.plain(KeyCode::Char('?')) {
            Some(self.search_asked(SearchDirection::Backward))
        } else {
            None
        }
    }

    /// Asking to stop what runs for the tab on show: a seek of its live view,
    /// or the computation of its summary.
    pub open spec fn interrupted(self) -> AppView {
        if self.active_tab().live || self.active_tab().kind == TabKind::Summary {
            self.asking(CommandView::Interrupt { tab: self.active })
        } else {
            self
        }
    }

    /// A key that changes what is shown and how.
    pub open spec fn changing_key(self, key: KeyEvent, fresh: Fresh) -> AppView {
        if key.control(KeyCode::Char('c')) {
            self.interrupted()
        } else if key.plain(KeyCode::Char('F')) {
            self.extras_toggled()
        } else if key.plain(KeyCode::Char('D')) {
            self.date_toggled()
        } else if key.plain(KeyCode::Char('R')) {
            self.raw_toggled()
        } else if key.bare(KeyCode::Char('p')) {
            AppView { show_fetch_stats: !self.show_fetch_stats, ..self }
        } else if key.plain(KeyCode::Char('S')) {
            self.tab_pushed(TabKind::Summary, self.active_stream().filter, fresh.stream.0)
        } else if key.bare(KeyCode::Tab) {
            self.next_pane()
        } else if key.code == KeyCode::BackTab || key.shifted(KeyCode::Tab) {
            self.prev_pane()
        } else if key.control(KeyCode::Char('w')) {
            self.tab_closed(fresh)
        } else if key.plain(KeyCode::Char('Y')) {
            self.reproduction_asked(SelectorView::Tab(self.active_tab().name))
        } else if key.bare(KeyCode::Char('=')) || key.plain(KeyCode::Char('+')) {
            self.time_step_increased()
        } else if key.bare(KeyCode::Char('-')) {
            self.time_step_decreased()
        } else {
            self
        }
    }

    /// A key over a tab.
    pub open spec fn tab_key(self, key: KeyEvent, answers: Answers, fresh: Fresh) -> AppView {
        if key.bare(KeyCode::Char('f')) {
            self.filter_asked(answers)
        } else if key.control(KeyCode::Char('t')) {
            self.tab_pushed(
                TabKind::Stream,
                self.active_stream().filter,
                fresh.stream.0,
            ).filter_asked(answers)
        } else {
            match self.motion_key(key) {
                Some(moved) => moved,
                None => match self.opening_key(key) {
                    Some(opened) => opened,
                    None => self.changing_key(key, fresh),
                },
            }
        }
    }

    /// A key, given what the filter syntax answers.  It clears the notice,
    /// whatever else it does.  An open dialog takes every key, then the
    /// bookmarks where they are on show, then a selection in progress.
    pub open spec fn pressed(self, key: KeyEvent, answers: Answers, fresh: Fresh) -> AppView {
        if key.kind != KeyEventKind::Press {
            self
        } else {
            let told = AppView { notice: None, ..self };
            match told.dialog {
                Some(dialog) => {
                    let after = dialog.pressed(key, answers.parsed);
                    told.dialog_done(after.0, after.1, fresh)
                },
                None => if told.bookmarks_active() {
                    told.bookmarks_key(key)
                } else if told.active_tab().select is Some {
                    told.selection_key(key)
                } else {
                    told.tab_key(key, answers, fresh)
                },
            }
        }
    }
}

/// Whether the answers are the syntax's own: what it reads a dialog's text
/// as, or how it writes the filter that is put up for editing.
pub open spec fn consistent<F: FilterSyntax>(
    syntax: F,
    app: AppView,
    key: KeyEvent,
    answers: Answers,
) -> bool {
    &&& app.text_asked(key) matches Some(text) ==> reads_as(syntax, text, answers.parsed)
    &&& app.shows_filter(key) ==> offered(syntax, app.active_stream().filter, answers)
}

impl App {
    /// Routes a key while the bookmarks are on show.
    pub fn handle_bookmarks_key(&mut self, key: KeyEvent)
        requires
            old(self).wf(),
            old(self)@.dialog is None,
        ensures
            final(self)@ == old(self)@.bookmarks_key(key),
            final(self).wf(),
    {
        if key.is_bare(KeyCode::Char('q')) {
            self.dialog = Some(Dialog::confirm_quit());
        } else if key.is_bare(KeyCode::Tab) {
            self.next_tab();
        } else if key.code == KeyCode::BackTab || (key.is_plain(KeyCode::Tab)
            && key.modifiers.shift) {
            self.prev_tab();
        } else if key.is_bare(KeyCode::Char('j')) || key.is_bare(KeyCode::Down) {
            self.move_bookmark_cursor(1);
        } else if key.is_bare(KeyCode::Char('k')) || key.is_bare(KeyCode::Up) {
            self.move_bookmark_cursor(-1);
        } else if key.is_plain(KeyCode::Char('Y')) {
            if self.bookmark_cursor_idx().is_none() {
                self.move_bookmark_cursor(0);
            }
            self.open_seeit_command_for_bookmark_cursor();
        } else if key.is_bare(KeyCode::Enter) {
            self.navigate_to_bookmark_cursor();
        } else if key.is_bare(KeyCode::Char('x')) {
            self.ask_to_delete_bookmark();
        } else if key.is_bare(KeyCode::Char('h')) {
            self.dialog = Some(Dialog::help());
        }
    }

    /// Asks for the command that reproduces the highlighted bookmark.
    pub fn open_seeit_command_for_bookmark_cursor(&mut self)
        ensures
            final(self)@ == old(self)@.bookmark_reproduction_asked(),
            final(self)@.wf() == old(self)@.wf(),
            final(self).dialog == old(self).dialog,
    {
        if let Some(idx) = self.bookmark_cursor_idx() {
            let flat = self.flat_bookmarks();
            assert(self@.flat()[idx as int] == flat@[idx as int]@);
            let id = flat[idx].id;
            assert(id == BookmarkId(self@.flat()[idx as int].id));
            self.open_seeit_command_dialog_with(Selector::Bookmark(id.to_text()));
        }
    }

    fn ask_to_delete_bookmark(&mut self)
        requires
            old(self).wf(),
        ensures
            final(self)@ == old(self)@.bookmark_deletion_asked(),
            final(self).wf(),
    {
        if let Some(idx) = self.bookmark_cursor_idx() {
            let flat = self.flat_bookmarks();
            assert(self@.flat()[idx as int] == flat@[idx as int]@);
            let id = flat[idx].id;
            let label = match &flat[idx].name {
                Some(name) => {
                    let mut label = "\"".to_owned();
                    label.append(name.0.as_str());
                    label.append("\"");
                    label
                },
                None => preview_msg(flat[idx].draft.display_msg.as_str()),
            };
            self.dialog = Some(Dialog::confirm_delete_bookmark(id, label));
        }
    }

    /// Routes a key while a record is being selected.
    pub fn handle_selection_key(&mut self, key: KeyEvent)
        requires
            old(self).wf(),
            old(self)@.active < old(self)@.tabs.len(),
        ensures
            final(self)@ == old(self)@.selection_key(key),
            final(self).wf(),
    {
        let ghost start = self@;
        assert(start.active_tab() == self.tabs@[self.active as int]@);
        let height = self.viewport_height;
        let at: usize = self.active;
        if key.is_bare(KeyCode::Esc) {
            self.tabs[at].select = None;
            assert(self@ =~= start.selection_key(key));
        } else if key.is_bare(KeyCode::Enter) {
            self.commit_selection();
        } else if key.is_bare(KeyCode::Char('j')) || key.is_bare(KeyCode::Down) {
            self.tabs[at].move_selection(1, height);
            assert(self@ =~= start.selection_key(key));
        } else if key.is_bare(KeyCode::Char('k')) || key.is_bare(KeyCode::Up) {
            self.tabs[at].move_selection(-1, height);
            assert(self@ =~= start.selection_key(key));
        }
    }
}

impl App {
    /// Routes a key that moves through the tab on show.
    fn handle_motion_key(&mut self, key: KeyEvent) -> (taken: bool)
        requires
            old(self).wf(),
            old(self)@.active < old(self)@.tabs.len(),
        ensures
            taken == (old(self)@.motion_key(key) is Some),
            final(self)@ == (match old(self)@.motion_key(key) {
                Some(moved) => moved,
                None => old(self)@,
            }),
            final(self).wf(),
    {
        let page: usize = self.viewport_height as usize;
        if key.is_bare(KeyCode::Char('j')) || key.is_bare(KeyCode::Down) {
            self.scroll_down(1);
        } else if key.is_bare(KeyCode::Char('k')) || key.is_bare(KeyCode::Up) {
            self.scroll_up(1);
        } else if key.is_control(KeyCode::Char('d')) {
            self.scroll_down(page / 2);
        } else if key.is_bare(KeyCode::Char(' ')) {
            self.scroll_down(page);
        } else if key.is_control(KeyCode::Char('u')) {
            self.scroll_up(page / 2);
        } else if key.is_bare(KeyCode::Char('g')) || key.is_bare(KeyCode::Home) {
            self.seek_active_to_start();
        } else if key.is_plain(KeyCode::Char('G')) || key.is_bare(KeyCode::End) {
            self.seek_active_to_end();
        } else if key.is_plain(KeyCode::Char('>')) {
            self.advance_time(Direction::Forward);
        } else if key.is_plain(KeyCode::Char('<')) {
            self.advance_time(Direction::Backward);
        } else if key.is_bare(KeyCode::Char('n')) {
            if let Some(last) = &self.last_search {
                let direction = last.direction;
                self.step_search(direction);
            }
        } else if key.is_plain(KeyCode::Char('N')) {
            if let Some(last) = &self.last_search {
                let direction = last.direction.opposite();
                self.step_search(direction);
            }
        } else {
            return false;
        }
        true
    }

    /// Opens the search prompt.
    fn open_search(&mut self, direction: SearchDirection)
        requires
            old(self).wf(),
            old(self)@.active < old(self)@.tabs.len(),
        ensures
            final(self)@ == old(self)@.search_asked(direction),
            final(self).wf(),
    {
        let mut history: Vec<String> = Vec::new();
        let mut i: usize = 0;
        let ghost all = self@.session.search_history;
        assert(views(history@) =~= all.take(0));
        while i < self.session.search_history.len()
            invariant
                i <= self.session.search_history@.len(),
                *self == *old(self),
                all == views(self.session.search_history@),
                views(history@) == all.take(i as int),
            decreases self.session.search_history@.len() - i,
        {
            let ghost before = history@;
            let entry = self.session.search_history[i].clone();
            history.push(entry);
            assert(views(history@) =~= views(before).push(entry@));
            assert(all[i as int] == self.session.search_history@[i as int]@);
            assert(all.take(i + 1) =~= all.take(i as int).push(all[i as int]));
            i = i + 1;
        }
        assert(all.take(i as int) =~= all);
        self.dialog = Some(Dialog::search(direction, history));
    }

    /// Opens the filter dialog on the stream on show.
    fn open_filter<F: FilterSyntax>(&mut self, syntax: &F)
        requires
            old(self).wf(),
            old(self)@.active < old(self)@.tabs.len(),
        ensures
            final(self).wf(),
            exists|answers: Answers|
                {
                    &&& #[trigger] offered(*syntax, old(self)@.active_stream().filter, answers)
                    &&& final(self)@ == old(self)@.filter_asked(answers)
                },
    {
        let ghost start = self@;
        let filter = &self.active_stream().filter;
        let ghost held = filter@;
        let text = syntax.show(filter);
        let ghost shown = text@;
        let parsed = syntax.parse(text.as_str());
        let ghost answers = Answers { shown, parsed: parsed_view(parsed) };
        proof {
            assert(writes_as(*syntax, held, shown));
            assert(reads_as(*syntax, shown, answers.parsed));
            assert(offered(*syntax, start.active_stream().filter, answers));
        }
        self.dialog = Some(Dialog::filter_from(text, parsed));
        assert(self@ =~= start.filter_asked(answers));
    }

    /// Routes a key that opens a dialog or starts a selection.
    fn handle_opening_key(&mut self, key: KeyEvent) -> (taken: bool)
        requires
            old(self).wf(),
            old(self)@.active < old(self)@.tabs.len(),
        ensures
            taken == (old(self)@.opening_key(key) is Some),
            final(self)@ == (match old(self)@.opening_key(key) {
                Some(opened) => opened,
                None => old(self)@,
            }),
            final(self).wf(),
    {
        assert(self@.active_tab() == self.tabs@[self.active as int]@);
        if key.is_bare(KeyCode::Char('q')) {
            self.dialog = Some(Dialog::confirm_quit());
        } else if key.is_bare(KeyCode::Char('d')) {
            let opts = self.active_stream().render_opts();
            self.dialog = Some(Dialog::display_fields(opts));
        } else if key.is_bare(KeyCode::Char('h')) {
            self.dialog = Some(Dialog::help());
        } else if key.is_bare(KeyCode::Char('x')) {
            self.start_selection(SelectionAction::Exclude);
        } else if key.is_plain(KeyCode::Char('X')) {
            self.start_selection(SelectionAction::Include);
        } else if key.is_bare(KeyCode::Char('b')) {
            self.start_selection(SelectionAction::Bookmark);
        } else if key.is_bare(KeyCode::Char('r')) {
            self.dialog = Some(Dialog::rename(self.tabs[self.active].name.as_str()));
        } else if key.is_bare(KeyCode::Char('/')) {
            self.open_search(SearchDirection::Forward);
        } else if key.is_plain(KeyCode::Char('?')) {
            self.open_search(SearchDirection::Backward);
        } else {
            return false;
        }
        true
    }
}

/// Whether the answers say how the syntax writes the filter and reads that
/// back.
pub open spec fn offered<F: FilterSyntax>(
    syntax: F,
    filter: Seq<PredicateView>,
    answers: Answers,
) -> bool {
    writes_as(syntax, filter, answers.shown) && reads_as(syntax, answers.shown, answers.parsed)
}

impl App {
    /// Routes a key that changes what is shown and how.
    fn handle_changing_key(&mut self, key: KeyEvent, fresh: Fresh)
        requires
            old(self).wf(),
            old(self)@.dialog is None,
            old(self)@.active < old(self)@.tabs.len(),
            !old(self)@.session.streams.dom().contains(fresh.stream.0),
        ensures
            final(self)@ == old(self)@.changing_key(key, fresh),
            final(self).wf(),
    {
        assert(self@.active_tab() == self.tabs@[self.active as int]@);
        if key.is_control(KeyCode::Char('c')) {
            self.interrupt();
        } else if key.is_plain(KeyCode::Char('F')) {
            self.toggle_show_extras();
        } else if key.is_plain(KeyCode::Char('D')) {
            self.toggle_show_date();
        } else if key.is_plain(KeyCode::Char('R')) {
            self.toggle_show_raw();
        } else if key.is_bare(KeyCode::Char('p')) {
            self.show_fetch_stats = !self.show_fetch_stats;
        } else if key.is_plain(KeyCode::Char('S')) {
            let filter = self.active_stream().filter.clone();
            self.push_tab(TabKind::Summary, filter, fresh.stream);
        } else if key.is_bare(KeyCode::Tab) {
            self.next_tab();
        } else if key.code == KeyCode::BackTab || (key.is_plain(KeyCode::Tab)
            && key.modifiers.shift) {
            self.prev_tab();
        } else if key.is_control(KeyCode::Char('w')) {
            self.close_active_tab(fresh);
        } else if key.is_plain(KeyCode::Char('Y')) {
            let name = self.tabs[self.active].name.clone();
            self.open_seeit_command_dialog_with(Selector::Tab(name));
        } else if key.is_bare(KeyCode::Char('=')) || key.is_plain(KeyCode::Char('+')) {
            self.increase_time_step();
        } else if key.is_bare(KeyCode::Char('-')) {
            self.decrease_time_step();
        }
    }

    /// Routes a key over a tab.
    fn handle_tab_key<F: FilterSyntax>(&mut self, key: KeyEvent, syntax: &F, fresh: Fresh)
        requires
            old(self).wf(),
            old(self)@.dialog is None,
            old(self)@.active < old(self)@.tabs.len(),
            !old(self)@.session.streams.dom().contains(fresh.stream.0),
        ensures
            final(self).wf(),
            exists|answers: Answers|
                {
                    &&& key.bare(KeyCode::Char('f')) || key.control(KeyCode::Char('t')) ==> offered(
                        *syntax,
                        old(self)@.active_stream().filter,
                        answers,
                    )
                    &&& final(self)@ == #[trigger] old(self)@.tab_key(key, answers, fresh)
                },
    {
        let ghost start = self@;
        if key.is_bare(KeyCode::Char('f')) {
            self.open_filter(syntax);
            proof {
                let answers = choose|answers: Answers|
                    {
                        &&& #[trigger] offered(*syntax, start.active_stream().filter, answers)
                        &&& self@ == start.filter_asked(answers)
                    };
                assert(self@ == start.tab_key(key, answers, fresh));
            }
        } else if key.is_control(KeyCode::Char('t')) {
            let filter = self.active_stream().filter.clone();
            let ghost held = filter@;
            self.push_tab(TabKind::Stream, filter, fresh.stream);
            let ghost pushed = self@;
            assert(pushed.active_tab() == TabView::opened(
                super::tab_name(TabKind::Stream, start.next_tab_number),
                TabKind::Stream,
                fresh.stream.0,
            ));
            assert(pushed.active_stream().filter == held);
            self.open_filter(syntax);
            proof {
                let answers = choose|answers: Answers|
                    {
                        &&& #[trigger] offered(*syntax, pushed.active_stream().filter, answers)
                        &&& self@ == pushed.filter_asked(answers)
                    };
                assert(self@ == start.tab_key(key, answers, fresh));
            }
        } else {
            let ghost unread = Answers { shown: Seq::empty(), parsed: Err(Seq::empty()) };
            if !self.handle_motion_key(key) {
                if !self.handle_opening_key(key) {
                    self.handle_changing_key(key, fresh);
                }
            }
            assert(self@ == start.tab_key(key, unread, fresh));
        }
    }

    /// Carries out a dialog's outcome.
    fn finish_dialog(&mut self, dialog: Dialog, result: DialogResult, fresh: Fresh)
        requires
            old(self).wf(),
            old(self)@.dialog is None,
            dialog.wf(),
            dialog@.over_tab() || !(result@ is ApplyFilter || result@ is ApplyRename
                || result@ is ApplySearch || result@ is RepeatSearch || result@ is ApplyBookmark
                || result@ is ApplyDisplayFields),
            dialog@.over_tab() ==> old(self)@.active < old(self)@.tabs.len(),
        ensures
            final(self)@ == old(self)@.dialog_done(dialog@, result@, fresh),
            final(self).wf(),
    {
        match result {
            DialogResult::Stay => {
                self.dialog = Some(dialog);
            },
            DialogResult::Cancel => {},
            DialogResult::ApplyFilter(filter) => self.apply_filter(filter),
            DialogResult::ApplyRename(name) => self.rename_active_tab(name),
            DialogResult::ApplySearch { pattern, direction } => self.apply_search(
                pattern,
                direction,
            ),
            DialogResult::RepeatSearch(direction) => self.repeat_last_search(direction),
            DialogResult::ApplyBookmark { name, draft } => self.add_bookmark(name, draft, fresh),
            DialogResult::ApplyDeleteBookmark(id) => self.delete_bookmark(id),
            DialogResult::ApplyQuit => {
                self.quit = true;
            },
            DialogResult::ApplyDisplayFields(opts) => self.apply_render_opts(opts),
        }
    }

    /// Takes one key.  `fresh` supplies what the key may need to be new.
    pub fn handle_key<F: FilterSyntax>(&mut self, key: KeyEvent, syntax: &F, fresh: Fresh)
        requires
            old(self).wf(),
            !old(self)@.session.streams.dom().contains(fresh.stream.0),
        ensures
            final(self).wf(),
            exists|answers: Answers|
                {
                    &&& consistent(*syntax, old(self)@, key, answers)
                    &&& final(self)@ == #[trigger] old(self)@.pressed(key, answers, fresh)
                },
    {
        let ghost start = self@;
        let ghost unread = Answers { shown: Seq::empty(), parsed: Err(Seq::empty()) };
        if key.kind != KeyEventKind::Press {
            assert(self@ == start.pressed(key, unread, fresh));
            return ;
        }
        self.notice = None;
        let ghost told = self@;
        assert(told == AppView { notice: None, ..start });
        match self.dialog.take() {
            Some(mut dialog) => {
                let ghost open = dialog@;
                let result = dialog.handle_key(key, syntax);
                proof {
                    let parsed = choose|parsed: Parsed|
                        {
                            &&& open.asks(key) matches Some(text) ==> reads_as(
                                *syntax,
                                text,
                                parsed,
                            )
                            &&& (dialog@, result@) == #[trigger] open.pressed(key, parsed)
                        };
                    let answers = Answers { shown: Seq::empty(), parsed };
                    lemma_dialog_stays_in_kind(open, key, parsed);
                    assert(AppView { dialog: None, ..told }.dialog_done(dialog@, result@, fresh)
                        == told.dialog_done(dialog@, result@, fresh));
                    assert(start.pressed(key, answers, fresh) == told.dialog_done(
                        dialog@,
                        result@,
                        fresh,
                    ));
                }
                self.finish_dialog(dialog, result, fresh);
            },
            None => if self.bookmarks_active() {
                self.handle_bookmarks_key(key);
                assert(self@ == start.pressed(key, unread, fresh));
            } else {
                assert(told.active_tab() == self.tabs@[self.active as int]@);
                if self.tabs[self.active].select.is_some() {
                    self.handle_selection_key(key);
                    assert(self@ == start.pressed(key, unread, fresh));
                } else {
                    self.handle_tab_key(key, syntax, fresh);
                    proof {
                        let answers = choose|answers: Answers|
                            {
                                &&& key.bare(KeyCode::Char('f')) || key.control(KeyCode::Char('t'))
                                    ==> offered(*syntax, told.active_stream().filter, answers)
                                &&& self@ == #[trigger] told.tab_key(key, answers, fresh)
                            };
                        assert(self@ == start.pressed(key, answers, fresh));
                    }
                }
            },
        }
    }

    /// Asks to stop what runs for the tab on show.
    pub fn interrupt(&mut self)
        requires
            old(self).wf(),
            old(self)@.active < old(self)@.tabs.len(),
        ensures
            final(self)@ == old(self)@.interrupted(),
            final(self).wf(),
    {
        assert(self@.active_tab() == self.tabs@[self.active as int]@);
        if self.tabs[self.active].live || self.tabs[self.active].kind == TabKind::Summary {
            let tab: usize = self.active;
            self.ask(Command::Interrupt { tab });
        }
    }
}

/// A key leaves a dialog about a tab one, and only those ask for changes to
/// a tab.
proof fn lemma_dialog_stays_in_kind(dialog: DialogView, key: KeyEvent, parsed: Parsed)
    ensures
        dialog.pressed(key, parsed).0.over_tab() == dialog.over_tab(),
        dialog.over_tab() || {
            let result = dialog.pressed(key, parsed).1;
            !(result is ApplyFilter || result is ApplyRename || result is ApplySearch
                || result is RepeatSearch || result is ApplyBookmark
                || result is ApplyDisplayFields)
        },
{
}

} // verus!
