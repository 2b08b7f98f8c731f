//! The operations on the application's state.

use super::{
    bookmark_at, commands_for_filter, commands_for_rendering, command_views, first_tab_of, past,
    saved_view, tab_name, time_step_at, App, AppView, Fresh, LastSearch, DEFAULT_TIME_STEP_IDX,
    TIME_STEP_COUNT,
};
use super::model::{refiltered_tab, rendered_tab};
use crate::command::{Command, CommandView, Selector};
use crate::dialog::{preview_msg, Dialog, DialogView};
use crate::filter::{EventPredicate, FieldName, Filter, Form, Predicate};
use crate::number::{decimal_text, parse_tab_number};
use crate::pattern::Pattern;
use crate::position::Cursor;
use crate::queue::Cancelled;
use crate::rows::{summary_cancelled_rows, summary_placeholder_rows, Materialized, Row};
use crate::search::{find_target, SearchAnchor, SearchDirection};
use crate::session::{
    bookmark_views, cursor_view, flatten, get_stream, insert_stream, list_bookmarks, name_view,
    take_stream, views_of_saved, Bookmark, BookmarkDraft, BookmarkId, BookmarkName, Cadence, LogStream,
    LogStreamId, RenderOpts, SavePolicy, SavedTab, SavedTabView, Session, SessionView, TabKind,
};
use crate::source::Direction;
use crate::tab::{max_top, step_within, Selection, SelectionAction, Tab, TabSearch, TabView};
use crate::text::same_text;
use vstd::prelude::*;

verus! {

impl App {
    /// What holds between any two keys; see [`AppView::wf`].  The dialog is
    /// in order too.
    pub open spec fn wf(self) -> bool {
        &&& self@.wf()
        &&& self.dialog matches Some(dialog) ==> dialog.wf()
    }

    pub(super) fn ask(&mut self, command: Command)
        ensures
            final(self)@ == old(self)@.asking(command@),
            final(self).dialog == old(self).dialog,
            final(self).tabs == old(self).tabs,
    {
        self.outbox.push(command);
        assert(self@.outbox =~= old(self)@.outbox.push(command@));
    }

    fn touch(&mut self)
        ensures
            final(self)@ == old(self)@.touched(),
            final(self).dialog == old(self).dialog,
            final(self).tabs == old(self).tabs,
    {
        self.policy.record(Cadence::Debounced);
    }

    /// Notes the open tabs in the session.
    pub fn sync_tabs_to_session(&mut self)
        ensures
            final(self)@ == old(self)@.synced(),
            final(self).dialog == old(self).dialog,
    {
        let mut saved: Vec<SavedTab> = Vec::new();
        let mut i: usize = 0;
        let ghost all = self@.tabs.map_values(|t: TabView| saved_view(t));
        assert(views_of_saved(saved@) =~= all.take(0));
        while i < self.tabs.len()
            invariant
                i <= self.tabs@.len(),
                *self == *old(self),
                all == self@.tabs.map_values(|t: TabView| saved_view(t)),
                views_of_saved(saved@) == all.take(i as int),
            decreases self.tabs@.len() - i,
        {
            let ghost before = saved@;
            let tab = &self.tabs[i];
            assert(self@.tabs[i as int] == tab@);
            let cursor = if tab.live {
                match &tab.cursor {
                    Some(cursor) => Some(cursor.clone()),
                    None => None,
                }
            } else {
                None
            };
            let entry = SavedTab {
                name: tab.name.clone(),
                stream: tab.stream,
                kind: tab.kind,
                cursor,
            };
            assert(entry@ =~= saved_view(tab@));
            saved.push(entry);
            assert(views_of_saved(saved@) =~= views_of_saved(before).push(entry@));
            assert(all.take(i + 1) =~= all.take(i as int).push(all[i as int]));
            i = i + 1;
        }
        assert(all.take(i as int) =~= all);
        self.session.tabs = saved;
    }

    /// Notes a change that goes to disk right away.
    pub fn save_after_inline_mutation(&mut self)
        ensures
            final(self)@ == old(self)@.saving(),
            final(self).dialog == old(self).dialog,
    {
        self.policy.record(Cadence::Inline);
        self.sync_tabs_to_session();
        if self.stored {
            self.ask(Command::Save);
        }
    }

    /// Asks for a save where unsaved changes have aged past the window.
    pub fn flush_if_due(&mut self, now: u64)
        ensures
            final(self)@ == (if old(self)@.policy.due(now) {
                if old(self)@.stored {
                    old(self)@.synced().asking(CommandView::Save)
                } else {
                    old(self)@.synced()
                }
            } else {
                old(self)@
            }),
            final(self).wf() == old(self).wf(),
    {
        if self.policy.due(now) {
            self.sync_tabs_to_session();
            if self.stored {
                self.ask(Command::Save);
            }
        }
    }

    /// The session has been saved.
    pub fn saved(&mut self, now: u64)
        ensures
            final(self)@.policy == (crate::session::PolicyView {
                dirty: false,
                last_saved: now,
                ..old(self)@.policy
            }),
            final(self)@ == (AppView { policy: final(self)@.policy, ..old(self)@ }),
            final(self).wf() == old(self).wf(),
    {
        self.policy.mark_saved(now);
    }

    /// The session could not be saved.  It stays due, so that the next
    /// opportunity tries again.
    pub fn save_failed(&mut self, error: &str)
        ensures
            final(self)@ == old(self)@.telling("session save failed: "@ + error@),
            final(self).wf() == old(self).wf(),
    {
        let mut notice = "session save failed: ".to_owned();
        notice.append(error);
        self.notice = Some(notice);
    }

    /// The session could not be saved ahead of showing its command.
    pub fn reproduction_failed(&mut self, error: &str)
        ensures
            final(self)@ == old(self)@.telling("save before seeit failed: "@ + error@),
            final(self).wf() == old(self).wf(),
    {
        let mut notice = "save before seeit failed: ".to_owned();
        notice.append(error);
        self.notice = Some(notice);
    }

    /// The command that reproduces the view is ready to be shown.
    pub fn reproduction_ready(&mut self, text: String)
        ensures
            final(self)@ == old(self)@.asking_user(DialogView::SeeitCommand { text: text@ }),
            old(self).wf() ==> final(self).wf(),
    {
        self.dialog = Some(Dialog::seeit_command(text));
    }

    /// Whether the bookmarked record that was gone to passes the filter has
    /// been found out.
    pub fn bookmark_checked(&mut self, passes: bool)
        ensures
            final(self)@ == (if passes {
                old(self)@
            } else {
                old(self)@.telling(
                    "bookmarked entry is hidden by the active filter; jumped to the nearest visible entry"@,
                )
            }),
            final(self).wf() == old(self).wf(),
    {
        if !passes {
            self.notice = Some(
                "bookmarked entry is hidden by the active filter; jumped to the nearest visible entry".to_owned(),
            );
        }
    }

    /// Fits what is shown to a content area of the given size.
    pub fn fit_viewport(&mut self, height: u16, width: u16)
        requires
            old(self).wf(),
        ensures
            final(self)@ == old(self)@.fitted(height, width),
            final(self).wf(),
            final(self)@.active < final(self)@.tabs.len() ==> final(self)@.active_tab().viewport_top
                <= final(self)@.active_tab().content.formatted.len(),
    {
        let ghost start = self@;
        if self.viewport_height != height || self.viewport_width != width {
            self.touch();
        }
        self.viewport_height = height;
        self.viewport_width = width;
        let at: usize = self.active;
        if at < self.tabs.len() {
            assert(start.active_tab() == self.tabs@[at as int]@);
            let max: usize = self.tabs[at].max_top(height, width);
            if self.tabs[at].viewport_top > max {
                self.tabs[at].viewport_top = max;
                assert(self@ =~= start.fitted(height, width));
            }
        }
    }

    /// Takes the commands to be carried out.
    pub fn take_commands(&mut self) -> (commands: Vec<Command>)
        ensures
            command_views(commands@) == old(self)@.outbox,
            final(self)@ == (AppView { outbox: Seq::empty(), ..old(self)@ }),
            final(self).wf() == old(self).wf(),
    {
        let mut commands: Vec<Command> = Vec::new();
        std::mem::swap(&mut commands, &mut self.outbox);
        assert(self@.outbox =~= Seq::<CommandView>::empty());
        commands
    }
}

/// The number after `n`; the largest stays.
fn number_past(n: usize) -> (next: usize)
    ensures
        next == past(n),
{
    if n < usize::MAX {
        n + 1
    } else {
        n
    }
}

/// The name of a new tab.
fn new_tab_name(kind: TabKind, number: usize) -> (name: String)
    ensures
        name@ == tab_name(kind, number),
{
    let mut name = match kind {
        TabKind::Stream => "Tab ".to_owned(),
        TabKind::Summary => "Summary ".to_owned(),
    };
    let digits = decimal_text(number as u64);
    name.append(digits.as_str());
    name
}

impl App {
    /// Opens a tab of the stream under a new number and shows it.
    fn show_tab(&mut self, kind: TabKind, stream: LogStreamId)
        ensures
            final(self)@ == old(self)@.tab_shown(kind, stream.0),
            final(self)@.active == old(self)@.tabs.len(),
            final(self).dialog == old(self).dialog,
    {
        let name = new_tab_name(kind, self.next_tab_number);
        self.next_tab_number = number_past(self.next_tab_number);
        let tab = Tab::new(name, kind, stream);
        let at: usize = self.tabs.len();
        self.tabs.push(tab);
        assert(self@.tabs =~= old(self)@.tabs.push(tab@));
        self.active = at;
        match kind {
            TabKind::Stream => self.ask(Command::OpenView { tab: at, stream }),
            TabKind::Summary => self.ask(Command::BuildSummary { tab: at, stream }),
        }
    }

    /// Opens a tab over a fresh stream of the given filter and shows it.
    pub fn push_tab(&mut self, kind: TabKind, filter: Filter, id: LogStreamId)
        requires
            !old(self)@.session.streams.dom().contains(id.0),
        ensures
            final(self)@ == old(self)@.tab_pushed(kind, filter@, id.0),
            final(self)@.active == old(self)@.tabs.len(),
            final(self).dialog == old(self).dialog,
    {
        let mut stream = LogStream::new(id, new_tab_name(kind, self.next_tab_number));
        stream.filter = filter;
        insert_stream(&mut self.session.streams, stream);
        self.show_tab(kind, id);
        self.save_after_inline_mutation();
    }
}

impl App {
    /// The stream of the tab on show.
    pub fn active_stream(&self) -> (stream: &LogStream)
        requires
            self@.wf(),
            self@.active < self@.tabs.len(),
        ensures
            stream@ == self@.active_stream(),
    {
        let id = self.tabs[self.active].stream;
        assert(self@.tabs[self.active as int] == self.tabs@[self.active as int]@);
        assert(self@.session.streams.dom().contains(id.0));
        match get_stream(&self.session.streams, id) {
            Some(stream) => stream,
            None => vstd::pervasive::unreached(),
        }
    }

    /// Filters the stream on show anew, in all its tabs.
    pub fn apply_filter(&mut self, filter: Filter)
        requires
            old(self)@.wf(),
            old(self)@.active < old(self)@.tabs.len(),
        ensures
            final(self)@ == old(self)@.filter_applied(filter@),
            final(self)@.wf(),
            final(self).dialog == old(self).dialog,
    {
        let ghost start = self@;
        let id = self.tabs[self.active].stream;
        assert(start.active_tab() == self.tabs@[self.active as int]@);
        assert(start.active_tab().stream == id.0);
        if let Some(mut stream) = take_stream(&mut self.session.streams, id) {
            stream.filter = filter;
            insert_stream(&mut self.session.streams, stream);
        }
        let ghost streams = self@.session.streams;
        assert(streams =~= start.session.streams.insert(
            id.0,
            crate::session::LogStreamView {
                filter: filter@,
                ..start.session.streams[id.0]
            },
        ));
        let ghost changed = start.tabs.map_values(|t: TabView| refiltered_tab(t, id.0));
        let mut i: usize = 0;
        assert(self@.outbox =~= start.outbox + commands_for_filter(start.tabs, id.0, 0));
        while i < self.tabs.len()
            invariant
                i <= self.tabs@.len(),
                start.tabs.len() == self.tabs@.len(),
                changed == start.tabs.map_values(|t: TabView| refiltered_tab(t, id.0)),
                self@ == (AppView {
                    session: SessionView { streams, ..start.session },
                    tabs: changed.take(i as int) + start.tabs.skip(i as int),
                    outbox: start.outbox + commands_for_filter(start.tabs, id.0, i as int),
                    ..start
                }),
                self.dialog == old(self).dialog,
            decreases self.tabs@.len() - i,
        {
            let ghost before = self@;
            let ghost tab = self.tabs@[i as int]@;
            assert(self@.tabs[i as int] == tab);
            assert(tab == start.tabs[i as int]);
            if self.tabs[i].stream == id {
                match self.tabs[i].kind {
                    TabKind::Summary => {
                        self.tabs[i].content = summary_placeholder_rows();
                        self.tabs[i].viewport_top = 0;
                        self.ask(Command::BuildSummary { tab: i, stream: id });
                    },
                    TabKind::Stream => if self.tabs[i].live {
                        self.ask(Command::Refilter { tab: i, stream: id });
                    } else {
                        self.tabs[i].viewport_top = 0;
                    },
                }
                self.tabs[i].search = None;
                self.tabs[i].select = None;
            }
            proof {
                assert(self.tabs@[i as int]@ =~= refiltered_tab(tab, id.0));
                assert(self@.tabs =~= before.tabs.update(i as int, changed[i as int]));
                assert(self@.tabs =~= changed.take(i + 1) + start.tabs.skip(i + 1));
                assert(self@.outbox =~= start.outbox + commands_for_filter(
                    start.tabs,
                    id.0,
                    i + 1,
                ));
            }
            i = i + 1;
        }
        assert(self@.tabs =~= changed);
        self.save_after_inline_mutation();
    }
}

impl App {
    /// Renders the stream on show anew, in all its tabs.
    pub fn apply_render_opts(&mut self, opts: RenderOpts)
        requires
            old(self)@.wf(),
            old(self)@.active < old(self)@.tabs.len(),
        ensures
            final(self)@ == old(self)@.opts_applied(opts),
            final(self)@.wf(),
            final(self).dialog == old(self).dialog,
    {
        let ghost start = self@;
        let id = self.tabs[self.active].stream;
        assert(start.active_tab() == self.tabs@[self.active as int]@);
        assert(start.active_tab().stream == id.0);
        if let Some(mut stream) = take_stream(&mut self.session.streams, id) {
            stream.set_render_opts(opts);
            insert_stream(&mut self.session.streams, stream);
        }
        let ghost streams = self@.session.streams;
        assert(streams =~= start.session.streams.insert(
            id.0,
            crate::session::LogStreamView { opts, ..start.session.streams[id.0] },
        ));
        let ghost changed = start.tabs.map_values(|t: TabView| rendered_tab(t, id.0));
        let mut i: usize = 0;
        assert(self@.outbox =~= start.outbox + commands_for_rendering(start.tabs, id.0, opts, 0));
        while i < self.tabs.len()
            invariant
                i <= self.tabs@.len(),
                start.tabs.len() == self.tabs@.len(),
                changed == start.tabs.map_values(|t: TabView| rendered_tab(t, id.0)),
                self@ == (AppView {
                    session: SessionView { streams, ..start.session },
                    tabs: changed.take(i as int) + start.tabs.skip(i as int),
                    outbox: start.outbox + commands_for_rendering(
                        start.tabs,
                        id.0,
                        opts,
                        i as int,
                    ),
                    ..start
                }),
                self.dialog == old(self).dialog,
            decreases self.tabs@.len() - i,
        {
            let ghost before = self@;
            let ghost tab = self.tabs@[i as int]@;
            assert(self@.tabs[i as int] == tab);
            assert(tab == start.tabs[i as int]);
            if self.tabs[i].stream == id && self.tabs[i].kind == TabKind::Stream {
                if self.tabs[i].live {
                    let anchor = self.tabs[i].anchor_event();
                    self.ask(Command::Rerender { tab: i, opts, anchor });
                } else {
                    self.tabs[i].live = true;
                    self.tabs[i].content = Materialized::default();
                    self.tabs[i].viewport_top = 0;
                    self.ask(Command::OpenView { tab: i, stream: id });
                }
                self.tabs[i].search = None;
            }
            proof {
                assert(self.tabs@[i as int]@ =~= rendered_tab(tab, id.0));
                assert(self@.tabs =~= before.tabs.update(i as int, changed[i as int]));
                assert(self@.tabs =~= changed.take(i + 1) + start.tabs.skip(i + 1));
                assert(self@.outbox =~= start.outbox + commands_for_rendering(
                    start.tabs,
                    id.0,
                    opts,
                    i + 1,
                ));
            }
            i = i + 1;
        }
        assert(self@.tabs =~= changed);
        self.save_after_inline_mutation();
    }

    /// Shows or hides the structured fields of the stream on show.
    pub fn toggle_show_extras(&mut self)
        requires
            old(self)@.wf(),
            old(self)@.active < old(self)@.tabs.len(),
        ensures
            final(self)@ == old(self)@.extras_toggled(),
            final(self)@.wf(),
            final(self).dialog == old(self).dialog,
    {
        let mut opts = self.active_stream().render_opts();
        opts.show_extras = !opts.show_extras;
        self.apply_render_opts(opts);
    }

    /// Shows or hides the date in the stream on show.
    pub fn toggle_show_date(&mut self)
        requires
            old(self)@.wf(),
            old(self)@.active < old(self)@.tabs.len(),
        ensures
            final(self)@ == old(self)@.date_toggled(),
            final(self)@.wf(),
            final(self).dialog == old(self).dialog,
    {
        let mut opts = self.active_stream().render_opts();
        opts.show_date = !opts.show_date;
        self.apply_render_opts(opts);
    }

    /// Shows the records of the stream on show raw, or renders them.
    pub fn toggle_show_raw(&mut self)
        requires
            old(self)@.wf(),
            old(self)@.active < old(self)@.tabs.len(),
        ensures
            final(self)@ == old(self)@.raw_toggled(),
            final(self)@.wf(),
            final(self).dialog == old(self).dialog,
    {
        let mut opts = self.active_stream().render_opts();
        opts.show_raw = !opts.show_raw;
        self.apply_render_opts(opts);
    }

    /// Renames the tab on show.
    pub fn rename_active_tab(&mut self, name: String)
        requires
            old(self)@.wf(),
            old(self)@.active < old(self)@.tabs.len(),
        ensures
            final(self)@ == old(self)@.tab_renamed(name@),
            final(self)@.wf(),
            final(self).dialog == old(self).dialog,
    {
        let ghost start = self@;
        let ghost tab = self.tabs@[self.active as int]@;
        assert(start.active_tab() == tab);
        self.tabs[self.active].name = name;
        assert(self@.tabs =~= start.tabs.update(
            start.active as int,
            (TabView { name: name@, ..tab }),
        ));
        self.save_after_inline_mutation();
    }

    /// Asks for the command that reproduces what the selector points at.
    pub fn open_seeit_command_dialog_with(&mut self, selector: Selector)
        ensures
            final(self)@ == old(self)@.reproduction_asked(selector@),
            final(self)@.wf() == old(self)@.wf(),
            final(self).dialog == old(self).dialog,
    {
        if !self.stored {
            self.notice = Some(
                "seeit reproduction needs a saved session (this one is transient)".to_owned(),
            );
            return ;
        }
        self.sync_tabs_to_session();
        self.ask(Command::SaveAndShow(selector));
    }

    /// Files a bookmark under the stream on show.
    pub fn add_bookmark(
        &mut self,
        name: Option<BookmarkName>,
        draft: BookmarkDraft,
        fresh: Fresh,
    )
        requires
            old(self)@.wf(),
            old(self)@.active < old(self)@.tabs.len(),
        ensures
            final(self)@ == old(self)@.bookmark_added(name_view(name), draft@, fresh),
            final(self)@.wf(),
            final(self).dialog == old(self).dialog,
    {
        let stream = self.tabs[self.active].stream;
        assert(self@.active_tab() == self.tabs@[self.active as int]@);
        let bookmark = Bookmark {
            id: fresh.bookmark,
            stream,
            created_at: fresh.now,
            name,
            draft,
        };
        self.session.add_bookmark(bookmark);
        self.save_after_inline_mutation();
    }

    /// Deletes a bookmark.
    pub fn delete_bookmark(&mut self, id: BookmarkId)
        requires
            old(self)@.wf(),
        ensures
            final(self)@ == old(self)@.bookmark_deleted(id.0),
            final(self)@.wf(),
            final(self).dialog == old(self).dialog,
    {
        let was_active = self.bookmarks_active();
        self.session.remove_bookmark(id);
        proof {
            crate::session::lemma_without(old(self)@.session.bookmarks, id.0);
        }
        if let Some(cursor) = self.bookmark_cursor {
            if cursor == id {
                self.bookmark_cursor = None;
            }
        }
        if !self.has_bookmarks_tab() {
            self.bookmark_cursor = None;
            if was_active {
                self.active = self.tabs.len() - 1;
            }
        }
        self.save_after_inline_mutation();
    }

    /// Whether the bookmarks are on show.
    pub fn bookmarks_active(&self) -> (yes: bool)
        ensures
            yes == self@.bookmarks_active(),
    {
        self.has_bookmarks_tab() && self.active == self.tabs.len()
    }

    /// Whether there is a pane of bookmarks.
    pub fn has_bookmarks_tab(&self) -> (yes: bool)
        ensures
            yes == self@.has_bookmarks_tab(),
    {
        self.session.bookmark_count() > 0
    }
}

/// The first bookmark with the id.
fn find_bookmark(flat: &Vec<&Bookmark>, id: BookmarkId) -> (found: Option<usize>)
    ensures
        match found {
            Some(i) => bookmark_at(bookmark_views(flat@), id.0, 0) == Some(i as int) && i
                < flat@.len(),
            None => bookmark_at(bookmark_views(flat@), id.0, 0) is None,
        },
{
    let ghost all = bookmark_views(flat@);
    let mut i: usize = 0;
    while i < flat.len()
        invariant
            i <= flat@.len(),
            all == bookmark_views(flat@),
            bookmark_at(all, id.0, 0) == bookmark_at(all, id.0, i as int),
        decreases flat@.len() - i,
    {
        assert(all[i as int] == flat@[i as int]@);
        if flat[i].id == id {
            return Some(i);
        }
        i = i + 1;
    }
    None
}

impl App {
    /// All bookmarks, in the order in which they are listed: by the time of
    /// the marked record, then by the time of creation.
    pub fn flat_bookmarks(&self) -> (flat: Vec<&Bookmark>)
        ensures
            bookmark_views(flat@) == self@.flat(),
            crate::session::is_flat(self@.flat(), self@.session.bookmarks),
    {
        flatten(&self.session.bookmarks)
    }

    /// Where in the list the highlighted bookmark is, if it is still there.
    pub fn bookmark_cursor_idx(&self) -> (found: Option<usize>)
        ensures
            match found {
                Some(i) => self@.bookmark_cursor_idx() == Some(i as int) && i < self@.flat().len(),
                None => self@.bookmark_cursor_idx() is None,
            },
    {
        match self.bookmark_cursor {
            Some(id) => {
                let flat = self.flat_bookmarks();
                assert(bookmark_views(flat@).len() == flat@.len());
                find_bookmark(&flat, id)
            },
            None => None,
        }
    }

    /// Moves the highlight by `delta` rows, down where it is positive.
    pub fn move_bookmark_cursor(&mut self, delta: isize)
        ensures
            final(self)@ == old(self)@.bookmark_cursor_moved(delta as int),
            final(self)@.wf() == old(self)@.wf(),
            final(self).dialog == old(self).dialog,
    {
        let at: usize = match self.bookmark_cursor_idx() {
            Some(i) => i,
            None => 0,
        };
        let flat = self.flat_bookmarks();
        assert(bookmark_views(flat@).len() == flat@.len());
        if flat.len() == 0 {
            self.bookmark_cursor = None;
            return ;
        }
        let last: usize = flat.len() - 1;
        let to: usize = step_within(at, delta, last);
        assert(self@.flat()[to as int] == flat@[to as int]@);
        self.bookmark_cursor = Some(flat[to].id);
    }

    /// The first tab that shows the stream.
    fn tab_of(&self, stream: LogStreamId) -> (found: Option<usize>)
        ensures
            match found {
                Some(i) => first_tab_of(self@.tabs, stream.0, 0) == Some(i as int) && i
                    < self@.tabs.len(),
                None => first_tab_of(self@.tabs, stream.0, 0) is None,
            },
    {
        let ghost all = self@.tabs;
        let mut i: usize = 0;
        while i < self.tabs.len()
            invariant
                i <= self.tabs@.len(),
                all == self@.tabs,
                first_tab_of(all, stream.0, 0) == first_tab_of(all, stream.0, i as int),
            decreases self.tabs@.len() - i,
        {
            assert(all[i as int] == self.tabs@[i as int]@);
            if self.tabs[i].stream == stream {
                return Some(i);
            }
            i = i + 1;
        }
        None
    }

    /// Takes the tab on show to a cursor.
    pub fn seek_active_to_cursor(&mut self, cursor: Cursor)
        requires
            old(self)@.wf(),
            old(self)@.active < old(self)@.tabs.len(),
        ensures
            final(self)@ == old(self)@.sought_cursor(cursor@),
            final(self)@.wf(),
            final(self).dialog == old(self).dialog,
    {
        self.touch();
        assert(self@.active_tab() == self.tabs@[self.active as int]@);
        if self.tabs[self.active].live {
            let tab: usize = self.active;
            self.ask(Command::SeekToCursor { tab, cursor });
        }
    }

    /// Goes to the highlighted bookmark, in its stream's tab.
    pub fn navigate_to_bookmark_cursor(&mut self)
        requires
            old(self)@.wf(),
        ensures
            final(self)@ == old(self)@.bookmark_visited(),
            final(self)@.wf(),
            final(self).dialog == old(self).dialog,
    {
        let idx: usize = match self.bookmark_cursor_idx() {
            Some(idx) => idx,
            None => {
                return ;
            },
        };
        let flat = self.flat_bookmarks();
        assert(self@.flat()[idx as int] == flat@[idx as int]@);
        let stream = flat[idx].stream;
        let cursor = flat[idx].draft.cursor.clone();
        let copy = flat[idx].draft.cursor.clone();
        proof {
            crate::session::lemma_listed(self@.flat(), self@.session.bookmarks, idx as int);
            assert(self@.session.streams.dom().contains(stream.0));
        }
        self.touch();
        match self.tab_of(stream) {
            Some(tab) => {
                self.active = tab;
            },
            None => {
                self.show_tab(TabKind::Stream, stream);
                self.save_after_inline_mutation();
            },
        }
        self.ask(Command::CheckBookmark { stream, cursor: copy });
        self.seek_active_to_cursor(cursor);
    }
}

impl App {
    /// Takes the tab on show to its first line.
    pub fn seek_active_to_start(&mut self)
        requires
            old(self)@.wf(),
            old(self)@.active < old(self)@.tabs.len(),
        ensures
            final(self)@ == old(self)@.sought_start(),
            final(self)@.wf(),
            final(self).dialog == old(self).dialog,
    {
        let ghost start = self@;
        let ghost tab = self.tabs@[self.active as int]@;
        assert(start.active_tab() == tab);
        self.touch();
        if self.tabs[self.active].live {
            let at: usize = self.active;
            self.ask(Command::SeekToStart { tab: at });
        } else {
            self.tabs[self.active].viewport_top = 0;
            assert(self@ =~= start.sought_start());
        }
    }

    /// Takes the tab on show to its last line.
    pub fn seek_active_to_end(&mut self)
        requires
            old(self)@.wf(),
            old(self)@.active < old(self)@.tabs.len(),
        ensures
            final(self)@ == old(self)@.sought_end(),
            final(self)@.wf(),
            final(self).dialog == old(self).dialog,
    {
        let ghost start = self@;
        let ghost tab = self.tabs@[self.active as int]@;
        assert(start.active_tab() == tab);
        self.touch();
        if self.tabs[self.active].live {
            let at: usize = self.active;
            self.ask(Command::SeekToEnd { tab: at });
        } else {
            let top: usize = self.tabs[self.active].max_top(
                self.viewport_height,
                self.viewport_width,
            );
            self.tabs[self.active].viewport_top = top;
            assert(self@ =~= start.sought_end());
        }
    }

    /// Scrolls the tab on show down.
    pub fn scroll_down(&mut self, lines: usize)
        requires
            old(self)@.wf(),
            old(self)@.active < old(self)@.tabs.len(),
        ensures
            final(self)@ == old(self)@.scrolled_down(lines),
            final(self)@.wf(),
            final(self).dialog == old(self).dialog,
    {
        let ghost start = self@;
        let ghost tab = self.tabs@[self.active as int]@;
        assert(start.active_tab() == tab);
        self.touch();
        if self.tabs[self.active].live {
            let at: usize = self.active;
            self.ask(Command::ScrollDown { tab: at, lines });
        } else {
            let height = self.viewport_height;
            let width = self.viewport_width;
            self.tabs[self.active].scroll_down(lines, height, width);
            assert(self@ =~= start.scrolled_down(lines));
        }
    }

    /// Scrolls the tab on show up.
    pub fn scroll_up(&mut self, lines: usize)
        requires
            old(self)@.wf(),
            old(self)@.active < old(self)@.tabs.len(),
        ensures
            final(self)@ == old(self)@.scrolled_up(lines),
            final(self)@.wf(),
            final(self).dialog == old(self).dialog,
    {
        let ghost start = self@;
        let ghost tab = self.tabs@[self.active as int]@;
        assert(start.active_tab() == tab);
        self.touch();
        if self.tabs[self.active].live {
            let at: usize = self.active;
            self.ask(Command::ScrollUp { tab: at, lines });
        } else {
            self.tabs[self.active].scroll_up(lines);
            assert(self@ =~= start.scrolled_up(lines));
        }
    }

    /// Moves the tab on show by the current step in time.
    pub fn advance_time(&mut self, direction: Direction)
        requires
            old(self)@.wf(),
            old(self)@.active < old(self)@.tabs.len(),
        ensures
            final(self)@ == old(self)@.advanced(direction),
            final(self)@.wf(),
            final(self).dialog == old(self).dialog,
    {
        let ghost start = self@;
        let ghost tab = self.tabs@[self.active as int]@;
        assert(start.active_tab() == tab);
        self.touch();
        let (_, millis) = time_step_at(self.time_step_idx);
        if self.tabs[self.active].live {
            let at: usize = self.active;
            self.ask(Command::SeekByTime { tab: at, direction, millis });
        } else {
            let height = self.viewport_height;
            let width = self.viewport_width;
            self.tabs[self.active].advance_time(direction, millis, height, width);
            assert(self@ =~= start.advanced(direction));
        }
    }

    /// The label of the current time step.
    pub fn current_step_label(&self) -> (label: &'static str)
        requires
            self@.wf(),
        ensures
            label@ == super::time_step(self@.time_step_idx as int).0,
    {
        time_step_at(self.time_step_idx).0
    }

    /// Chooses the next larger time step.
    pub fn increase_time_step(&mut self)
        requires
            old(self)@.wf(),
        ensures
            final(self)@ == old(self)@.time_step_increased(),
            final(self)@.wf(),
            final(self).dialog == old(self).dialog,
    {
        if self.time_step_idx + 1 < TIME_STEP_COUNT {
            self.time_step_idx = self.time_step_idx + 1;
        }
    }

    /// Chooses the next smaller time step.
    pub fn decrease_time_step(&mut self)
        requires
            old(self)@.wf(),
        ensures
            final(self)@ == old(self)@.time_step_decreased(),
            final(self)@.wf(),
            final(self).dialog == old(self).dialog,
    {
        if self.time_step_idx > 0 {
            self.time_step_idx = self.time_step_idx - 1;
        }
    }

    /// Shows the next pane.
    pub fn next_tab(&mut self)
        requires
            old(self)@.wf(),
        ensures
            final(self)@ == old(self)@.next_pane(),
            old(self)@.dialog is None ==> final(self)@.wf(),
            final(self).dialog == old(self).dialog,
    {
        let tabs: usize = self.tabs.len();
        self.active = if self.active < tabs && (self.active < tabs - 1 || self.has_bookmarks_tab()) {
            self.active + 1
        } else {
            0
        };
        self.notice = None;
    }

    /// Shows the previous pane.
    pub fn prev_tab(&mut self)
        requires
            old(self)@.wf(),
        ensures
            final(self)@ == old(self)@.prev_pane(),
            old(self)@.dialog is None ==> final(self)@.wf(),
            final(self).dialog == old(self).dialog,
    {
        let tabs: usize = self.tabs.len();
        self.active = if self.active > 0 {
            self.active - 1
        } else if self.has_bookmarks_tab() {
            tabs
        } else {
            tabs - 1
        };
        self.notice = None;
    }

    /// Closes the tab on show.
    pub fn close_active_tab(&mut self, fresh: Fresh)
        requires
            old(self)@.wf(),
            !old(self)@.session.streams.dom().contains(fresh.stream.0),
        ensures
            final(self)@ == old(self)@.tab_closed(fresh),
            old(self)@.dialog is None ==> final(self)@.wf(),
            final(self).dialog == old(self).dialog,
    {
        if self.bookmarks_active() {
            return ;
        }
        let closed: usize = self.active;
        self.tabs.remove(closed);
        assert(self@.tabs =~= old(self)@.tabs.remove(closed as int));
        self.ask(Command::CloseView { tab: closed });
        if self.tabs.len() == 0 {
            self.push_tab(TabKind::Stream, Filter::default(), fresh.stream);
        } else if self.active >= self.tabs.len() {
            self.active = self.tabs.len() - 1;
        }
        self.save_after_inline_mutation();
    }
}

impl App {
    /// Searches the tab on show for the pattern.
    fn set_search(&mut self, pattern: Pattern)
        requires
            old(self)@.wf(),
            old(self)@.active < old(self)@.tabs.len(),
        ensures
            final(self)@ == old(self)@.search_set(pattern@),
            final(self)@.wf(),
            final(self).dialog == old(self).dialog,
    {
        let ghost start = self@;
        let ghost tab = self.tabs@[self.active as int]@;
        assert(start.active_tab() == tab);
        let matches = self.tabs[self.active].match_indices(&pattern);
        self.tabs[self.active].search = Some(TabSearch { pattern, matches });
        assert(self@ =~= start.search_set(pattern@));
    }

    /// Sees to it that the tab on show is searched for the pattern.
    pub fn ensure_tab_search(&mut self, pattern: &str)
        requires
            old(self)@.wf(),
            old(self)@.active < old(self)@.tabs.len(),
        ensures
            final(self)@ == old(self)@.search_ensured(pattern@),
            final(self)@.wf(),
            final(self).dialog == old(self).dialog,
    {
        let ghost start = self@;
        let ghost tab = self.tabs@[self.active as int]@;
        assert(start.active_tab() == tab);
        if let Some(search) = &self.tabs[self.active].search {
            if same_text(search.pattern.as_str(), pattern) {
                return ;
            }
        }
        if let Ok(compiled) = Pattern::compile(pattern) {
            self.set_search(compiled);
        }
    }

    /// Notes what was searched for.
    fn note_search(&mut self, pattern: String, direction: SearchDirection)
        requires
            old(self)@.wf(),
            old(self)@.active < old(self)@.tabs.len(),
        ensures
            final(self)@ == old(self)@.search_noted(pattern@, direction),
            final(self)@.wf(),
            final(self).dialog == old(self).dialog,
    {
        self.session.record_search(pattern.as_str());
        self.last_search = Some(LastSearch { pattern, direction });
    }

    /// Takes the tab on show to the next match.
    pub fn jump_to_match(&mut self, direction: SearchDirection, anchor: SearchAnchor)
        requires
            old(self)@.wf(),
            old(self)@.active < old(self)@.tabs.len(),
        ensures
            final(self)@ == old(self)@.jumped(direction, anchor),
            final(self)@.wf(),
            final(self).dialog == old(self).dialog,
    {
        let ghost start = self@;
        let ghost tab = self.tabs@[self.active as int]@;
        assert(start.active_tab() == tab);
        self.touch();
        let at: usize = self.active;
        let shown = &self.tabs[at];
        match &shown.search {
            None => {},
            Some(search) => if shown.live {
                let direction = match direction {
                    SearchDirection::Forward => Direction::Forward,
                    SearchDirection::Backward => Direction::Backward,
                };
                let pattern = search.pattern.as_str().to_owned();
                self.ask(Command::SeekForSearch { tab: at, direction, pattern });
            } else {
                let target = find_target(&search.matches, shown.viewport_top, direction, anchor);
                if let Some(line) = target {
                    self.tabs[at].viewport_top = line;
                    assert(self@ =~= start.jumped(direction, anchor));
                }
            },
        }
    }

    /// Searches for a new pattern.
    pub fn apply_search(&mut self, pattern: Pattern, direction: SearchDirection)
        requires
            old(self)@.wf(),
            old(self)@.active < old(self)@.tabs.len(),
        ensures
            final(self)@ == old(self)@.searched(pattern@, direction),
            final(self)@.wf(),
            final(self).dialog == old(self).dialog,
    {
        let text = pattern.as_str().to_owned();
        self.set_search(pattern);
        self.note_search(text, direction);
        self.jump_to_match(direction, SearchAnchor::Include);
    }

    /// Searches again for the last pattern, the given way from now on.
    pub fn repeat_last_search(&mut self, direction: SearchDirection)
        requires
            old(self)@.wf(),
            old(self)@.active < old(self)@.tabs.len(),
        ensures
            final(self)@ == old(self)@.search_repeated(direction),
            final(self)@.wf(),
            final(self).dialog == old(self).dialog,
    {
        let pattern = match &self.last_search {
            Some(last) => last.pattern.clone(),
            None => {
                return ;
            },
        };
        self.ensure_tab_search(pattern.as_str());
        self.note_search(pattern, direction);
        self.jump_to_match(direction, SearchAnchor::Skip);
    }

    /// Goes on to the next match of the last pattern, the given way this
    /// once.
    pub fn step_search(&mut self, direction: SearchDirection)
        requires
            old(self)@.wf(),
            old(self)@.active < old(self)@.tabs.len(),
        ensures
            final(self)@ == old(self)@.search_stepped(direction),
            final(self)@.wf(),
            final(self).dialog == old(self).dialog,
    {
        let pattern = match &self.last_search {
            Some(last) => last.pattern.clone(),
            None => {
                return ;
            },
        };
        self.ensure_tab_search(pattern.as_str());
        self.jump_to_match(direction, SearchAnchor::Skip);
    }

    /// Starts selecting a record.
    pub fn start_selection(&mut self, action: SelectionAction)
        requires
            old(self)@.wf(),
            old(self)@.active < old(self)@.tabs.len(),
        ensures
            final(self)@ == old(self)@.selection_started(action),
            final(self)@.wf(),
            final(self).dialog == old(self).dialog,
    {
        let ghost start = self@;
        let ghost tab = self.tabs@[self.active as int]@;
        assert(start.active_tab() == tab);
        let at: usize = self.active;
        let count: usize = self.tabs[at].content.events.len();
        assert(count == tab.content.events.len());
        if count == 0 {
            return ;
        }
        let event_idx: usize = match self.tabs[at].anchor_event() {
            Some(event) => event,
            None => count - 1,
        };
        self.tabs[at].select = Some(Selection { event_idx, action });
        assert(self@ =~= start.selection_started(action));
    }

    /// Opens the dialog that names a bookmark of the record.
    fn draft_bookmark(&mut self, event: usize, cursor: Cursor)
        requires
            old(self)@.wf(),
            old(self)@.active < old(self)@.tabs.len(),
            old(self)@.record_at(old(self)@.active as int, event as int) is Some,
        ensures
            final(self)@ == old(self)@.bookmark_drafted(
                old(self)@.record_at(old(self)@.active as int, event as int)->Some_0,
                cursor@,
            ),
            final(self).wf(),
    {
        let ghost start = self@;
        let ghost tab = self.tabs@[self.active as int]@;
        assert(start.active_tab() == tab);
        let at: usize = self.active;
        assert(tab.content.events[event as int] == self.tabs@[at as int].content.events@[event as int]@);
        match &self.tabs[at].content.events[event] {
            Row::Event(row) => {
                let draft = BookmarkDraft {
                    cursor,
                    display_source: row.position.source.clone(),
                    display_time: row.event.time,
                    display_name: row.event.name.0.clone(),
                    display_msg: preview_msg(row.event.msg.as_str()),
                };
                self.dialog = Some(Dialog::bookmark_name(draft));
                self.tabs[at].select = None;
                assert(self@ =~= start.bookmark_drafted(
                    start.record_at(at as int, event as int)->Some_0,
                    cursor@,
                ));
            },
            Row::Error(_) => {},
        }
    }

    /// Keeps the selected record's like out or in, or bookmarks it.
    pub fn commit_selection(&mut self)
        requires
            old(self).wf(),
            old(self)@.active < old(self)@.tabs.len(),
        ensures
            final(self)@ == old(self)@.selection_committed(),
            final(self).wf(),
    {
        let ghost start = self@;
        let ghost tab = self.tabs@[self.active as int]@;
        assert(start.active_tab() == tab);
        let at: usize = self.active;
        let sel = match self.tabs[at].select {
            Some(sel) => sel,
            None => {
                return ;
            },
        };
        let count: usize = self.tabs[at].content.events.len();
        assert(count == tab.content.events.len());
        if sel.event_idx >= count {
            return ;
        }
        assert(tab.content.events[sel.event_idx as int]
            == self.tabs@[at as int].content.events@[sel.event_idx as int]@);
        let msg = match &self.tabs[at].content.events[sel.event_idx] {
            Row::Event(row) => row.event.msg.clone(),
            Row::Error(_) => {
                return ;
            },
        };
        match sel.action {
            SelectionAction::Bookmark => if self.tabs[at].live {
                self.ask(Command::LocateRecord { tab: at, event: sel.event_idx });
            } else {
                self.draft_bookmark(sel.event_idx, Cursor::new());
            },
            SelectionAction::Exclude | SelectionAction::Include => {
                let form = if sel.action == SelectionAction::Exclude {
                    Form::Negated
                } else {
                    Form::Affirmed
                };
                let predicate = Predicate::Event(
                    EventPredicate::FieldEquals { field: FieldName::Msg, value: msg, form },
                );
                let mut filter = self.active_stream().filter.clone();
                filter.add_predicate(predicate);
                self.apply_filter(filter);
            },
        }
    }

    /// The record to bookmark has been located in front of the cursor.
    pub fn record_located(&mut self, tab: usize, event: usize, cursor: Cursor)
        requires
            old(self).wf(),
        ensures
            final(self)@ == old(self)@.record_located(tab as int, event as int, cursor@),
            final(self).wf(),
    {
        if self.active != tab || self.dialog.is_some() || tab >= self.tabs.len() {
            return ;
        }
        assert(self@.active_tab() == self.tabs@[tab as int]@);
        let count: usize = self.tabs[tab].content.events.len();
        assert(count == self@.tabs[tab as int].content.events.len());
        if event >= count {
            return ;
        }
        assert(self@.tabs[tab as int].content.events[event as int]
            == self.tabs@[tab as int].content.events@[event as int]@);
        let readable = match &self.tabs[tab].content.events[event] {
            Row::Event(_) => true,
            Row::Error(_) => false,
        };
        if readable {
            self.draft_bookmark(event, cursor);
        }
    }

    /// A tab's live view has moved, or shows more than it did.
    pub fn view_moved(
        &mut self,
        tab: usize,
        content: Materialized,
        cursor: Option<Cursor>,
        anchor: usize,
    )
        requires
            old(self).wf(),
            content@.wf(),
        ensures
            final(self)@ == old(self)@.view_moved(tab as int, content@, cursor_view(cursor), anchor),
            final(self).wf(),
    {
        let ghost start = self@;
        if tab >= self.tabs.len() {
            return ;
        }
        assert(start.tabs[tab as int] == self.tabs@[tab as int]@);
        if !self.tabs[tab].live {
            return ;
        }
        let height = self.viewport_height;
        let width = self.viewport_width;
        let pulled = self.tabs[tab].resync(content, cursor, anchor, height, width);
        assert(self@.tabs =~= start.tabs.update(
            tab as int,
            start.tabs[tab as int].resynced(
                content@,
                cursor_view(cursor),
                anchor,
                height,
                width,
            ),
        ));
        if let Some(line) = pulled {
            self.ask(Command::SetAnchor { tab, line });
        }
    }

    /// A tab's live view has rendered its records anew.
    pub fn view_rerendered(&mut self, tab: usize, content: Materialized, anchor: Option<usize>)
        requires
            old(self).wf(),
            content@.wf(),
        ensures
            final(self)@ == old(self)@.view_rerendered(tab as int, content@, anchor),
            final(self).wf(),
    {
        let ghost start = self@;
        if tab >= self.tabs.len() {
            return ;
        }
        assert(start.tabs[tab as int] == self.tabs@[tab as int]@);
        if !self.tabs[tab].live {
            return ;
        }
        self.tabs[tab].rerendered(content, anchor);
        assert(self@ =~= start.view_rerendered(tab as int, content@, anchor));
    }

    /// The computation of a summary begins.
    pub fn summary_started(&mut self, tab: usize)
        requires
            old(self).wf(),
        ensures
            final(self)@ == old(self)@.summary_started(tab as int),
            final(self).wf(),
    {
        let ghost start = self@;
        if tab >= self.tabs.len() {
            return ;
        }
        assert(start.tabs[tab as int] == self.tabs@[tab as int]@);
        if self.tabs[tab].kind != TabKind::Summary {
            return ;
        }
        self.tabs[tab].content = summary_placeholder_rows();
        self.tabs[tab].viewport_top = 0;
        self.tabs[tab].search = None;
        assert(self@ =~= start.summary_started(tab as int));
    }

    /// An operation has been stopped.
    pub fn long_op_cancelled(&mut self, stopped: Cancelled)
        requires
            old(self).wf(),
        ensures
            final(self)@ == old(self)@.long_op_cancelled(stopped@),
            final(self).wf(),
    {
        match stopped {
            Cancelled::Nothing => {},
            Cancelled::Summary(tab_idx) => self.summary_built(
                tab_idx.0,
                summary_cancelled_rows(),
            ),
            Cancelled::Search => {
                self.notice = Some("search cancelled".to_owned());
            },
            Cancelled::Seek(label) => {
                let mut notice = label;
                notice.append(" cancelled");
                self.notice = Some(notice);
            },
        }
    }

    /// A summary has been computed.
    pub fn summary_built(&mut self, tab: usize, content: Materialized)
        requires
            old(self).wf(),
            content@.wf(),
        ensures
            final(self)@ == old(self)@.summary_built(tab as int, content@),
            final(self).wf(),
    {
        let ghost start = self@;
        if tab >= self.tabs.len() {
            return ;
        }
        assert(start.tabs[tab as int] == self.tabs@[tab as int]@);
        if self.tabs[tab].kind != TabKind::Summary {
            return ;
        }
        self.tabs[tab].content = content;
        self.tabs[tab].viewport_top = 0;
        assert(self@ =~= start.summary_built(tab as int, content@));
    }
}

/// The number past every number in use in the names of saved tabs.
fn next_number(saved: &Vec<SavedTab>) -> (next: usize)
    ensures
        next == AppView::next_number(views_of_saved(saved@), 1),
{
    let ghost all = views_of_saved(saved@);
    let mut next: usize = 1;
    let mut i: usize = 0;
    while i < saved.len()
        invariant
            i <= saved@.len(),
            all == views_of_saved(saved@),
            next == AppView::next_number(all.take(i as int), 1),
        decreases saved@.len() - i,
    {
        assert(all[i as int] == saved@[i as int]@);
        assert(all.take(i + 1).drop_last() =~= all.take(i as int));
        assert(all.take(i + 1).last() == all[i as int]);
        if let Some(n) = parse_tab_number(saved[i].name.as_str()) {
            let after: usize = number_past(n);
            if after > next {
                next = after;
            }
        }
        i = i + 1;
    }
    assert(all.take(i as int) =~= all);
    next
}

/// A session whose saved tabs and bookmarks can be opened: every bookmark
/// belongs to a stream.
pub open spec fn openable(session: SessionView) -> bool {
    forall|i: int|
        0 <= i < session.bookmarks.len() ==> session.streams.dom().contains(
            (#[trigger] session.bookmarks[i]).stream,
        )
}

/// Whether every bookmark of the session belongs to one of its streams, as it
/// must before the session is opened.
pub fn can_open(session: &Session) -> (yes: bool)
    ensures
        yes == openable(session@),
{
    let list = list_bookmarks(&session.bookmarks);
    let ghost all = session@.bookmarks;
    assert(all == bookmark_views(list@));
    let mut i: usize = 0;
    while i < list.len()
        invariant
            i <= list@.len(),
            all == bookmark_views(list@),
            all == session@.bookmarks,
            forall|k: int|
                0 <= k < i ==> session@.streams.dom().contains((#[trigger] all[k]).stream),
        decreases list@.len() - i,
    {
        assert(all[i as int] == list@[i as int]@);
        if get_stream(&session.streams, list[i].stream).is_none() {
            return false;
        }
        i = i + 1;
    }
    true
}

impl App {
    /// Opens a saved tab again.
    fn restore_tab(&mut self, saved: &SavedTab)
        ensures
            final(self)@ == old(self)@.tab_restored(saved@),
            final(self).dialog == old(self).dialog,
    {
        let at: usize = self.tabs.len();
        let tab = Tab::new(saved.name.clone(), saved.kind, saved.stream);
        self.tabs.push(tab);
        assert(self@.tabs =~= old(self)@.tabs.push(tab@));
        match saved.kind {
            TabKind::Summary => self.ask(
                Command::BuildSummary { tab: at, stream: saved.stream },
            ),
            TabKind::Stream => {
                self.ask(Command::OpenView { tab: at, stream: saved.stream });
                if let Some(cursor) = &saved.cursor {
                    self.ask(Command::SeekToCursor { tab: at, cursor: cursor.clone() });
                }
            },
        }
    }

    /// The application over a session.  Its saved tabs open again where
    /// their streams are still there; where there is none to open, one fresh
    /// tab does.
    pub fn new_with_session(
        session: Session,
        stored: bool,
        policy: SavePolicy,
        fresh: Fresh,
    ) -> (app: Self)
        requires
            openable(session@),
            !session@.streams.dom().contains(fresh.stream.0),
        ensures
            app@ == AppView::started(session@, stored, policy@, fresh),
            app.wf(),
    {
        let mut session = session;
        let ghost given = session@;
        let mut saved: Vec<SavedTab> = Vec::new();
        std::mem::swap(&mut saved, &mut session.tabs);
        let ghost all = views_of_saved(saved@);
        assert(given.tabs == all);
        assert(session@ =~= (SessionView { tabs: Seq::empty(), ..given }));
        let mut app = App {
            session,
            tabs: Vec::new(),
            active: 0,
            next_tab_number: next_number(&saved),
            viewport_height: 0,
            viewport_width: 0,
            quit: false,
            dialog: None,
            last_search: None,
            time_step_idx: DEFAULT_TIME_STEP_IDX,
            bookmark_cursor: None,
            notice: None,
            stored,
            policy,
            show_fetch_stats: false,
            outbox: Vec::new(),
        };
        let ghost bare = app@;
        assert(bare.tabs =~= Seq::empty());
        assert(bare.outbox =~= Seq::empty());
        let mut i: usize = 0;
        assert(all.take(0).len() == 0);
        while i < saved.len()
            invariant
                i <= saved@.len(),
                all == views_of_saved(saved@),
                app@ == bare.tabs_restored(all.take(i as int)),
                app.dialog is None,
                app@.session == bare.session,
                app@.active == 0,
                app@.time_step_idx == bare.time_step_idx,
                forall|k: int| 0 <= k < app@.tabs.len() ==> (#[trigger] app@.tabs[k]).content.wf(),
                forall|k: int|
                    0 <= k < app@.tabs.len() ==> bare.session.streams.dom().contains(
                        (#[trigger] app@.tabs[k]).stream,
                    ),
            decreases saved@.len() - i,
        {
            assert(all[i as int] == saved@[i as int]@);
            assert(all.take(i + 1).drop_last() =~= all.take(i as int));
            assert(all.take(i + 1).last() == all[i as int]);
            let known = get_stream(&app.session.streams, saved[i].stream).is_some();
            if known {
                app.restore_tab(&saved[i]);
            }
            i = i + 1;
        }
        assert(all.take(i as int) =~= all);
        if app.tabs.len() == 0 {
            proof {
                lemma_nothing_restored(bare, all);
                assert(app@ =~= bare);
            }
            app.push_tab(TabKind::Stream, Filter::default(), fresh.stream);
        }
        app
    }
}

/// Where no tab was opened again, nothing was changed.
proof fn lemma_nothing_restored(bare: AppView, saved: Seq<SavedTabView>)
    requires
        bare.tabs.len() == 0,
        bare.tabs_restored(saved).tabs.len() == 0,
    ensures
        bare.tabs_restored(saved) == bare,
    decreases saved.len(),
{
    if saved.len() > 0 {
        lemma_nothing_restored(bare, saved.drop_last());
    }
}

} // verus!
