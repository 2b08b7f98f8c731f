//! What each operation makes of the application's state.

use super::{time_step, AppView, Fresh, LastSearchView, DEFAULT_TIME_STEP_IDX, TIME_STEP_COUNT};
use crate::command::{CommandView, SelectorView};
use crate::dialog::{preview, showing, DialogView, ResultView};
use crate::filter::{FieldNameView, Form, PredicateView};
use crate::number::{decimal, tab_number};
use crate::pattern::regex_error;
use crate::position::ByteOffset;
use crate::queue::CancelledView;
use crate::rows::{ContentView, RowView};
use crate::search::{target_line, SearchAnchor, SearchDirection};
use crate::session::{
    default_opts, filed, flat_of, recorded, without_id, BookmarkView, DraftView, LogStreamView,
    PolicyView, RenderOpts, SavedTabView, SessionView, TabKind,
};
use crate::source::Direction;
use crate::tab::{clamped, max_top, Selection, SelectionAction, TabSearchView, TabView};
use vstd::prelude::*;

verus! {

/// The number after `n`; the largest stays.
pub open spec fn past(n: usize) -> usize {
    if n < usize::MAX {
        (n + 1) as usize
    } else {
        n
    }
}

/// The name of a new tab.
pub open spec fn tab_name(kind: TabKind, number: usize) -> Seq<char> {
    match kind {
        TabKind::Stream => "Tab "@ + decimal(number as nat),
        TabKind::Summary => "Summary "@ + decimal(number as nat),
    }
}

/// What is saved of a tab: where it stands too, if a live view feeds it.
pub open spec fn saved_view(tab: TabView) -> SavedTabView {
    SavedTabView {
        name: tab.name,
        stream: tab.stream,
        kind: tab.kind,
        cursor: if tab.live {
            tab.cursor
        } else {
            None
        },
    }
}

/// The first tab at or after `from` that shows the stream.
pub open spec fn first_tab_of(tabs: Seq<TabView>, stream: u128, from: int) -> Option<int>
    decreases tabs.len() - from,
{
    if from < 0 || from >= tabs.len() {
        None
    } else if tabs[from].stream == stream {
        Some(from)
    } else {
        first_tab_of(tabs, stream, from + 1)
    }
}

/// The first bookmark at or after `from` with the id.
pub open spec fn bookmark_at(bookmarks: Seq<BookmarkView>, id: u128, from: int) -> Option<int>
    decreases bookmarks.len() - from,
{
    if from < 0 || from >= bookmarks.len() {
        None
    } else if bookmarks[from].id == id {
        Some(from)
    } else {
        bookmark_at(bookmarks, id, from + 1)
    }
}

/// The work that a changed filter makes, for the tabs below `end` that show
/// the stream: live views are refiltered, summaries computed anew.
pub open spec fn commands_for_filter(tabs: Seq<TabView>, stream: u128, end: int) -> Seq<CommandView>
    decreases end,
{
    if end <= 0 {
        Seq::empty()
    } else {
        let before = commands_for_filter(tabs, stream, end - 1);
        let tab = tabs[end - 1];
        if tab.stream != stream {
            before
        } else if tab.kind == TabKind::Summary {
            before.push(CommandView::BuildSummary { tab: (end - 1) as usize, stream })
        } else if tab.live {
            before.push(CommandView::Refilter { tab: (end - 1) as usize, stream })
        } else {
            before
        }
    }
}

/// The work that changed render options make, for the tabs below `end` that
/// show the records of the stream.
pub open spec fn commands_for_rendering(
    tabs: Seq<TabView>,
    stream: u128,
    opts: RenderOpts,
    end: int,
) -> Seq<CommandView>
    decreases end,
{
    if end <= 0 {
        Seq::empty()
    } else {
        let before = commands_for_rendering(tabs, stream, opts, end - 1);
        let tab = tabs[end - 1];
        if tab.stream != stream || tab.kind == TabKind::Summary {
            before
        } else if tab.live {
            before.push(
                CommandView::Rerender {
                    tab: (end - 1) as usize,
                    opts,
                    anchor: tab.anchor_event(),
                },
            )
        } else {
            before.push(CommandView::OpenView { tab: (end - 1) as usize, stream })
        }
    }
}

/// A tab once its stream's filter has changed.  What was found or selected
/// by line is void; a live view keeps its place as best it can, and a tab
/// without one starts at the top.
pub open spec fn refiltered_tab(tab: TabView, stream: u128) -> TabView {
    if tab.stream != stream {
        tab
    } else if tab.kind == TabKind::Summary {
        TabView {
            content: ContentView::placeholder(),
            viewport_top: 0,
            search: None,
            select: None,
            ..tab
        }
    } else {
        TabView {
            viewport_top: if tab.live {
                tab.viewport_top
            } else {
                0
            },
            search: None,
            select: None,
            ..tab
        }
    }
}

/// A tab once its stream's render options have changed.  Summaries do not
/// render records; a tab of records without a live view gets one.
pub open spec fn rendered_tab(tab: TabView, stream: u128) -> TabView {
    if tab.stream != stream || tab.kind == TabKind::Summary {
        tab
    } else if tab.live {
        TabView { search: None, ..tab }
    } else {
        TabView {
            live: true,
            content: ContentView::empty(),
            viewport_top: 0,
            search: None,
            ..tab
        }
    }
}

impl DialogView {
    /// Whether the dialog is about the tab on show.
    pub open spec fn over_tab(self) -> bool {
        match self {
            DialogView::ConfirmDeleteBookmark { .. } => false,
            DialogView::ConfirmQuit => false,
            DialogView::SeeitCommand { .. } => false,
            DialogView::Help { .. } => false,
            _ => true,
        }
    }
}

impl AppView {
    /// Whether there is a pane of bookmarks: only where there are bookmarks.
    pub open spec fn has_bookmarks_tab(self) -> bool {
        self.session.bookmarks.len() > 0
    }

    /// Whether the bookmarks are on show.
    pub open spec fn bookmarks_active(self) -> bool {
        self.has_bookmarks_tab() && self.active == self.tabs.len()
    }

    /// The number of panes: the tabs, and the bookmarks where there are any.
    pub open spec fn pane_count(self) -> int {
        self.tabs.len() + if self.has_bookmarks_tab() {
            1int
        } else {
            0
        }
    }

    /// Every tab and every bookmark belongs to a stream of the session.
    pub open spec fn streams_known(self) -> bool {
        &&& forall|i: int|
            0 <= i < self.tabs.len() ==> self.session.streams.dom().contains(
                (#[trigger] self.tabs[i]).stream,
            )
        &&& forall|i: int|
            0 <= i < self.session.bookmarks.len() ==> self.session.streams.dom().contains(
                (#[trigger] self.session.bookmarks[i]).stream,
            )
    }

    /// What holds between any two keys: some tab is open, the pane on show
    /// exists, tabs and bookmarks belong to streams of the session, and a
    /// dialog about a tab is open over one.
    pub open spec fn wf(self) -> bool {
        &&& self.tabs.len() > 0
        &&& self.active < self.tabs.len() || self.bookmarks_active()
        &&& self.time_step_idx < TIME_STEP_COUNT
        &&& forall|i: int| 0 <= i < self.tabs.len() ==> (#[trigger] self.tabs[i]).content.wf()
        &&& self.streams_known()
        &&& self.dialog matches Some(dialog) ==> dialog.over_tab() ==> self.active
            < self.tabs.len()
    }

    /// The tab on show.
    pub open spec fn active_tab(self) -> TabView {
        self.tabs[self.active as int]
    }

    /// The stream of the tab on show.
    pub open spec fn active_stream(self) -> LogStreamView {
        self.session.streams[self.active_tab().stream]
    }

    /// With the tab on show replaced.
    pub open spec fn with_active(self, tab: TabView) -> AppView {
        AppView { tabs: self.tabs.update(self.active as int, tab), ..self }
    }

    /// With a command to be carried out.
    pub open spec fn asking(self, command: CommandView) -> AppView {
        AppView { outbox: self.outbox.push(command), ..self }
    }

    /// With unsaved changes.
    pub open spec fn touched(self) -> AppView {
        AppView { policy: PolicyView { dirty: true, ..self.policy }, ..self }
    }

    /// With the open tabs noted in the session.
    pub open spec fn synced(self) -> AppView {
        AppView {
            session: SessionView {
                tabs: self.tabs.map_values(|t: TabView| saved_view(t)),
                ..self.session
            },
            ..self
        }
    }

    /// Changed in a way that goes to disk right away.
    pub open spec fn saving(self) -> AppView {
        let noted = self.touched().synced();
        if self.stored {
            noted.asking(CommandView::Save)
        } else {
            noted
        }
    }

    /// With a dialog open.
    pub open spec fn asking_user(self, dialog: DialogView) -> AppView {
        AppView { dialog: Some(dialog), ..self }
    }

    /// With a notice.
    pub open spec fn telling(self, notice: Seq<char>) -> AppView {
        AppView { notice: Some(notice), ..self }
    }

    /// With a tab of the stream opened under a new number and on show.
    pub open spec fn tab_shown(self, kind: TabKind, stream: u128) -> AppView {
        AppView {
            tabs: self.tabs.push(
                TabView::opened(tab_name(kind, self.next_tab_number), kind, stream),
            ),
            active: self.tabs.len() as usize,
            next_tab_number: past(self.next_tab_number),
            ..self
        }.asking(
            match kind {
                TabKind::Stream => CommandView::OpenView {
                    tab: self.tabs.len() as usize,
                    stream,
                },
                TabKind::Summary => CommandView::BuildSummary {
                    tab: self.tabs.len() as usize,
                    stream,
                },
            },
        )
    }

    /// With a tab over a fresh stream of the given filter.
    pub open spec fn tab_pushed(
        self,
        kind: TabKind,
        filter: Seq<PredicateView>,
        stream: u128,
    ) -> AppView {
        let added = LogStreamView {
            id: stream,
            name: tab_name(kind, self.next_tab_number),
            filter,
            opts: default_opts(),
        };
        AppView {
            session: SessionView {
                streams: self.session.streams.insert(stream, added),
                ..self.session
            },
            ..self
        }.tab_shown(kind, stream).saving()
    }

    /// With the stream on show filtered anew, in all its tabs.
    pub open spec fn filter_applied(self, filter: Seq<PredicateView>) -> AppView {
        let stream = self.active_tab().stream;
        AppView {
            session: SessionView {
                streams: self.session.streams.insert(
                    stream,
                    LogStreamView { filter, ..self.session.streams[stream] },
                ),
                ..self.session
            },
            tabs: self.tabs.map_values(|t: TabView| refiltered_tab(t, stream)),
            outbox: self.outbox + commands_for_filter(
                self.tabs,
                stream,
                self.tabs.len() as int,
            ),
            ..self
        }.saving()
    }

    /// With the stream on show rendered anew, in all its tabs.
    pub open spec fn opts_applied(self, opts: RenderOpts) -> AppView {
        let stream = self.active_tab().stream;
        AppView {
            session: SessionView {
                streams: self.session.streams.insert(
                    stream,
                    LogStreamView { opts, ..self.session.streams[stream] },
                ),
                ..self.session
            },
            tabs: self.tabs.map_values(|t: TabView| rendered_tab(t, stream)),
            outbox: self.outbox + commands_for_rendering(
                self.tabs,
                stream,
                opts,
                self.tabs.len() as int,
            ),
            ..self
        }.saving()
    }

    /// With the structured fields shown or hidden.
    pub open spec fn extras_toggled(self) -> AppView {
        let opts = self.active_stream().opts;
        self.opts_applied(RenderOpts { show_extras: !opts.show_extras, ..opts })
    }

    /// With the date shown or hidden.
    pub open spec fn date_toggled(self) -> AppView {
        let opts = self.active_stream().opts;
        self.opts_applied(RenderOpts { show_date: !opts.show_date, ..opts })
    }

    /// With records shown raw, or rendered.
    pub open spec fn raw_toggled(self) -> AppView {
        let opts = self.active_stream().opts;
        self.opts_applied(RenderOpts { show_raw: !opts.show_raw, ..opts })
    }

    /// With the tab on show renamed.
    pub open spec fn tab_renamed(self, name: Seq<char>) -> AppView {
        self.with_active(TabView { name, ..self.active_tab() }).saving()
    }

    /// Asking for the command that reproduces the view: there is none for a
    /// session that is not on disk.
    pub open spec fn reproduction_asked(self, selector: SelectorView) -> AppView {
        if self.stored {
            self.synced().asking(CommandView::SaveAndShow(selector))
        } else {
            self.telling("seeit reproduction needs a saved session (this one is transient)"@)
        }
    }

    /// With a bookmark filed under the stream on show.
    pub open spec fn bookmark_added(
        self,
        name: Option<Seq<char>>,
        draft: DraftView,
        fresh: Fresh,
    ) -> AppView {
        let bookmark = BookmarkView {
            id: fresh.bookmark.0,
            stream: self.active_tab().stream,
            created_at: fresh.now,
            name,
            draft,
        };
        AppView {
            session: SessionView {
                bookmarks: filed(self.session.bookmarks, bookmark),
                ..self.session
            },
            ..self
        }.saving()
    }

    /// With a bookmark gone, and its pane too where it was the last.
    pub open spec fn bookmark_deleted(self, id: u128) -> AppView {
        let left = without_id(self.session.bookmarks, id);
        AppView {
            session: SessionView { bookmarks: left, ..self.session },
            bookmark_cursor: if self.bookmark_cursor == Some(id) || left.len() == 0 {
                None
            } else {
                self.bookmark_cursor
            },
            active: if self.bookmarks_active() && left.len() == 0 {
                (self.tabs.len() - 1) as usize
            } else {
                self.active
            },
            ..self
        }.saving()
    }

    /// The bookmarks as listed.
    pub open spec fn flat(self) -> Seq<BookmarkView> {
        flat_of(self.session.bookmarks)
    }

    /// Where in the list the highlighted bookmark is, if it is still there.
    pub open spec fn bookmark_cursor_idx(self) -> Option<int> {
        match self.bookmark_cursor {
            Some(id) => bookmark_at(self.flat(), id, 0),
            None => None,
        }
    }

    /// With the highlight moved by `delta` rows, held within the list; from
    /// the first row where nothing is highlighted.
    pub open spec fn bookmark_cursor_moved(self, delta: int) -> AppView {
        AppView {
            bookmark_cursor: if self.flat().len() == 0 {
                None
            } else {
                let at = match self.bookmark_cursor_idx() {
                    Some(i) => i,
                    None => 0,
                };
                Some(self.flat()[clamped(at + delta, 0, self.flat().len() - 1)].id)
            },
            ..self
        }
    }

    /// Gone to the highlighted bookmark: its stream's tab comes on show, or a
    /// new one opens, and goes to the marked place.
    pub open spec fn bookmark_visited(self) -> AppView {
        match self.bookmark_cursor_idx() {
            None => self,
            Some(i) => {
                let bookmark = self.flat()[i];
                let shown = match first_tab_of(self.tabs, bookmark.stream, 0) {
                    Some(tab) => AppView { active: tab as usize, ..self.touched() },
                    None => self.touched().tab_shown(TabKind::Stream, bookmark.stream).saving(),
                };
                shown.asking(
                    CommandView::CheckBookmark {
                        stream: bookmark.stream,
                        cursor: bookmark.draft.cursor,
                    },
                ).sought_cursor(bookmark.draft.cursor)
            },
        }
    }

    /// The tab on show goes to a cursor.
    pub open spec fn sought_cursor(self, cursor: Map<Seq<char>, ByteOffset>) -> AppView {
        if self.active_tab().live {
            self.touched().asking(CommandView::SeekToCursor { tab: self.active, cursor })
        } else {
            self.touched()
        }
    }

    /// The tab on show goes to its first line.
    pub open spec fn sought_start(self) -> AppView {
        if self.active_tab().live {
            self.touched().asking(CommandView::SeekToStart { tab: self.active })
        } else {
            self.touched().with_active(TabView { viewport_top: 0, ..self.active_tab() })
        }
    }

    /// The tab on show goes to its last line.
    pub open spec fn sought_end(self) -> AppView {
        if self.active_tab().live {
            self.touched().asking(CommandView::SeekToEnd { tab: self.active })
        } else {
            self.touched().with_active(
                TabView {
                    viewport_top: self.active_tab().max_top(
                        self.viewport_height,
                        self.viewport_width,
                    ),
                    ..self.active_tab()
                },
            )
        }
    }

    /// The tab on show scrolled down.
    pub open spec fn scrolled_down(self, lines: usize) -> AppView {
        if self.active_tab().live {
            self.touched().asking(CommandView::ScrollDown { tab: self.active, lines })
        } else {
            self.touched().with_active(
                self.active_tab().scrolled_down(
                    lines as int,
                    self.viewport_height,
                    self.viewport_width,
                ),
            )
        }
    }

    /// The tab on show scrolled up.
    pub open spec fn scrolled_up(self, lines: usize) -> AppView {
        if self.active_tab().live {
            self.touched().asking(CommandView::ScrollUp { tab: self.active, lines })
        } else {
            self.touched().with_active(self.active_tab().scrolled_up(lines as int))
        }
    }

    /// The tab on show moved by a step in time.
    pub open spec fn advanced(self, direction: Direction) -> AppView {
        let millis = time_step(self.time_step_idx as int).1;
        if self.active_tab().live {
            self.touched().asking(
                CommandView::SeekByTime { tab: self.active, direction, millis },
            )
        } else {
            self.touched().with_active(
                self.active_tab().advanced(
                    direction,
                    millis,
                    self.viewport_height,
                    self.viewport_width,
                ),
            )
        }
    }

    /// With the next larger time step; the largest stays.
    pub open spec fn time_step_increased(self) -> AppView {
        AppView {
            time_step_idx: if self.time_step_idx + 1 < TIME_STEP_COUNT {
                (self.time_step_idx + 1) as usize
            } else {
                self.time_step_idx
            },
            ..self
        }
    }

    /// With the next smaller time step; the smallest stays.
    pub open spec fn time_step_decreased(self) -> AppView {
        AppView {
            time_step_idx: if self.time_step_idx > 0 {
                (self.time_step_idx - 1) as usize
            } else {
                0
            },
            ..self
        }
    }

    /// The next pane on show; after the last, the first.
    pub open spec fn next_pane(self) -> AppView {
        AppView {
            active: if self.active + 1 < self.pane_count() {
                (self.active + 1) as usize
            } else {
                0
            },
            notice: None,
            ..self
        }
    }

    /// The previous pane on show; before the first, the last.
    pub open spec fn prev_pane(self) -> AppView {
        AppView {
            active: if self.active > 0 {
                (self.active - 1) as usize
            } else {
                (self.pane_count() - 1) as usize
            },
            notice: None,
            ..self
        }
    }

    /// With the tab on show closed.  The last one to go makes way for a
    /// fresh one; the bookmarks cannot be closed.
    pub open spec fn tab_closed(self, fresh: Fresh) -> AppView {
        if self.bookmarks_active() {
            self
        } else {
            let left = AppView {
                tabs: self.tabs.remove(self.active as int),
                ..self
            }.asking(CommandView::CloseView { tab: self.active });
            if left.tabs.len() == 0 {
                left.tab_pushed(TabKind::Stream, Seq::empty(), fresh.stream.0).saving()
            } else if left.active >= left.tabs.len() {
                AppView { active: (left.tabs.len() - 1) as usize, ..left }.saving()
            } else {
                left.saving()
            }
        }
    }

    /// With the search of the tab on show set.
    pub open spec fn search_set(self, pattern: Seq<char>) -> AppView {
        let tab = self.active_tab();
        self.with_active(
            TabView {
                search: Some(TabSearchView { pattern, matches: tab.match_lines(pattern) }),
                ..tab
            },
        )
    }

    /// With the search of the tab on show being for the pattern.
    pub open spec fn search_ensured(self, pattern: Seq<char>) -> AppView {
        let tab = self.active_tab();
        if tab.search matches Some(search) && search.pattern == pattern {
            self
        } else if regex_error(pattern) is None {
            self.search_set(pattern)
        } else {
            self
        }
    }

    /// With the pattern at the head of the history and the last searched for.
    pub open spec fn search_noted(self, pattern: Seq<char>, direction: SearchDirection) -> AppView {
        AppView {
            session: SessionView {
                search_history: recorded(self.session.search_history, pattern),
                ..self.session
            },
            last_search: Some(LastSearchView { pattern, direction }),
            ..self
        }
    }

    /// The tab on show goes to the next match.
    pub open spec fn jumped(self, direction: SearchDirection, anchor: SearchAnchor) -> AppView {
        let tab = self.active_tab();
        match tab.search {
            None => self.touched(),
            Some(search) => if tab.live {
                self.touched().asking(
                    CommandView::SeekForSearch {
                        tab: self.active,
                        direction: match direction {
                            SearchDirection::Forward => Direction::Forward,
                            SearchDirection::Backward => Direction::Backward,
                        },
                        pattern: search.pattern,
                    },
                )
            } else {
                match target_line(search.matches, tab.viewport_top, direction, anchor) {
                    Some(line) => self.touched().with_active(
                        TabView { viewport_top: line, ..tab },
                    ),
                    None => self.touched(),
                }
            },
        }
    }

    /// Searched for a new pattern: a match at the top counts.
    pub open spec fn searched(self, pattern: Seq<char>, direction: SearchDirection) -> AppView {
        self.search_set(pattern).search_noted(pattern, direction).jumped(
            direction,
            SearchAnchor::Include,
        )
    }

    /// Searched again for the last pattern, the given way from now on.
    pub open spec fn search_repeated(self, direction: SearchDirection) -> AppView {
        match self.last_search {
            None => self,
            Some(last) => self.search_ensured(last.pattern).search_noted(
                last.pattern,
                direction,
            ).jumped(direction, SearchAnchor::Skip),
        }
    }

    /// On to the next match of the last pattern, the given way this once.
    pub open spec fn search_stepped(self, direction: SearchDirection) -> AppView {
        match self.last_search {
            None => self,
            Some(last) => self.search_ensured(last.pattern).jumped(
                direction,
                SearchAnchor::Skip,
            ),
        }
    }

    /// Selecting a record, from the one at the top on; nothing where there
    /// are no records.
    pub open spec fn selection_started(self, action: SelectionAction) -> AppView {
        let tab = self.active_tab();
        if tab.content.events.len() == 0 {
            self
        } else {
            let event_idx = match tab.anchor_event() {
                Some(event) => event,
                None => (tab.content.events.len() - 1) as usize,
            };
            self.with_active(TabView { select: Some(Selection { event_idx, action }), ..tab })
        }
    }

    /// The record of the tab, where it is there and could be read.
    pub open spec fn record_at(self, tab: int, event: int) -> Option<RowView> {
        if 0 <= tab < self.tabs.len() && 0 <= event < self.tabs[tab].content.events.len()
            && self.tabs[tab].content.events[event] is Event {
            Some(self.tabs[tab].content.events[event])
        } else {
            None
        }
    }

    /// The filter with a condition on messages added.
    pub open spec fn narrowed(filter: Seq<PredicateView>, row: RowView, form: Form) -> Seq<
        PredicateView,
    > {
        filter.push(
            PredicateView::FieldEquals {
                field: FieldNameView::Msg,
                value: row->Event_event.msg,
                form,
            },
        )
    }

    /// What a bookmark of the record would say.
    pub open spec fn draft_of(row: RowView, cursor: Map<Seq<char>, ByteOffset>) -> DraftView {
        DraftView {
            cursor,
            display_source: row->Event_source,
            display_time: row->Event_event.time,
            display_name: row->Event_event.name,
            display_msg: preview(row->Event_event.msg),
        }
    }

    /// Asking for the name of a bookmark of the record, the selection done.
    pub open spec fn bookmark_drafted(
        self,
        row: RowView,
        cursor: Map<Seq<char>, ByteOffset>,
    ) -> AppView {
        self.asking_user(
            DialogView::BookmarkName {
                editor: showing(Seq::empty()),
                draft: AppView::draft_of(row, cursor),
            },
        ).with_active(TabView { select: None, ..self.active_tab() })
    }

    /// The selected record kept out, kept in or bookmarked.  Nothing where
    /// it could not be read: the user picks another or leaves.
    pub open spec fn selection_committed(self) -> AppView {
        match self.active_tab().select {
            None => self,
            Some(sel) => match self.record_at(self.active as int, sel.event_idx as int) {
                None => self,
                Some(row) => match sel.action {
                    SelectionAction::Exclude => self.filter_applied(
                        AppView::narrowed(self.active_stream().filter, row, Form::Negated),
                    ),
                    SelectionAction::Include => self.filter_applied(
                        AppView::narrowed(self.active_stream().filter, row, Form::Affirmed),
                    ),
                    SelectionAction::Bookmark => if self.active_tab().live {
                        self.asking(
                            CommandView::LocateRecord {
                                tab: self.active,
                                event: sel.event_idx,
                            },
                        )
                    } else {
                        self.bookmark_drafted(row, Map::empty())
                    },
                },
            },
        }
    }

    /// What the dialog's outcome does.  Any outcome but to stay closes it.
    pub open spec fn dialog_done(
        self,
        dialog: DialogView,
        result: ResultView,
        fresh: Fresh,
    ) -> AppView {
        let closed = AppView { dialog: None, ..self };
        match result {
            ResultView::Stay => AppView { dialog: Some(dialog), ..self },
            ResultView::Cancel => closed,
            ResultView::ApplyFilter(filter) => closed.filter_applied(filter),
            ResultView::ApplyRename(name) => closed.tab_renamed(name),
            ResultView::ApplySearch { pattern, direction } => closed.searched(pattern, direction),
            ResultView::RepeatSearch(direction) => closed.search_repeated(direction),
            ResultView::ApplyBookmark { name, draft } => closed.bookmark_added(
                name,
                draft,
                fresh,
            ),
            ResultView::ApplyDeleteBookmark(id) => closed.bookmark_deleted(id),
            ResultView::ApplyQuit => AppView { quit: true, ..closed },
            ResultView::ApplyDisplayFields(opts) => closed.opts_applied(opts),
        }
    }

    /// The number that the next tab gets once tabs with the given names are
    /// back: past every number in use.
    pub open spec fn next_number(saved: Seq<SavedTabView>, first: usize) -> usize
        decreases saved.len(),
    {
        if saved.len() == 0 {
            first
        } else {
            let before = AppView::next_number(saved.drop_last(), first);
            match tab_number(saved.last().name) {
                Some(n) => if past(n) > before {
                    past(n)
                } else {
                    before
                },
                None => before,
            }
        }
    }

    /// With the saved tabs open again, leaving out those whose stream is
    /// gone; each goes back to where it stood.
    pub open spec fn tabs_restored(self, saved: Seq<SavedTabView>) -> AppView
        decreases saved.len(),
    {
        if saved.len() == 0 {
            self
        } else {
            let before = self.tabs_restored(saved.drop_last());
            let tab = saved.last();
            if !self.session.streams.dom().contains(tab.stream) {
                before
            } else {
                before.tab_restored(tab)
            }
        }
    }

    /// With one saved tab open again.
    pub open spec fn tab_restored(self, saved: SavedTabView) -> AppView {
        let at = self.tabs.len() as usize;
        let open = AppView {
            tabs: self.tabs.push(TabView::opened(saved.name, saved.kind, saved.stream)),
            ..self
        };
        match saved.kind {
            TabKind::Summary => open.asking(
                CommandView::BuildSummary { tab: at, stream: saved.stream },
            ),
            TabKind::Stream => {
                let fed = open.asking(CommandView::OpenView { tab: at, stream: saved.stream });
                match saved.cursor {
                    Some(cursor) => fed.asking(CommandView::SeekToCursor { tab: at, cursor }),
                    None => fed,
                }
            },
        }
    }

    /// The application over a session: its saved tabs open again, or one
    /// fresh tab where there are none to open.
    pub open spec fn started(
        session: SessionView,
        stored: bool,
        policy: PolicyView,
        fresh: Fresh,
    ) -> AppView {
        let bare = AppView {
            session: SessionView { tabs: Seq::empty(), ..session },
            tabs: Seq::empty(),
            active: 0,
            next_tab_number: AppView::next_number(session.tabs, 1),
            viewport_height: 0,
            viewport_width: 0,
            quit: false,
            dialog: None,
            last_search: None,
            time_step_idx: DEFAULT_TIME_STEP_IDX,
            bookmark_cursor: None,
            notice: None,
            stored,
            policy,
            show_fetch_stats: false,
            outbox: Seq::empty(),
        };
        let restored = bare.tabs_restored(session.tabs);
        if restored.tabs.len() > 0 {
            restored
        } else {
            bare.tab_pushed(TabKind::Stream, Seq::empty(), fresh.stream.0)
        }
    }

    /// Fitted to a content area of the given size.  A change of size is
    /// noted; a tab on show is scrolled back where less of it is left below
    /// than fits.
    pub open spec fn fitted(self, height: u16, width: u16) -> AppView {
        let sized = AppView { viewport_height: height, viewport_width: width, ..self };
        let noted = if self.viewport_height != height || self.viewport_width != width {
            sized.touched()
        } else {
            sized
        };
        if self.bookmarks_active() || self.active >= self.tabs.len() {
            noted
        } else {
            let tab = self.active_tab();
            let max = tab.max_top(height, width);
            if tab.viewport_top > max {
                noted.with_active(TabView { viewport_top: max, ..tab })
            } else {
                noted
            }
        }
    }

    /// A tab whose live view has moved.  Where its anchor had run past the
    /// last line that may stand at the top, it is called back.
    pub open spec fn view_moved(
        self,
        tab: int,
        content: ContentView,
        cursor: Option<Map<Seq<char>, ByteOffset>>,
        anchor: usize,
    ) -> AppView {
        if !(0 <= tab < self.tabs.len() && self.tabs[tab].live) {
            self
        } else {
            let max = max_top(content.formatted, self.viewport_height, self.viewport_width);
            let moved = AppView {
                tabs: self.tabs.update(
                    tab,
                    self.tabs[tab].resynced(
                        content,
                        cursor,
                        anchor,
                        self.viewport_height,
                        self.viewport_width,
                    ),
                ),
                ..self
            };
            if anchor > max {
                moved.asking(CommandView::SetAnchor { tab: tab as usize, line: max })
            } else {
                moved
            }
        }
    }

    /// A tab whose live view has rendered its records anew.
    pub open spec fn view_rerendered(
        self,
        tab: int,
        content: ContentView,
        anchor: Option<usize>,
    ) -> AppView {
        if !(0 <= tab < self.tabs.len() && self.tabs[tab].live) {
            self
        } else {
            AppView {
                tabs: self.tabs.update(tab, self.tabs[tab].rerendered(content, anchor)),
                ..self
            }
        }
    }

    /// A summary whose computation begins.
    pub open spec fn summary_started(self, tab: int) -> AppView {
        if !(0 <= tab < self.tabs.len() && self.tabs[tab].kind == TabKind::Summary) {
            self
        } else {
            AppView {
                tabs: self.tabs.update(
                    tab,
                    TabView {
                        content: ContentView::placeholder(),
                        viewport_top: 0,
                        search: None,
                        ..self.tabs[tab]
                    },
                ),
                ..self
            }
        }
    }

    /// An operation that has been stopped.  A summary says so in its tab, the
    /// others in a notice.
    pub open spec fn long_op_cancelled(self, stopped: CancelledView) -> AppView {
        match stopped {
            CancelledView::Nothing => self,
            CancelledView::Summary(tab_idx) => self.summary_built(
                tab_idx.0 as int,
                ContentView::cancelled(),
            ),
            CancelledView::Search => self.telling("search cancelled"@),
            CancelledView::Seek(label) => self.telling(label + " cancelled"@),
        }
    }

    /// A summary that has been computed.
    pub open spec fn summary_built(self, tab: int, content: ContentView) -> AppView {
        if !(0 <= tab < self.tabs.len() && self.tabs[tab].kind == TabKind::Summary) {
            self
        } else {
            AppView {
                tabs: self.tabs.update(
                    tab,
                    TabView { content, viewport_top: 0, ..self.tabs[tab] },
                ),
                ..self
            }
        }
    }

    /// The record to bookmark has been located.
    pub open spec fn record_located(
        self,
        tab: int,
        event: int,
        cursor: Map<Seq<char>, ByteOffset>,
    ) -> AppView {
        if self.active != tab || self.dialog is Some {
            self
        } else {
            match self.record_at(tab, event) {
                Some(row) => self.bookmark_drafted(row, cursor),
                None => self,
            }
        }
    }
}

} // verus!
