//! What holds of the application as a whole.

use super::{Answers, AppView, Fresh, TIME_STEP_COUNT};
use crate::command::SelectorView;
use crate::filter::PredicateView;
use crate::key::{KeyCode, KeyEvent, KeyEventKind};
use crate::number::tab_number;
use crate::search::SearchDirection;
use crate::session::{PolicyView, RenderOpts, SavedTabView, TabKind};
use crate::tab::TabView;
use vstd::prelude::*;

verus! {

/// Key repeats and releases do nothing.
pub proof fn law_only_presses_count(
    app: AppView,
    key: KeyEvent,
    answers: Answers,
    fresh: Fresh,
)
    requires
        key.kind != KeyEventKind::Press,
    ensures
        app.pressed(key, answers, fresh) == app,
{
}

/// An open dialog gets every key: while it stays open, nothing else changes,
/// but for the notice, which goes.
pub proof fn law_dialogs_take_every_key(
    app: AppView,
    key: KeyEvent,
    answers: Answers,
    fresh: Fresh,
)
    requires
        app.dialog is Some,
        key.kind == KeyEventKind::Press,
        app.pressed(key, answers, fresh).dialog is Some,
    ensures
        app.pressed(key, answers, fresh) == (AppView {
            dialog: app.pressed(key, answers, fresh).dialog,
            notice: None,
            ..app
        }),
{
}

/// Esc closes any dialog, and that is all it does, but for the notice.
pub proof fn law_esc_closes_any_dialog(
    app: AppView,
    key: KeyEvent,
    answers: Answers,
    fresh: Fresh,
)
    requires
        app.dialog is Some,
        key.kind == KeyEventKind::Press,
        key.bare(KeyCode::Esc),
    ensures
        app.pressed(key, answers, fresh) == (AppView { dialog: None, notice: None, ..app }),
{
}

/// A notice lasts until the next key: wherever the key goes, what comes of it
/// is as if there had been none.
pub proof fn law_keys_clear_the_notice(
    app: AppView,
    key: KeyEvent,
    answers: Answers,
    fresh: Fresh,
)
    requires
        key.kind == KeyEventKind::Press,
    ensures
        app.pressed(key, answers, fresh) == (AppView { notice: None, ..app }).pressed(
            key,
            answers,
            fresh,
        ),
{
}

/// Going to the next pane and back, or back and on, returns to the pane on
/// show.
pub proof fn law_panes_cycle(app: AppView)
    requires
        app.wf(),
        app.tabs.len() <= usize::MAX,
    ensures
        app.next_pane().prev_pane() == (AppView { notice: None, ..app }),
        app.prev_pane().next_pane() == (AppView { notice: None, ..app }),
        app.next_pane().active < app.pane_count(),
        app.prev_pane().active < app.pane_count(),
{
}

/// Bookmarks have a pane exactly while there are any.  It comes without
/// being switched to, and when its last bookmark goes a tab is shown.
pub proof fn law_bookmarks_pane_follows_bookmarks(app: AppView, id: u128)
    requires
        app.wf(),
        app.tabs.len() <= usize::MAX,
    ensures
        app.has_bookmarks_tab() == (app.session.bookmarks.len() > 0),
        !app.bookmark_deleted(id).has_bookmarks_tab() ==> app.bookmark_deleted(id).active
            < app.tabs.len(),
        app.bookmark_deleted(id).has_bookmarks_tab() ==> app.bookmark_deleted(id).active
            == app.active,
        app.bookmark_deleted(id).bookmark_cursor != Some(id),
{
}

/// Making a bookmark leaves the pane on show.
pub proof fn law_bookmarking_keeps_the_pane(
    app: AppView,
    name: Option<Seq<char>>,
    draft: crate::session::DraftView,
    fresh: Fresh,
)
    ensures
        app.bookmark_added(name, draft, fresh).active == app.active,
        app.bookmark_added(name, draft, fresh).tabs == app.tabs,
        app.bookmark_added(name, draft, fresh).session.streams == app.session.streams,
{
}

/// A filter belongs to its stream: changing it changes that stream alone,
/// voids search and selection in each of its tabs, and leaves the tabs of
/// other streams as they are.
pub proof fn law_filter_is_shared_by_the_streams_tabs(app: AppView, filter: Seq<PredicateView>)
    requires
        app.wf(),
        app.active < app.tabs.len(),
    ensures
        ({
            let stream = app.active_tab().stream;
            let after = app.filter_applied(filter);
            &&& after.session.streams[stream].filter == filter
            &&& after.session.streams.dom() == app.session.streams.dom()
            &&& forall|id: u128|
                id != stream ==> #[trigger] after.session.streams[id]
                    == app.session.streams[id]
            &&& after.tabs.len() == app.tabs.len()
            &&& forall|i: int|
                0 <= i < app.tabs.len() ==> {
                    let tab = #[trigger] after.tabs[i];
                    &&& tab.name == app.tabs[i].name
                    &&& tab.stream == app.tabs[i].stream
                    &&& if app.tabs[i].stream == stream {
                        tab.search is None && tab.select is None
                    } else {
                        tab == app.tabs[i]
                    }
                }
        }),
{
    let stream = app.active_tab().stream;
    assert(app.session.streams.dom().contains(app.tabs[app.active as int].stream));
    assert(app.filter_applied(filter).session.streams.dom() =~= app.session.streams.dom());
}

/// Render options belong to the stream: setting them changes those of the
/// stream on show, and neither its filter nor which stream that is.
pub proof fn law_render_opts_apply_to_the_stream(app: AppView, opts: RenderOpts)
    requires
        app.active < app.tabs.len(),
    ensures
        app.opts_applied(opts).active_tab().stream == app.active_tab().stream,
        app.opts_applied(opts).active_stream().opts == opts,
        app.opts_applied(opts).active_stream().filter == app.active_stream().filter,
        app.opts_applied(opts).active == app.active,
        app.opts_applied(opts).tabs.len() == app.tabs.len(),
{
}

/// Toggling what is shown twice restores it.
pub proof fn law_toggles_undo_themselves(app: AppView)
    requires
        app.active < app.tabs.len(),
    ensures
        app.extras_toggled().extras_toggled().active_stream().opts == app.active_stream().opts,
        app.date_toggled().date_toggled().active_stream().opts == app.active_stream().opts,
        app.raw_toggled().raw_toggled().active_stream().opts == app.active_stream().opts,
{
    let opts = app.active_stream().opts;
    let extras = RenderOpts { show_extras: !opts.show_extras, ..opts };
    let date = RenderOpts { show_date: !opts.show_date, ..opts };
    let raw = RenderOpts { show_raw: !opts.show_raw, ..opts };
    law_render_opts_apply_to_the_stream(app, extras);
    law_render_opts_apply_to_the_stream(app.opts_applied(extras), opts);
    law_render_opts_apply_to_the_stream(app, date);
    law_render_opts_apply_to_the_stream(app.opts_applied(date), opts);
    law_render_opts_apply_to_the_stream(app, raw);
    law_render_opts_apply_to_the_stream(app.opts_applied(raw), opts);
}

/// The number of a new tab has not been used before, and using it up takes
/// it out of use: the numbers only grow, whatever key is pressed.
pub proof fn law_tab_numbers_grow(app: AppView, key: KeyEvent, answers: Answers, fresh: Fresh)
    ensures
        app.pressed(key, answers, fresh).next_tab_number >= app.next_tab_number,
        app.next_tab_number < usize::MAX ==> {
            &&& app.tab_shown(TabKind::Stream, fresh.stream.0).next_tab_number
                > app.next_tab_number
            &&& app.tab_shown(TabKind::Summary, fresh.stream.0).next_tab_number
                > app.next_tab_number
        },
{
}

/// Larger and smaller time steps undo each other within the table, and stop
/// at its ends.
pub proof fn law_time_steps_stop_at_the_ends(app: AppView)
    requires
        app.wf(),
    ensures
        app.time_step_increased().time_step_idx < TIME_STEP_COUNT,
        app.time_step_idx + 1 < TIME_STEP_COUNT ==> app.time_step_increased().time_step_decreased()
            == app,
        app.time_step_idx > 0 ==> app.time_step_decreased().time_step_increased() == app,
        app.time_step_idx + 1 == TIME_STEP_COUNT ==> app.time_step_increased() == app,
        app.time_step_idx == 0 ==> app.time_step_decreased() == app,
{
}

/// Longer steps come later in the table.
pub proof fn law_time_steps_ascend(i: int, j: int)
    requires
        0 <= i < j < TIME_STEP_COUNT,
    ensures
        0 < super::time_step(i).1 < super::time_step(j).1,
{
}

/// Stepping through matches does not change what was searched for, nor the
/// direction that later steps take; repeating a search through the prompt
/// takes on the prompt's direction.
pub proof fn law_steps_keep_the_search(app: AppView, direction: SearchDirection)
    ensures
        app.search_stepped(direction).last_search == app.last_search,
        app.search_stepped(direction).session.search_history == app.session.search_history,
        app.last_search is None ==> app.search_repeated(direction) == app,
        app.last_search matches Some(last) ==> {
            let after = app.search_repeated(direction).last_search;
            after matches Some(next) && next.pattern == last.pattern && next.direction
                == direction
        },
{
}

/// What changes a session is unsaved until a save succeeds: a failed one
/// leaves it due.
pub proof fn law_changes_stay_due_until_saved(app: AppView, error: Seq<char>, now: u64)
    requires
        now >= app.policy.last_saved,
        now - app.policy.last_saved >= app.policy.debounce,
    ensures
        app.saving().telling(error).policy.due(now),
        app.touched().policy.due(now),
{
}

/// A session that is not kept on disk is never asked to be saved.
pub proof fn law_transient_sessions_are_not_saved(app: AppView, selector: SelectorView)
    requires
        !app.stored,
    ensures
        app.saving().outbox == app.outbox,
        app.reproduction_asked(selector).outbox == app.outbox,
{
}

/// Keys that edit, search or change tabs do nothing to the list of
/// bookmarks.
pub proof fn law_bookmarks_pane_drops_other_keys(app: AppView, key: KeyEvent)
    requires
        key.code == KeyCode::Char('f') || key.code == KeyCode::Char('/') || key.code
            == KeyCode::Char('?') || key.code == KeyCode::Char('n') || key.code == KeyCode::Char(
            't',
        ) || key.code == KeyCode::Char('w') || key.code == KeyCode::Char('>') || key.code
            == KeyCode::Char('<') || key.code == KeyCode::Esc,
    ensures
        app.bookmarks_key(key) == app,
{
}

/// A record that could not be read cannot be committed: the selection goes
/// on.
pub proof fn law_errors_are_not_committed(app: AppView)
    requires
        app.active < app.tabs.len(),
        app.active_tab().select matches Some(sel) && app.record_at(
            app.active as int,
            sel.event_idx as int,
        ) is None,
    ensures
        app.selection_committed() == app,
{
}

/// The tabs of a saved session, as far as they say what they show.
pub open spec fn same_tab(tab: TabView, saved: SavedTabView) -> bool {
    tab.name == saved.name && tab.stream == saved.stream && tab.kind == saved.kind
}

proof fn lemma_tabs_restored(bare: AppView, saved: Seq<SavedTabView>)
    requires
        bare.tabs.len() == 0,
        forall|i: int|
            0 <= i < saved.len() ==> bare.session.streams.dom().contains(
                (#[trigger] saved[i]).stream,
            ),
    ensures
        ({
            let after = bare.tabs_restored(saved);
            &&& after.session == bare.session
            &&& after.active == bare.active
            &&& after.next_tab_number == bare.next_tab_number
            &&& after.tabs.len() == saved.len()
            &&& forall|i: int|
                0 <= i < saved.len() ==> same_tab(#[trigger] after.tabs[i], saved[i])
        }),
    decreases saved.len(),
{
    if saved.len() > 0 {
        let rest = saved.drop_last();
        assert forall|i: int| 0 <= i < rest.len() implies bare.session.streams.dom().contains(
            (#[trigger] rest[i]).stream,
        ) by {
            assert(rest[i] == saved[i]);
        }
        lemma_tabs_restored(bare, rest);
        assert(bare.session.streams.dom().contains(saved[saved.len() - 1].stream));
        let before = bare.tabs_restored(rest);
        let after = bare.tabs_restored(saved);
        assert forall|i: int| 0 <= i < saved.len() implies same_tab(
            #[trigger] after.tabs[i],
            saved[i],
        ) by {
            if i < rest.len() {
                assert(after.tabs[i] == before.tabs[i]);
                assert(same_tab(before.tabs[i], rest[i]));
            }
        }
    }
}

proof fn lemma_next_number_is_past(saved: Seq<SavedTabView>, first: usize, i: int, n: usize)
    requires
        0 <= i < saved.len(),
        tab_number(saved[i].name) == Some(n),
        n < usize::MAX,
    ensures
        AppView::next_number(saved, first) > n,
    decreases saved.len(),
{
    if i < saved.len() - 1 {
        assert(saved.drop_last()[i] == saved[i]);
        lemma_next_number_is_past(saved.drop_last(), first, i, n);
    }
}

/// A session that was saved and is opened again shows the same tabs in the
/// same order, and numbers new ones past every number in use.
pub proof fn law_resumed_session_shows_the_same_tabs(
    app: AppView,
    stored: bool,
    policy: PolicyView,
    fresh: Fresh,
)
    requires
        app.wf(),
    ensures
        ({
            let resumed = AppView::started(app.synced().session, stored, policy, fresh);
            &&& resumed.tabs.len() == app.tabs.len()
            &&& forall|i: int|
                0 <= i < app.tabs.len() ==> {
                    &&& (#[trigger] resumed.tabs[i]).name == app.tabs[i].name
                    &&& resumed.tabs[i].stream == app.tabs[i].stream
                    &&& resumed.tabs[i].kind == app.tabs[i].kind
                }
            &&& resumed.session.streams == app.session.streams
            &&& resumed.session.bookmarks == app.session.bookmarks
            &&& resumed.session.search_history == app.session.search_history
            &&& forall|i: int|
                0 <= i < app.tabs.len() ==> match #[trigger] tab_number(app.tabs[i].name) {
                    Some(n) => n < usize::MAX ==> resumed.next_tab_number > n,
                    None => true,
                }
        }),
{
    let session = app.synced().session;
    let saved = session.tabs;
    let resumed = AppView::started(session, stored, policy, fresh);
    assert(saved.len() == app.tabs.len());
    assert forall|i: int| 0 <= i < saved.len() implies session.streams.dom().contains(
        (#[trigger] saved[i]).stream,
    ) by {
        assert(app.session.streams.dom().contains(app.tabs[i].stream));
    }
    let bare = AppView {
        session: crate::session::SessionView { tabs: Seq::empty(), ..session },
        tabs: Seq::empty(),
        active: 0,
        next_tab_number: AppView::next_number(saved, 1),
        viewport_height: 0,
        viewport_width: 0,
        quit: false,
        dialog: None,
        last_search: None,
        time_step_idx: super::DEFAULT_TIME_STEP_IDX,
        bookmark_cursor: None,
        notice: None,
        stored,
        policy,
        show_fetch_stats: false,
        outbox: Seq::empty(),
    };
    lemma_tabs_restored(bare, saved);
    assert(resumed == bare.tabs_restored(saved));
    assert forall|i: int| 0 <= i < app.tabs.len() implies {
        &&& (#[trigger] resumed.tabs[i]).name == app.tabs[i].name
        &&& resumed.tabs[i].stream == app.tabs[i].stream
        &&& resumed.tabs[i].kind == app.tabs[i].kind
    } by {
        assert(same_tab(resumed.tabs[i], saved[i]));
    }
    assert forall|i: int| 0 <= i < app.tabs.len() implies match #[trigger] tab_number(
        app.tabs[i].name,
    ) {
        Some(n) => n < usize::MAX ==> resumed.next_tab_number > n,
        None => true,
    } by {
        assert(saved[i].name == app.tabs[i].name);
        if let Some(n) = tab_number(app.tabs[i].name) {
            if n < usize::MAX {
                lemma_next_number_is_past(saved, 1, i, n);
            }
        }
    }
}

} // verus!
