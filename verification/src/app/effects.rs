//! What the operations do, told by what can be seen before and after: which
//! tab, which stream, which command.

use super::{Answers, AppView, Fresh};
use crate::command::{CommandView, SelectorView};
use crate::dialog::{DialogView, ResultView};
use crate::filter::{FieldNameView, Form, PredicateView};
use crate::key::{KeyCode, KeyEvent, KeyEventKind};
use crate::position::ByteOffset;
use crate::pattern::{regex_error, regex_is_match};
use crate::rows::{ContentView, RowView};
use crate::search::{law_matches_ascend, law_search_lands_on_the_nearest_match, matching};
use crate::search::{SearchAnchor, SearchDirection};
use crate::session::{
    BookmarkView, DraftView, HostnameDisplay, LogStreamView, PolicyView, RenderOpts, SavedTabView,
    SessionView, TabKind,
};
use crate::source::Direction;
use crate::tab::{SelectionAction, TabView};
use vstd::prelude::*;

verus! {

/// Whether the key is this one, pressed with no modifier.
pub open spec fn pressed_alone(key: KeyEvent, code: KeyCode) -> bool {
    &&& key.kind == KeyEventKind::Press
    &&& key.code == code
    &&& !key.modifiers.shift && !key.modifiers.control && !key.modifiers.alt
        && !key.modifiers.other
}

/// Whether the key is this one, pressed with Control alone.
pub open spec fn pressed_with_control(key: KeyEvent, code: KeyCode) -> bool {
    &&& key.kind == KeyEventKind::Press
    &&& key.code == code
    &&& !key.modifiers.shift && key.modifiers.control && !key.modifiers.alt
        && !key.modifiers.other
}

/// Whether a tab is on show and takes the keys: no dialog is open and nothing
/// is being selected.
pub open spec fn over_a_tab(app: AppView) -> bool {
    &&& app.wf()
    &&& app.dialog is None
    &&& app.active < app.tabs.len()
    &&& app.tabs[app.active as int].select is None
}

/// Whether `after` has all that `before` asked for, and one command more.
pub open spec fn asks_one_more(before: AppView, after: AppView, command: CommandView) -> bool {
    &&& after.outbox.len() == before.outbox.len() + 1
    &&& forall|k: int|
        0 <= k < before.outbox.len() ==> #[trigger] after.outbox[k] == before.outbox[k]
    &&& after.outbox[before.outbox.len() as int] == command
}

/// Keeping out or keeping in what is selected narrows the stream's filter:
/// every condition that was there is still there at its place, and there is
/// exactly one more, the last: that the message is not, or is, the selected
/// record's.  No other stream's filter changes, and the selection is over.
pub proof fn law_committing_narrows_the_filter(app: AppView)
    requires
        app.wf(),
        app.active < app.tabs.len(),
        app.tabs[app.active as int].select is Some,
        app.tabs[app.active as int].select->Some_0.action != SelectionAction::Bookmark,
        app.tabs[app.active as int].select->Some_0.event_idx
            < app.tabs[app.active as int].content.events.len(),
        app.tabs[app.active as int].content.events[app.tabs[app.active as int].select->Some_0.event_idx as int] is Event,
    ensures
        ({
            let tab = app.tabs[app.active as int];
            let sel = tab.select->Some_0;
            let row = tab.content.events[sel.event_idx as int];
            let after = app.selection_committed();
            let old_filter = app.session.streams[tab.stream].filter;
            let new_filter = after.session.streams[tab.stream].filter;
            &&& new_filter.len() == old_filter.len() + 1
            &&& forall|i: int|
                0 <= i < old_filter.len() ==> #[trigger] new_filter[i] == old_filter[i]
            &&& new_filter[old_filter.len() as int] == (PredicateView::FieldEquals {
                field: FieldNameView::Msg,
                value: row->Event_event.msg,
                form: if sel.action == SelectionAction::Exclude {
                    Form::Negated
                } else {
                    Form::Affirmed
                },
            })
            &&& forall|id: u128|
                id != tab.stream ==> #[trigger] after.session.streams[id]
                    == app.session.streams[id]
            &&& after.session.streams.dom() == app.session.streams.dom()
            &&& after.tabs[app.active as int].select is None
            &&& after.active == app.active
        }),
{
    let tab = app.tabs[app.active as int];
    assert(app.session.streams.dom().contains(tab.stream));
    assert(app.selection_committed().session.streams.dom() =~= app.session.streams.dom());
}

proof fn lemma_filter_commands(tabs: Seq<TabView>, stream: u128, end: int)
    requires
        0 <= end <= tabs.len() <= usize::MAX,
    ensures
        ({
            let asked = super::commands_for_filter(tabs, stream, end);
            &&& forall|k: int|
                0 <= k < asked.len() ==> match #[trigger] asked[k] {
                    CommandView::Refilter { tab, stream: of } => of == stream && tab < end
                        && tabs[tab as int].stream == stream && tabs[tab as int].kind
                        == TabKind::Stream && tabs[tab as int].live,
                    CommandView::BuildSummary { tab, stream: of } => of == stream && tab < end
                        && tabs[tab as int].stream == stream && tabs[tab as int].kind
                        == TabKind::Summary,
                    _ => false,
                }
            &&& forall|i: int|
                0 <= i < end && (#[trigger] tabs[i]).stream == stream && tabs[i].kind
                    == TabKind::Summary ==> asked.contains(
                    CommandView::BuildSummary { tab: i as usize, stream },
                )
            &&& forall|i: int|
                0 <= i < end && (#[trigger] tabs[i]).stream == stream && tabs[i].kind
                    == TabKind::Stream && tabs[i].live ==> asked.contains(
                    CommandView::Refilter { tab: i as usize, stream },
                )
        }),
    decreases end,
{
    if end > 0 {
        lemma_filter_commands(tabs, stream, end - 1);
        let before = super::commands_for_filter(tabs, stream, end - 1);
        let asked = super::commands_for_filter(tabs, stream, end);
        assert forall|c: CommandView| before.contains(c) implies asked.contains(c) by {
            let k = choose|k: int| 0 <= k < before.len() && before[k] == c;
            assert(asked[k] == c);
        }
        if asked.len() > before.len() {
            assert(asked[before.len() as int] == asked.last());
            assert(asked.contains(asked.last()));
        }
        assert forall|k: int| 0 <= k < asked.len() implies match #[trigger] asked[k] {
            CommandView::Refilter { tab, stream: of } => of == stream && tab < end
                && tabs[tab as int].stream == stream && tabs[tab as int].kind == TabKind::Stream
                && tabs[tab as int].live,
            CommandView::BuildSummary { tab, stream: of } => of == stream && tab < end
                && tabs[tab as int].stream == stream && tabs[tab as int].kind
                == TabKind::Summary,
            _ => false,
        } by {
            if k < before.len() {
                assert(asked[k] == before[k]);
            }
        }
    }
}

/// A new filter reaches every tab of its stream and no other: each live view
/// of it is asked to filter anew, each summary of it to be computed anew, and
/// nothing is asked of the tabs of other streams.  What had been asked before
/// is still asked, and the session is to be saved.
pub proof fn law_new_filter_reaches_the_streams_tabs(app: AppView, filter: Seq<PredicateView>)
    requires
        app.wf(),
        app.active < app.tabs.len() <= usize::MAX,
    ensures
        ({
            let stream = app.tabs[app.active as int].stream;
            let after = app.filter_applied(filter);
            let n = app.outbox.len() as int;
            &&& after.session.streams[stream].filter == filter
            &&& after.session.streams[stream].opts == app.session.streams[stream].opts
            &&& after.session.streams[stream].name == app.session.streams[stream].name
            &&& after.outbox.len() >= n
            &&& forall|k: int| 0 <= k < n ==> #[trigger] after.outbox[k] == app.outbox[k]
            &&& forall|k: int|
                n <= k < after.outbox.len() ==> match #[trigger] after.outbox[k] {
                    CommandView::Refilter { tab, stream: of } => of == stream
                        && app.tabs[tab as int].stream == stream && tab < app.tabs.len(),
                    CommandView::BuildSummary { tab, stream: of } => of == stream
                        && app.tabs[tab as int].stream == stream && tab < app.tabs.len(),
                    CommandView::Save => app.stored,
                    _ => false,
                }
            &&& forall|i: int|
                0 <= i < app.tabs.len() && (#[trigger] app.tabs[i]).stream == stream
                    && app.tabs[i].kind == TabKind::Summary ==> after.outbox.contains(
                    CommandView::BuildSummary { tab: i as usize, stream },
                ) && after.tabs[i].content.formatted == seq!["Computing summary..."@]
            &&& forall|i: int|
                0 <= i < app.tabs.len() && (#[trigger] app.tabs[i]).stream == stream
                    && app.tabs[i].kind == TabKind::Stream && app.tabs[i].live
                    ==> after.outbox.contains(
                    CommandView::Refilter { tab: i as usize, stream },
                )
            &&& app.stored ==> after.outbox.last() == CommandView::Save
            &&& after.policy.dirty
        }),
{
    let stream = app.tabs[app.active as int].stream;
    let asked = super::commands_for_filter(app.tabs, stream, app.tabs.len() as int);
    let after = app.filter_applied(filter);
    let n = app.outbox.len() as int;
    lemma_filter_commands(app.tabs, stream, app.tabs.len() as int);
    assert forall|c: CommandView| asked.contains(c) implies after.outbox.contains(c) by {
        let k = choose|k: int| 0 <= k < asked.len() && asked[k] == c;
        assert(after.outbox[n + k] == c);
    }
    assert forall|k: int| n <= k < n + asked.len() implies #[trigger] after.outbox[k]
        == asked[k - n] by {}
}

/// A jump through a live view's records asks that view, and no other, to go
/// to the next record with the pattern, towards later records for a search
/// forward and towards earlier ones for a search backward.
pub proof fn law_live_jumps_go_the_way_of_the_search(
    app: AppView,
    direction: SearchDirection,
    anchor: SearchAnchor,
)
    requires
        app.active < app.tabs.len(),
        app.tabs[app.active as int].live,
        app.tabs[app.active as int].search is Some,
    ensures
        ({
            let after = app.jumped(direction, anchor);
            let asked = after.outbox[app.outbox.len() as int];
            &&& after.outbox.len() == app.outbox.len() + 1
            &&& forall|k: int|
                0 <= k < app.outbox.len() ==> #[trigger] after.outbox[k] == app.outbox[k]
            &&& asked matches CommandView::SeekForSearch { tab, direction: way, pattern } && {
                &&& tab == app.active
                &&& pattern == app.tabs[app.active as int].search->Some_0.pattern
                &&& way == Direction::Backward <==> direction == SearchDirection::Backward
            }
            &&& after.tabs == app.tabs
            &&& after.session == app.session
        }),
{
}

/// A jump in a tab that holds all its lines puts the nearest matching line on
/// the asked side at the top: below the line now there, or on it for a fresh
/// search, on the way forward; above it, or on it, on the way back.  Where no
/// line matches there, the tab stays.
pub proof fn law_jumps_land_on_the_nearest_matching_line(
    app: AppView,
    pattern: Seq<char>,
    direction: SearchDirection,
)
    requires
        app.active < app.tabs.len(),
        !app.tabs[app.active as int].live,
        app.tabs[app.active as int].content.formatted.len() <= usize::MAX,
    ensures
        ({
            let tab = app.tabs[app.active as int];
            let lines = tab.content.formatted;
            let from = tab.viewport_top as int;
            let found = app.searched(pattern, direction);
            let top = found.tabs[app.active as int].viewport_top as int;
            let matches = |line: int|
                0 <= line < lines.len() && regex_is_match(pattern, lines[line]) && (if direction
                    == SearchDirection::Forward {
                    line >= from
                } else {
                    line <= from
                });
            &&& (exists|line: int| #[trigger] matches(line)) ==> matches(top) && forall|line: int|
                #[trigger]
                matches(line) ==> if direction == SearchDirection::Forward {
                    top <= line
                } else {
                    top >= line
                }
            &&& (forall|line: int| !#[trigger] matches(line)) ==> top == from
            &&& found.outbox == app.outbox
        }),
{
    let tab = app.tabs[app.active as int];
    let lines = tab.content.formatted;
    let hits = matching(lines, pattern);
    law_matches_ascend(lines, pattern);
    law_search_lands_on_the_nearest_match(
        hits,
        tab.viewport_top,
        direction,
        SearchAnchor::Include,
    );
    let from = tab.viewport_top as int;
    let matches = |line: int|
        0 <= line < lines.len() && regex_is_match(pattern, lines[line]) && (if direction
            == SearchDirection::Forward {
            line >= from
        } else {
            line <= from
        });
    assert forall|line: int| #[trigger] matches(line) implies hits.contains(line as usize) by {
        assert(regex_is_match(pattern, lines[line]));
    }
    assert forall|i: int| 0 <= i < hits.len() implies (#[trigger] hits[i]) < lines.len()
        && regex_is_match(pattern, lines[hits[i] as int]) by {}
    let top = app.searched(pattern, direction).tabs[app.active as int].viewport_top;
    if exists|line: int| #[trigger] matches(line) {
        let line = choose|line: int| #[trigger] matches(line);
        let i = choose|i: int| 0 <= i < hits.len() && hits[i] == line as usize;
        assert(crate::search::qualifies(hits[i], tab.viewport_top, direction, SearchAnchor::Include));
        assert(hits.contains(top));
        let j = choose|j: int| 0 <= j < hits.len() && hits[j] == top;
        assert(matches(top as int));
        assert forall|line: int| #[trigger] matches(line) implies if direction
            == SearchDirection::Forward {
            top <= line
        } else {
            top >= line
        } by {
            let k = choose|k: int| 0 <= k < hits.len() && hits[k] == line as usize;
            assert(crate::search::qualifies(
                hits[k],
                tab.viewport_top,
                direction,
                SearchAnchor::Include,
            ));
        }
    } else {
        assert forall|i: int| 0 <= i < hits.len() implies !crate::search::qualifies(
            #[trigger] hits[i],
            tab.viewport_top,
            direction,
            SearchAnchor::Include,
        ) by {
            assert(!matches(hits[i] as int));
        }
    }
}

/// A step to another match leaves the line at the top: forward the next
/// matching line below it, backward the next above it.
pub proof fn law_match_steps_move_on(
    app: AppView,
    direction: SearchDirection,
)
    requires
        app.active < app.tabs.len(),
        !app.tabs[app.active as int].live,
        app.tabs[app.active as int].content.formatted.len() <= usize::MAX,
        app.last_search is Some,
        regex_error(app.last_search->Some_0.pattern) is None,
        app.tabs[app.active as int].search matches Some(search) ==> search.pattern
            == app.last_search->Some_0.pattern ==> search.matches == matching(
            app.tabs[app.active as int].content.formatted,
            search.pattern,
        ),
    ensures
        ({
            let tab = app.tabs[app.active as int];
            let pattern = app.last_search->Some_0.pattern;
            let lines = tab.content.formatted;
            let from = tab.viewport_top as int;
            let stepped = app.search_stepped(direction);
            let top = stepped.tabs[app.active as int].viewport_top as int;
            &&& forall|line: int|
                0 <= line < lines.len() && regex_is_match(pattern, #[trigger] lines[line]) ==> {
                    &&& direction == SearchDirection::Forward && line > from ==> from < top <= line
                    &&& direction == SearchDirection::Backward && line < from ==> line <= top
                        < from
                }
            &&& top != from ==> 0 <= top < lines.len() && regex_is_match(pattern, lines[top])
            &&& stepped.tabs[app.active as int].search matches Some(search) && search.pattern
                == pattern
        }),
{
    let tab = app.tabs[app.active as int];
    let pattern = app.last_search->Some_0.pattern;
    let lines = tab.content.formatted;
    let hits = matching(lines, pattern);
    law_matches_ascend(lines, pattern);
    law_search_lands_on_the_nearest_match(hits, tab.viewport_top, direction, SearchAnchor::Skip);
    let from = tab.viewport_top;
    let target = crate::search::target_line(hits, from, direction, SearchAnchor::Skip);
    assert forall|line: int|
        0 <= line < lines.len() && regex_is_match(pattern, #[trigger] lines[line]) && (if direction
            == SearchDirection::Forward {
            line > from
        } else {
            line < from
        }) implies target is Some && (if direction == SearchDirection::Forward {
        from < target->Some_0 <= line
    } else {
        line <= target->Some_0 < from
    }) by {
        let i = choose|i: int| 0 <= i < hits.len() && hits[i] == line as usize;
        assert(crate::search::qualifies(hits[i], from, direction, SearchAnchor::Skip));
    }
    if let Some(line) = target {
        let i = choose|i: int| 0 <= i < hits.len() && hits[i] == line;
        assert(hits[i] < lines.len());
    }
}

/// `/` and `?` open a prompt for a search forward and backward; what is
/// entered there is searched for that way.  `n` goes on the way of the last
/// search, and `N` the other way.
pub proof fn law_search_keys_keep_the_direction(
    app: AppView,
    key: KeyEvent,
    answers: Answers,
    fresh: Fresh,
)
    requires
        over_a_tab(app),
    ensures
        pressed_alone(key, KeyCode::Char('/')) ==> (app.pressed(
            key,
            answers,
            fresh,
        ).dialog matches Some(DialogView::Search { direction, .. }) && direction
            == SearchDirection::Forward),
        pressed_alone(key, KeyCode::Char('?')) ==> (app.pressed(
            key,
            answers,
            fresh,
        ).dialog matches Some(DialogView::Search { direction, .. }) && direction
            == SearchDirection::Backward),
        app.tabs[app.active as int].live && app.tabs[app.active as int].search is Some
            && app.last_search is Some && app.tabs[app.active as int].search->Some_0.pattern
            == app.last_search->Some_0.pattern ==> {
            let last = app.last_search->Some_0;
            let after = app.pressed(key, answers, fresh);
            &&& pressed_alone(key, KeyCode::Char('n')) ==> asks_one_more(
                app,
                after,
                CommandView::SeekForSearch {
                    tab: app.active,
                    direction: if last.direction == SearchDirection::Backward {
                        Direction::Backward
                    } else {
                        Direction::Forward
                    },
                    pattern: last.pattern,
                },
            )
            &&& pressed_alone(key, KeyCode::Char('N')) ==> asks_one_more(
                app,
                after,
                CommandView::SeekForSearch {
                    tab: app.active,
                    direction: if last.direction == SearchDirection::Backward {
                        Direction::Forward
                    } else {
                        Direction::Backward
                    },
                    pattern: last.pattern,
                },
            )
        },
{
}

/// A search remembers what it was for: the pattern heads the history, where
/// it occurs once, the others keep their order, and it is what later steps
/// look for, the same way.
pub proof fn law_searches_are_remembered(
    app: AppView,
    pattern: Seq<char>,
    direction: SearchDirection,
)
    requires
        app.active < app.tabs.len(),
    ensures
        ({
            let after = app.searched(pattern, direction);
            let history = after.session.search_history;
            &&& after.last_search matches Some(last) && last.pattern == pattern && last.direction
                == direction
            &&& after.tabs[app.active as int].search matches Some(search) && search.pattern
                == pattern
            &&& history.len() > 0 && history[0] == pattern
            &&& forall|i: int| 0 < i < history.len() ==> #[trigger] history[i] != pattern
            &&& forall|p: Seq<char>|
                p != pattern ==> (#[trigger] history.contains(p)
                    <==> app.session.search_history.contains(p))
            &&& history.skip(1) == app.session.search_history.filter(
                |p: Seq<char>| p != pattern,
            )
        }),
{
    let old_history = app.session.search_history;
    let kept = old_history.filter(|p: Seq<char>| p != pattern);
    let after = app.searched(pattern, direction);
    let history = after.session.search_history;
    assert(crate::session::unlike(pattern) =~= |p: Seq<char>| p != pattern);
    assert(history == seq![pattern] + kept);
    assert(history.skip(1) =~= kept);
    let differs = |p: Seq<char>| p != pattern;
    assert forall|i: int| 0 < i < history.len() implies #[trigger] history[i] != pattern by {
        old_history.lemma_filter_pred(differs, i - 1);
        assert(history[i] == kept[i - 1]);
    }
    assert forall|p: Seq<char>| p != pattern implies (#[trigger] history.contains(p)
        <==> old_history.contains(p)) by {
        if history.contains(p) {
            let i = choose|i: int| 0 <= i < history.len() && history[i] == p;
            assert(kept[i - 1] == p);
            assert(kept.contains(p));
            old_history.lemma_filter_contains_rev(differs, p);
        }
        if old_history.contains(p) {
            let i = choose|i: int| 0 <= i < old_history.len() && old_history[i] == p;
            old_history.lemma_filter_contains(differs, i);
            let j = choose|j: int| 0 <= j < kept.len() && kept[j] == p;
            assert(history[j + 1] == p);
        }
    }
}

/// Whether the commands open every one of the tabs and take it back to its
/// own place, and ask for nothing else: a live view for each tab of records,
/// right behind it a seek to the cursor saved with that very tab where there
/// is one, and a computation for each summary.
pub open spec fn each_to_its_own_place(
    asked: Seq<CommandView>,
    saved: Seq<SavedTabView>,
) -> bool {
    &&& forall|k: int|
        0 <= k < asked.len() ==> match #[trigger] asked[k] {
            CommandView::OpenView { tab, stream } => tab < saved.len() && saved[tab as int].kind
                == TabKind::Stream && saved[tab as int].stream == stream,
            CommandView::SeekToCursor { tab, cursor } => {
                &&& tab < saved.len()
                &&& saved[tab as int].kind == TabKind::Stream
                &&& saved[tab as int].cursor == Some(cursor)
                &&& k > 0
                &&& asked[k - 1] == (CommandView::OpenView {
                    tab,
                    stream: saved[tab as int].stream,
                })
            },
            CommandView::BuildSummary { tab, stream } => tab < saved.len()
                && saved[tab as int].kind == TabKind::Summary && saved[tab as int].stream
                == stream,
            _ => false,
        }
    &&& forall|i: int|
        0 <= i < saved.len() ==> match (#[trigger] saved[i]).kind {
            TabKind::Stream => {
                &&& asked.contains(
                    CommandView::OpenView { tab: i as usize, stream: saved[i].stream },
                )
                &&& saved[i].cursor matches Some(cursor) ==> asked.contains(
                    CommandView::SeekToCursor { tab: i as usize, cursor },
                )
            },
            TabKind::Summary => asked.contains(
                CommandView::BuildSummary { tab: i as usize, stream: saved[i].stream },
            ),
        }
    &&& forall|a: int, b: int|
        0 <= a < b < asked.len() ==> #[trigger] asked[a] != #[trigger] asked[b]
}

proof fn lemma_each_to_its_own_place(bare: AppView, saved: Seq<SavedTabView>)
    requires
        bare.tabs.len() == 0,
        bare.outbox.len() == 0,
        saved.len() <= usize::MAX,
    ensures
        ({
            let known = |t: SavedTabView| bare.session.streams.dom().contains(t.stream);
            let kept = saved.filter(known);
            let after = bare.tabs_restored(saved);
            &&& after.tabs.len() == kept.len()
            &&& forall|i: int|
                0 <= i < kept.len() ==> {
                    &&& (#[trigger] after.tabs[i]).name == kept[i].name
                    &&& after.tabs[i].stream == kept[i].stream
                    &&& after.tabs[i].kind == kept[i].kind
                    &&& after.tabs[i].live == (kept[i].kind == TabKind::Stream)
                }
            &&& each_to_its_own_place(after.outbox, kept)
            &&& after.session == bare.session
        }),
    decreases saved.len(),
{
    let known = |t: SavedTabView| bare.session.streams.dom().contains(t.stream);
    reveal(Seq::filter);
    if saved.len() > 0 {
        let rest = saved.drop_last();
        lemma_each_to_its_own_place(bare, rest);
        let kept = saved.filter(known);
        let earlier = rest.filter(known);
        rest.lemma_filter_len(known);
        saved.lemma_filter_len(known);
        let before = bare.tabs_restored(rest);
        let after = bare.tabs_restored(saved);
        let tab = saved.last();
        if known(tab) {
            assert(kept =~= earlier.push(tab));
            let n = earlier.len() as int;
            assert(kept[n] == tab);
            assert forall|i: int| 0 <= i < n implies kept[i] == earlier[i] by {}
            assert forall|k: int| 0 <= k < before.outbox.len() implies #[trigger] after.outbox[k]
                == before.outbox[k] by {}
            assert forall|c: CommandView| before.outbox.contains(c) implies after.outbox.contains(
                c,
            ) by {
                let k = choose|k: int| 0 <= k < before.outbox.len() && before.outbox[k] == c;
                assert(after.outbox[k] == c);
            }
            let m = before.outbox.len() as int;
            assert(after.outbox.contains(after.outbox[m]));
            if after.outbox.len() > m + 1 {
                assert(after.outbox.contains(after.outbox[m + 1]));
            }
            assert forall|i: int| 0 <= i < kept.len() implies {
                &&& (#[trigger] after.tabs[i]).name == kept[i].name
                &&& after.tabs[i].stream == kept[i].stream
                &&& after.tabs[i].kind == kept[i].kind
                &&& after.tabs[i].live == (kept[i].kind == TabKind::Stream)
            } by {
                if i < n {
                    assert(after.tabs[i] == before.tabs[i]);
                }
            }
        } else {
            assert(kept =~= earlier);
        }
    }
}

/// A session that is opened again takes every tab back to its own place.
///
/// Its saved tabs come back in their order, but for those whose stream is
/// gone; each tab of records is fed by a view of its stream and sent to the
/// cursor saved with that tab, and no view is sent anywhere else.
pub proof fn law_resumed_tabs_return_to_their_places(
    session: SessionView,
    stored: bool,
    policy: PolicyView,
    fresh: Fresh,
)
    requires
        session.tabs.len() <= usize::MAX,
        exists|i: int|
            0 <= i < session.tabs.len() && session.streams.dom().contains(
                (#[trigger] session.tabs[i]).stream,
            ),
    ensures
        ({
            let app = AppView::started(session, stored, policy, fresh);
            let kept = session.tabs.filter(
                |t: SavedTabView| session.streams.dom().contains(t.stream),
            );
            &&& app.tabs.len() == kept.len()
            &&& forall|i: int|
                0 <= i < kept.len() ==> {
                    &&& (#[trigger] app.tabs[i]).name == kept[i].name
                    &&& app.tabs[i].stream == kept[i].stream
                    &&& app.tabs[i].kind == kept[i].kind
                }
            &&& each_to_its_own_place(app.outbox, kept)
            &&& app.active == 0
            &&& app.session.streams == session.streams
            &&& app.session.bookmarks == session.bookmarks
            &&& app.session.sources == session.sources
            &&& app.session.search_history == session.search_history
            &&& app.session.id == session.id
            &&& !app.quit && app.dialog is None && app.notice is None
        }),
{
    let bare = AppView {
        session: SessionView { tabs: Seq::empty(), ..session },
        tabs: Seq::empty(),
        active: 0,
        next_tab_number: AppView::next_number(session.tabs, 1),
        viewport_height: 0,
        viewport_width: 0,
        quit: false,
        dialog: None,
        last_search: None,
        time_step_idx: super::DEFAULT_TIME_STEP_IDX,
        bookmark_cursor: None,
        notice: None,
        stored,
        policy,
        show_fetch_stats: false,
        outbox: Seq::empty(),
    };
    lemma_each_to_its_own_place(bare, session.tabs);
    let known = |t: SavedTabView| bare.session.streams.dom().contains(t.stream);
    assert(known =~= |t: SavedTabView| session.streams.dom().contains(t.stream));
    let i = choose|i: int|
        0 <= i < session.tabs.len() && session.streams.dom().contains(
            (#[trigger] session.tabs[i]).stream,
        );
    session.tabs.lemma_filter_contains(known, i);
    lemma_restoring_keeps_the_rest(bare, session.tabs);
}

proof fn lemma_restoring_keeps_the_rest(bare: AppView, saved: Seq<SavedTabView>)
    ensures
        ({
            let after = bare.tabs_restored(saved);
            after == (AppView { tabs: after.tabs, outbox: after.outbox, ..bare })
        }),
    decreases saved.len(),
{
    if saved.len() > 0 {
        lemma_restoring_keeps_the_rest(bare, saved.drop_last());
    }
}

/// What is noted of the open tabs before a save: of every tab its name, its
/// stream and its kind, and of one that a live view feeds where it stands.
pub proof fn law_saving_notes_where_every_tab_stands(app: AppView)
    ensures
        ({
            let noted = app.saving().session;
            &&& noted.tabs.len() == app.tabs.len()
            &&& forall|i: int|
                0 <= i < app.tabs.len() ==> {
                    &&& (#[trigger] noted.tabs[i]).name == app.tabs[i].name
                    &&& noted.tabs[i].stream == app.tabs[i].stream
                    &&& noted.tabs[i].kind == app.tabs[i].kind
                    &&& app.tabs[i].live ==> noted.tabs[i].cursor == app.tabs[i].cursor
                    &&& !app.tabs[i].live ==> noted.tabs[i].cursor is None
                }
            &&& noted.streams == app.session.streams
            &&& noted.bookmarks == app.session.bookmarks
            &&& noted.search_history == app.session.search_history
            &&& noted.sources == app.session.sources
            &&& app.stored ==> asks_one_more(app, app.saving(), CommandView::Save)
            &&& !app.stored ==> app.saving().outbox == app.outbox
            &&& app.saving().tabs == app.tabs && app.saving().active == app.active
            &&& app.saving().policy.dirty
        }),
{
}

/// Save and resume: a session that is saved and opened again sends every live
/// tab back to where it stood.
pub proof fn law_resuming_returns_to_where_each_tab_stood(
    app: AppView,
    stored: bool,
    policy: PolicyView,
    fresh: Fresh,
    i: int,
    cursor: Map<Seq<char>, ByteOffset>,
)
    requires
        app.wf(),
        app.tabs.len() <= usize::MAX,
        0 <= i < app.tabs.len(),
        app.tabs[i].live,
        app.tabs[i].kind == TabKind::Stream,
        app.tabs[i].cursor == Some(cursor),
    ensures
        ({
            let resumed = AppView::started(app.saving().session, stored, policy, fresh);
            &&& resumed.tabs.len() == app.tabs.len()
            &&& resumed.outbox.contains(CommandView::SeekToCursor { tab: i as usize, cursor })
            &&& resumed.outbox.contains(
                CommandView::OpenView { tab: i as usize, stream: app.tabs[i].stream },
            )
            &&& forall|k: int|
                0 <= k < resumed.outbox.len() ==> match #[trigger] resumed.outbox[k] {
                    CommandView::SeekToCursor { tab, cursor: place } => tab == i ==> place
                        == cursor,
                    _ => true,
                }
        }),
{
    let session = app.saving().session;
    law_saving_notes_where_every_tab_stands(app);
    assert(session.streams.dom().contains(session.tabs[i].stream));
    law_resumed_tabs_return_to_their_places(session, stored, policy, fresh);
    let known = |t: SavedTabView| session.streams.dom().contains(t.stream);
    assert forall|k: int| 0 <= k < session.tabs.len() implies known(#[trigger] session.tabs[k]) by {
        assert(app.session.streams.dom().contains(app.tabs[k].stream));
    }
    lemma_filter_of_all(session.tabs, known);
    let kept = session.tabs.filter(known);
    assert(kept[i].cursor == Some(cursor));
}

proof fn lemma_filter_of_all(saved: Seq<SavedTabView>, keep: spec_fn(SavedTabView) -> bool)
    requires
        forall|k: int| 0 <= k < saved.len() ==> keep(#[trigger] saved[k]),
    ensures
        saved.filter(keep) == saved,
    decreases saved.len(),
{
    reveal(Seq::filter);
    if saved.len() > 0 {
        let rest = saved.drop_last();
        assert forall|k: int| 0 <= k < rest.len() implies keep(#[trigger] rest[k]) by {
            assert(rest[k] == saved[k]);
        }
        lemma_filter_of_all(rest, keep);
        assert(keep(saved[saved.len() - 1]));
        assert(rest.push(saved.last()) =~= saved);
    }
}

/// Keys that move through a live tab are handed to its view, one command
/// each: a line, half a page or a page down or up, the start, the end, a
/// stretch of time forward or backward.  Nothing of the tabs changes before
/// the view answers.
pub proof fn law_motion_keys_move_the_view(
    app: AppView,
    key: KeyEvent,
    answers: Answers,
    fresh: Fresh,
)
    requires
        over_a_tab(app),
        app.tabs[app.active as int].live,
    ensures
        ({
            let after = app.pressed(key, answers, fresh);
            let tab = app.active;
            let page = app.viewport_height as usize;
            let down = |lines: usize| CommandView::ScrollDown { tab, lines };
            let up = |lines: usize| CommandView::ScrollUp { tab, lines };
            let asks = |command: CommandView|
                asks_one_more(app, after, command) && after.tabs == app.tabs && after.active
                    == app.active;
            &&& pressed_alone(key, KeyCode::Char('j')) || pressed_alone(key, KeyCode::Down)
                ==> asks(down(1))
            &&& pressed_alone(key, KeyCode::Char('k')) || pressed_alone(key, KeyCode::Up)
                ==> asks(up(1))
            &&& pressed_with_control(key, KeyCode::Char('d')) ==> asks(down((page / 2) as usize))
            &&& pressed_with_control(key, KeyCode::Char('u')) ==> asks(up((page / 2) as usize))
            &&& pressed_alone(key, KeyCode::Char(' ')) ==> asks(down(page))
            &&& pressed_alone(key, KeyCode::Char('g')) || pressed_alone(key, KeyCode::Home)
                ==> asks(CommandView::SeekToStart { tab })
            &&& pressed_alone(key, KeyCode::Char('G')) || pressed_alone(key, KeyCode::End)
                ==> asks(CommandView::SeekToEnd { tab })
            &&& pressed_alone(key, KeyCode::Char('>')) ==> asks(
                CommandView::SeekByTime {
                    tab,
                    direction: Direction::Forward,
                    millis: super::time_step(app.time_step_idx as int).1,
                },
            )
            &&& pressed_alone(key, KeyCode::Char('<')) ==> asks(
                CommandView::SeekByTime {
                    tab,
                    direction: Direction::Backward,
                    millis: super::time_step(app.time_step_idx as int).1,
                },
            )
            &&& pressed_with_control(key, KeyCode::Char('c')) ==> asks(
                CommandView::Interrupt { tab },
            )
        }),
{
}

/// The lengths of the time steps: a tenth of a second, then seconds, minutes,
/// hours, up to a day.
pub proof fn law_time_steps_are_what_their_labels_say(i: int)
    requires
        0 <= i < super::TIME_STEP_COUNT,
    ensures
        super::time_step(i).1 == seq![
            100int,
            1_000,
            5_000,
            10_000,
            30_000,
            60_000,
            300_000,
            600_000,
            1_800_000,
            3_600_000,
            21_600_000,
            43_200_000,
            86_400_000,
        ][i],
        super::time_step(i).0 == seq![
            "100ms"@,
            "1s"@,
            "5s"@,
            "10s"@,
            "30s"@,
            "1m"@,
            "5m"@,
            "10m"@,
            "30m"@,
            "60m"@,
            "6h"@,
            "12h"@,
            "1d"@,
        ][i],
        super::time_step(super::DEFAULT_TIME_STEP_IDX as int).1 == 60_000,
{
}

/// Keys that move through a tab that holds all its lines put another line of
/// it at the top, no further than the last page allows, and leave everything
/// else of it, and every other tab, as it was.
pub proof fn law_motion_keys_move_the_lines(
    app: AppView,
    key: KeyEvent,
    answers: Answers,
    fresh: Fresh,
)
    requires
        over_a_tab(app),
        !app.tabs[app.active as int].live,
        app.tabs[app.active as int].content.formatted.len() <= usize::MAX,
        app.tabs[app.active as int].viewport_top <= app.tabs[app.active as int].max_top(
            app.viewport_height,
            app.viewport_width,
        ),
    ensures
        ({
            let tab = app.tabs[app.active as int];
            let last = tab.max_top(app.viewport_height, app.viewport_width) as int;
            let top = tab.viewport_top as int;
            let page = app.viewport_height as int;
            let after = app.pressed(key, answers, fresh);
            let at = |line: int|
                {
                    &&& after.tabs.len() == app.tabs.len()
                    &&& after.tabs[app.active as int] == (TabView {
                        viewport_top: line as usize,
                        ..tab
                    })
                    &&& forall|i: int|
                        0 <= i < app.tabs.len() && i != app.active ==> #[trigger] after.tabs[i]
                            == app.tabs[i]
                    &&& after.outbox == app.outbox
                };
            let down = |n: int| at(if top + n <= last { top + n } else { last });
            let up = |n: int| at(if top >= n { top - n } else { 0 });
            &&& pressed_alone(key, KeyCode::Char('j')) || pressed_alone(key, KeyCode::Down)
                ==> down(1)
            &&& pressed_alone(key, KeyCode::Char('k')) || pressed_alone(key, KeyCode::Up)
                ==> up(1)
            &&& pressed_with_control(key, KeyCode::Char('d')) ==> down(page / 2)
            &&& pressed_with_control(key, KeyCode::Char('u')) ==> up(page / 2)
            &&& pressed_alone(key, KeyCode::Char(' ')) ==> down(page)
            &&& pressed_alone(key, KeyCode::Char('g')) || pressed_alone(key, KeyCode::Home)
                ==> at(0)
            &&& pressed_alone(key, KeyCode::Char('G')) || pressed_alone(key, KeyCode::End)
                ==> at(last)
        }),
{
    let tab = app.tabs[app.active as int];
    assert forall|line: usize|
        app.tabs.update(app.active as int, TabView { viewport_top: line, ..tab }).len()
            == app.tabs.len() by {}
}

/// A step in time, in a tab that holds all its lines, from the record at the
/// top: forward it lands on the first readable record from there on that is
/// at least the step later, backward on the last up to there that is at least
/// the step earlier, and at the end or the start where there is none.
pub proof fn law_time_steps_land_beyond_the_step(tab: TabView, dir: Direction, millis: i64)
    requires
        tab.content.wf(),
        tab.viewport_top < tab.content.event_for_line.len(),
        tab.content.event_for_line[tab.viewport_top as int] < tab.content.events.len(),
        tab.content.events[tab.content.event_for_line[tab.viewport_top as int] as int] is Event,
    ensures
        ({
            let events = tab.content.events;
            let here = tab.content.event_for_line[tab.viewport_top as int] as int;
            let now = events[here]->Event_event.time;
            let target = if dir == Direction::Forward {
                now.shifted(millis)
            } else {
                now.shifted((-millis) as i64)
            };
            match (tab.time_target(dir, millis), target) {
                (Some(found), Some(target)) => {
                    &&& 0 <= found < events.len()
                    &&& events[found] is Event
                    &&& dir == Direction::Forward ==> {
                        &&& here <= found
                        &&& !events[found]->Event_event.time.earlier(target)
                        &&& forall|i: int|
                            here <= i < found && (#[trigger] events[i]) is Event
                                ==> events[i]->Event_event.time.earlier(target)
                    }
                    &&& dir == Direction::Backward ==> {
                        &&& found <= here
                        &&& !target.earlier(events[found]->Event_event.time)
                        &&& forall|i: int|
                            found < i <= here && (#[trigger] events[i]) is Event
                                ==> target.earlier(events[i]->Event_event.time)
                    }
                },
                (None, Some(target)) => forall|i: int|
                    0 <= i < events.len() && (#[trigger] events[i]) is Event && (if dir
                        == Direction::Forward {
                        i >= here
                    } else {
                        i <= here
                    }) ==> if dir == Direction::Forward {
                        events[i]->Event_event.time.earlier(target)
                    } else {
                        target.earlier(events[i]->Event_event.time)
                    },
                (found, None) => found is None,
            }
        }),
{
    let events = tab.content.events;
    let here = tab.content.event_for_line[tab.viewport_top as int] as int;
    let now = events[here]->Event_event.time;
    assert(tab.time_anchor(Direction::Forward) == Some(here));
    assert(tab.time_anchor(Direction::Backward) == Some(here));
    match dir {
        Direction::Forward => {
            if let Some(target) = now.shifted(millis) {
                lemma_at_or_past(events, here, target);
            }
        },
        Direction::Backward => {
            if let Some(target) = now.shifted((-millis) as i64) {
                lemma_at_or_before(events, here + 1, target);
            }
        },
    }
}

proof fn lemma_at_or_past(events: Seq<RowView>, from: int, target: crate::event::Timestamp)
    requires
        0 <= from <= events.len(),
    ensures
        match crate::tab::event_at_or_past(events, from, target) {
            Some(found) => {
                &&& from <= found < events.len()
                &&& events[found] is Event
                &&& !events[found]->Event_event.time.earlier(target)
                &&& forall|i: int|
                    from <= i < found && (#[trigger] events[i]) is Event
                        ==> events[i]->Event_event.time.earlier(target)
            },
            None => forall|i: int|
                from <= i < events.len() && (#[trigger] events[i]) is Event
                    ==> events[i]->Event_event.time.earlier(target),
        },
    decreases events.len() - from,
{
    if from < events.len() {
        lemma_at_or_past(events, from + 1, target);
    }
}

proof fn lemma_at_or_before(events: Seq<RowView>, end: int, target: crate::event::Timestamp)
    requires
        0 <= end <= events.len(),
    ensures
        match crate::tab::event_at_or_before(events, end, target) {
            Some(found) => {
                &&& 0 <= found < end
                &&& events[found] is Event
                &&& !target.earlier(events[found]->Event_event.time)
                &&& forall|i: int|
                    found < i < end && (#[trigger] events[i]) is Event
                        ==> target.earlier(events[i]->Event_event.time)
            },
            None => forall|i: int|
                0 <= i < end && (#[trigger] events[i]) is Event ==> target.earlier(
                    events[i]->Event_event.time,
                ),
        },
    decreases end,
{
    if end > 0 {
        lemma_at_or_before(events, end - 1, target);
    }
}

/// Where a step in time puts the tab: the first line of the record that it
/// lands on at the top, or, where it lands on none, the last page on the way
/// forward and the first line on the way back; never past the last page.
pub proof fn law_time_steps_show_what_they_land_on(
    tab: TabView,
    dir: Direction,
    millis: i64,
    height: u16,
    width: u16,
)
    requires
        tab.content.wf(),
        tab.viewport_top < tab.content.event_for_line.len(),
        tab.content.event_for_line[tab.viewport_top as int] < tab.content.events.len(),
        tab.content.events[tab.content.event_for_line[tab.viewport_top as int] as int] is Event,
    ensures
        ({
            let last = tab.max_top(height, width);
            let after = tab.advanced(dir, millis, height, width);
            &&& after == (TabView { viewport_top: after.viewport_top, ..tab })
            &&& after.viewport_top <= last
            &&& tab.time_target(dir, millis) matches Some(found) ==> {
                let line = tab.content.first_line_for_event[found];
                line <= last ==> after.viewport_top == line
            }
            &&& tab.time_target(dir, millis) is None ==> after.viewport_top == if dir
                == Direction::Forward {
                last
            } else {
                0
            }
        }),
{
    let here = tab.content.event_for_line[tab.viewport_top as int] as int;
    assert(tab.time_anchor(Direction::Forward) == Some(here));
    assert(tab.time_anchor(Direction::Backward) == Some(here));
}

/// A new tab comes last and on show, under a number of its own; it shows a
/// fresh stream with the given filter, is fed or computed at once, and leaves
/// the other tabs and streams as they were.
pub proof fn law_new_tabs_come_last_and_on_show(
    app: AppView,
    kind: TabKind,
    filter: Seq<PredicateView>,
    stream: u128,
)
    requires
        app.tabs.len() < usize::MAX,
        !app.session.streams.dom().contains(stream),
    ensures
        ({
            let after = app.tab_pushed(kind, filter, stream);
            let n = app.tabs.len() as int;
            let tab = after.tabs[n];
            &&& after.tabs.len() == n + 1
            &&& forall|i: int| 0 <= i < n ==> #[trigger] after.tabs[i] == app.tabs[i]
            &&& after.active == n
            &&& tab.stream == stream && tab.kind == kind && tab.viewport_top == 0
            &&& tab.search is None && tab.select is None && tab.cursor is None
            &&& tab.live == (kind == TabKind::Stream)
            &&& after.session.streams.dom() == app.session.streams.dom().insert(stream)
            &&& after.session.streams[stream].filter == filter
            &&& after.session.streams[stream].id == stream
            &&& after.session.streams[stream].name == tab.name
            &&& forall|id: u128|
                id != stream ==> #[trigger] after.session.streams[id]
                    == app.session.streams[id]
            &&& after.outbox.len() > app.outbox.len()
            &&& forall|k: int|
                0 <= k < app.outbox.len() ==> #[trigger] after.outbox[k] == app.outbox[k]
            &&& after.outbox[app.outbox.len() as int] == match kind {
                TabKind::Stream => CommandView::OpenView { tab: n as usize, stream },
                TabKind::Summary => CommandView::BuildSummary { tab: n as usize, stream },
            }
            &&& app.stored ==> after.outbox.last() == CommandView::Save
            &&& app.next_tab_number < usize::MAX ==> after.next_tab_number == app.next_tab_number
                + 1
        }),
{
}

/// What streams show until the user says otherwise.
pub proof fn law_streams_begin_with_date_short_host_and_name()
    ensures
        crate::session::default_opts().show_date,
        crate::session::default_opts().show_name,
        crate::session::default_opts().hostname == HostnameDisplay::Short,
        !crate::session::default_opts().show_extras,
        !crate::session::default_opts().show_raw,
        !crate::session::default_opts().show_pid,
{
}

/// Closing a tab takes out that one alone: the others stay in their order,
/// its view is told to go, and the tab that moves into its place comes on
/// show, or the last where it was the last.
pub proof fn law_closing_takes_out_one_tab(app: AppView, fresh: Fresh)
    requires
        app.wf(),
        app.active < app.tabs.len() <= usize::MAX,
        app.tabs.len() > 1,
    ensures
        ({
            let after = app.tab_closed(fresh);
            let n = app.tabs.len() as int;
            &&& after.tabs.len() == n - 1
            &&& forall|i: int|
                0 <= i < n - 1 ==> #[trigger] after.tabs[i] == if i < app.active {
                    app.tabs[i]
                } else {
                    app.tabs[i + 1]
                }
            &&& after.active == if app.active < n - 1 {
                app.active as int
            } else {
                n - 2
            }
            &&& after.outbox[app.outbox.len() as int] == (CommandView::CloseView {
                tab: app.active,
            })
            &&& after.session.streams == app.session.streams
            &&& after.session.bookmarks == app.session.bookmarks
            &&& after.next_tab_number == app.next_tab_number
        }),
{
}

/// The last tab to be closed makes way for a fresh one that accepts
/// everything.
pub proof fn law_some_tab_is_always_open(app: AppView, fresh: Fresh)
    requires
        app.wf(),
        app.tabs.len() == 1,
        app.active == 0,
        !app.session.streams.dom().contains(fresh.stream.0),
    ensures
        ({
            let after = app.tab_closed(fresh);
            &&& after.tabs.len() == 1
            &&& after.active == 0
            &&& after.tabs[0].stream == fresh.stream.0
            &&& after.tabs[0].kind == TabKind::Stream
            &&& after.session.streams[fresh.stream.0].filter.len() == 0
            &&& after.outbox[app.outbox.len() as int] == (CommandView::CloseView { tab: 0 })
            &&& after.outbox[app.outbox.len() as int + 1] == (CommandView::OpenView {
                tab: 0,
                stream: fresh.stream.0,
            })
        }),
{
}

/// Renaming gives the tab on show the name, and changes nothing else of it
/// nor any other tab.
pub proof fn law_renaming_names_the_tab_on_show(app: AppView, name: Seq<char>)
    requires
        app.active < app.tabs.len(),
    ensures
        ({
            let after = app.tab_renamed(name);
            let i = app.active as int;
            &&& after.tabs.len() == app.tabs.len()
            &&& after.tabs[i] == (TabView { name, ..app.tabs[i] })
            &&& forall|k: int|
                0 <= k < app.tabs.len() && k != i ==> #[trigger] after.tabs[k] == app.tabs[k]
            &&& after.session.streams == app.session.streams
            &&& after.session.tabs[i].name == name
            &&& after.active == app.active
        }),
{
}

/// Panes go round: on to the next or back to the one before, from the last to
/// the first and the other way, the bookmarks coming last where there are
/// any.
pub proof fn law_panes_go_round(app: AppView)
    requires
        app.wf(),
        app.tabs.len() < usize::MAX,
    ensures
        ({
            let panes = if app.session.bookmarks.len() > 0 {
                app.tabs.len() as int + 1
            } else {
                app.tabs.len() as int
            };
            &&& app.next_pane().active == (app.active + 1) % panes
            &&& app.prev_pane().active == (app.active + panes - 1) % panes
            &&& app.next_pane().tabs == app.tabs
            &&& app.prev_pane().tabs == app.tabs
            &&& app.next_pane().session == app.session
            &&& app.prev_pane().session == app.session
        }),
{
    let panes = if app.session.bookmarks.len() > 0 {
        app.tabs.len() as int + 1
    } else {
        app.tabs.len() as int
    };
    let at = app.active as int;
    assert(at < panes);
    if at + 1 < panes {
        vstd::arithmetic::div_mod::lemma_small_mod((at + 1) as nat, panes as nat);
    } else {
        vstd::arithmetic::div_mod::lemma_mod_self_0(panes);
    }
    if at > 0 {
        vstd::arithmetic::div_mod::lemma_mod_add_multiples_vanish(at - 1, panes);
        vstd::arithmetic::div_mod::lemma_small_mod((at - 1) as nat, panes as nat);
        assert((at + panes - 1) % panes == (panes + (at - 1)) % panes);
    } else {
        vstd::arithmetic::div_mod::lemma_small_mod((panes - 1) as nat, panes as nat);
    }
}

/// The keys for tabs: a new one with the same filter, a summary of what is
/// shown, closing, the next, the one before; and the keys for dialogs, each of
/// which opens its own.
pub proof fn law_keys_do_what_they_stand_for(
    app: AppView,
    key: KeyEvent,
    answers: Answers,
    fresh: Fresh,
)
    requires
        over_a_tab(app),
    ensures
        ({
            let told = AppView { notice: None, ..app };
            let tab = app.tabs[app.active as int];
            let stream = app.session.streams[tab.stream];
            let after = app.pressed(key, answers, fresh);
            &&& pressed_alone(key, KeyCode::Char('S')) ==> after == told.tab_pushed(
                TabKind::Summary,
                stream.filter,
                fresh.stream.0,
            )
            &&& pressed_with_control(key, KeyCode::Char('t')) ==> {
                let opened = told.tab_pushed(TabKind::Stream, stream.filter, fresh.stream.0);
                &&& after == (AppView { dialog: after.dialog, ..opened })
                &&& after.dialog matches Some(DialogView::Filter { editor, .. })
                &&& editor.before == answers.shown && editor.after.len() == 0
            }
            &&& pressed_with_control(key, KeyCode::Char('w')) ==> after == told.tab_closed(fresh)
            &&& pressed_alone(key, KeyCode::Tab) ==> after == told.next_pane()
            &&& pressed_alone(key, KeyCode::BackTab) ==> after == told.prev_pane()
            &&& pressed_alone(key, KeyCode::Char('f')) ==> {
                &&& after == (AppView { dialog: after.dialog, ..told })
                &&& after.dialog matches Some(DialogView::Filter { editor, parse_error })
                &&& editor.before == answers.shown && editor.after.len() == 0
                &&& parse_error == match answers.parsed {
                    Ok(_) => None,
                    Err(error) => Some(error),
                }
            }
            &&& pressed_alone(key, KeyCode::Char('r')) ==> {
                &&& after == (AppView { dialog: after.dialog, ..told })
                &&& after.dialog matches Some(DialogView::Rename { editor })
                &&& editor.before == tab.name && editor.after.len() == 0
            }
            &&& pressed_alone(key, KeyCode::Char('q')) ==> after == (AppView {
                dialog: Some(DialogView::ConfirmQuit),
                ..told
            })
            &&& pressed_alone(key, KeyCode::Char('h')) ==> after == (AppView {
                dialog: Some(DialogView::Help { scroll: 0 }),
                ..told
            })
            &&& pressed_alone(key, KeyCode::Char('d')) ==> after == (AppView {
                dialog: Some(DialogView::DisplayFields { draft: stream.opts, cursor: 0 }),
                ..told
            })
            &&& pressed_alone(key, KeyCode::Char('p')) ==> after == (AppView {
                show_fetch_stats: !app.show_fetch_stats,
                ..told
            })
            &&& pressed_alone(key, KeyCode::Char('Y')) && app.stored ==> after.outbox
                == app.outbox.push(
                CommandView::SaveAndShow(SelectorView::Tab(tab.name)),
            )
            &&& pressed_alone(key, KeyCode::Char('Y')) && !app.stored ==> after.notice is Some
                && after.outbox == app.outbox
        }),
{
}

/// Each toggle turns the one thing that it stands for, for the stream on show
/// alone.
pub proof fn law_each_toggle_turns_one_thing(
    app: AppView,
    key: KeyEvent,
    answers: Answers,
    fresh: Fresh,
)
    requires
        over_a_tab(app),
    ensures
        ({
            let stream = app.tabs[app.active as int].stream;
            let opts = app.session.streams[stream].opts;
            let after = app.pressed(key, answers, fresh).session.streams;
            let others_stay = forall|id: u128|
                id != stream ==> #[trigger] after[id] == app.session.streams[id];
            &&& pressed_alone(key, KeyCode::Char('F')) ==> others_stay && after[stream]
                == (LogStreamView {
                opts: RenderOpts { show_extras: !opts.show_extras, ..opts },
                ..app.session.streams[stream]
            })
            &&& pressed_alone(key, KeyCode::Char('D')) ==> others_stay && after[stream]
                == (LogStreamView {
                opts: RenderOpts { show_date: !opts.show_date, ..opts },
                ..app.session.streams[stream]
            })
            &&& pressed_alone(key, KeyCode::Char('R')) ==> others_stay && after[stream]
                == (LogStreamView {
                opts: RenderOpts { show_raw: !opts.show_raw, ..opts },
                ..app.session.streams[stream]
            })
        }),
{
}

/// A bookmark says what it marks: it belongs to the stream on show, bears the
/// fresh id and the present time, and has the name and the place that were
/// given; all the other bookmarks stay, and so do the tabs.
pub proof fn law_bookmarks_say_what_they_mark(
    app: AppView,
    name: Option<Seq<char>>,
    draft: DraftView,
    fresh: Fresh,
)
    requires
        app.active < app.tabs.len(),
        crate::session::in_key_order(app.session.bookmarks),
        forall|i: int|
            0 <= i < app.session.bookmarks.len() ==> (#[trigger] app.session.bookmarks[i]).id
                != fresh.bookmark.0,
    ensures
        ({
            let after = app.bookmark_added(name, draft, fresh);
            let made = BookmarkView {
                id: fresh.bookmark.0,
                stream: app.tabs[app.active as int].stream,
                created_at: fresh.now,
                name,
                draft,
            };
            &&& after.session.bookmarks.len() == app.session.bookmarks.len() + 1
            &&& forall|b: BookmarkView| #[trigger]
                after.session.bookmarks.contains(b) <==> b == made
                    || app.session.bookmarks.contains(b)
            &&& after.tabs == app.tabs
            &&& after.session.streams == app.session.streams
            &&& app.stored ==> asks_one_more(app, after, CommandView::Save)
        }),
{
    crate::session::law_filing_adds_one_bookmark(
        app.session.bookmarks,
        BookmarkView {
            id: fresh.bookmark.0,
            stream: app.tabs[app.active as int].stream,
            created_at: fresh.now,
            name,
            draft,
        },
    );
}

/// Deleting a bookmark takes out those with its id and no other, and leaves
/// tabs and streams alone.
pub proof fn law_deleting_takes_out_the_bookmark(app: AppView, id: u128)
    ensures
        ({
            let after = app.bookmark_deleted(id);
            &&& forall|b: BookmarkView| #[trigger]
                after.session.bookmarks.contains(b) <==> app.session.bookmarks.contains(b)
                    && b.id != id
            &&& after.tabs == app.tabs
            &&& after.session.streams == app.session.streams
            &&& after.session.search_history == app.session.search_history
            &&& app.stored ==> asks_one_more(app, after, CommandView::Save)
        }),
{
    crate::session::law_dropping_takes_out_the_id(app.session.bookmarks, id);
}

proof fn lemma_bookmark_at(bookmarks: Seq<BookmarkView>, id: u128, from: int)
    requires
        0 <= from,
    ensures
        match super::bookmark_at(bookmarks, id, from) {
            Some(i) => {
                &&& from <= i < bookmarks.len()
                &&& bookmarks[i].id == id
                &&& forall|k: int| from <= k < i ==> (#[trigger] bookmarks[k]).id != id
            },
            None => forall|k: int|
                from <= k < bookmarks.len() ==> (#[trigger] bookmarks[k]).id != id,
        },
    decreases bookmarks.len() - from,
{
    if from < bookmarks.len() {
        lemma_bookmark_at(bookmarks, id, from + 1);
    }
}

proof fn lemma_first_tab_of(tabs: Seq<TabView>, stream: u128, from: int)
    requires
        0 <= from,
    ensures
        match super::first_tab_of(tabs, stream, from) {
            Some(i) => {
                &&& from <= i < tabs.len()
                &&& tabs[i].stream == stream
                &&& forall|k: int| from <= k < i ==> (#[trigger] tabs[k]).stream != stream
            },
            None => forall|k: int| from <= k < tabs.len() ==> (#[trigger] tabs[k]).stream != stream,
        },
    decreases tabs.len() - from,
{
    if from < tabs.len() {
        lemma_first_tab_of(tabs, stream, from + 1);
    }
}

/// Going to a bookmark shows its own stream at its own place: the first tab
/// of that stream comes on show, or a new one where there is none, and its
/// view is sent to the bookmark's cursor, last of all that is asked.
pub proof fn law_visiting_goes_to_the_bookmarks_place(app: AppView, i: int)
    requires
        app.wf(),
        app.tabs.len() < usize::MAX,
        0 <= i < app.flat().len(),
        app.bookmark_cursor == Some(app.flat()[i].id),
        forall|k: int| 0 <= k < i ==> (#[trigger] app.flat()[k]).id != app.flat()[i].id,
    ensures
        ({
            let bookmark = app.flat()[i];
            let after = app.bookmark_visited();
            let there = after.active as int;
            &&& there < after.tabs.len()
            &&& after.tabs[there].stream == bookmark.stream
            &&& (exists|t: int|
                0 <= t < app.tabs.len() && (#[trigger] app.tabs[t]).stream == bookmark.stream)
                ==> {
                &&& after.tabs == app.tabs
                &&& forall|t: int|
                    0 <= t < there ==> (#[trigger] app.tabs[t]).stream != bookmark.stream
            }
            &&& (forall|t: int|
                0 <= t < app.tabs.len() ==> (#[trigger] app.tabs[t]).stream != bookmark.stream)
                ==> {
                &&& there == app.tabs.len()
                &&& after.tabs.len() == app.tabs.len() + 1
                &&& forall|t: int|
                    0 <= t < app.tabs.len() ==> #[trigger] after.tabs[t] == app.tabs[t]
                &&& after.tabs[there].kind == TabKind::Stream && after.tabs[there].live
                &&& after.outbox.contains(
                    CommandView::OpenView { tab: there as usize, stream: bookmark.stream },
                )
            }
            &&& after.tabs[there].live ==> after.outbox.last() == (CommandView::SeekToCursor {
                tab: there as usize,
                cursor: bookmark.draft.cursor,
            })
            &&& after.outbox.contains(
                CommandView::CheckBookmark {
                    stream: bookmark.stream,
                    cursor: bookmark.draft.cursor,
                },
            )
            &&& after.session.bookmarks == app.session.bookmarks
            &&& after.session.streams == app.session.streams
        }),
{
    let bookmark = app.flat()[i];
    lemma_bookmark_at(app.flat(), bookmark.id, 0);
    assert(app.bookmark_cursor_idx() == Some(i));
    lemma_first_tab_of(app.tabs, bookmark.stream, 0);
    let after = app.bookmark_visited();
    let n = after.outbox.len() as int;
    let check = CommandView::CheckBookmark {
        stream: bookmark.stream,
        cursor: bookmark.draft.cursor,
    };
    if after.tabs[after.active as int].live {
        assert(after.outbox[n - 2] == check);
    } else {
        assert(after.outbox[n - 1] == check);
    }
    if super::first_tab_of(app.tabs, bookmark.stream, 0) is None {
        assert(after.outbox[app.outbox.len() as int] == (CommandView::OpenView {
            tab: app.tabs.len() as usize,
            stream: bookmark.stream,
        }));
    }
}

/// The highlight goes from row to row of the list: one down or one up, no
/// further than its ends.
pub proof fn law_highlight_goes_row_by_row(app: AppView, i: int)
    requires
        0 <= i < app.flat().len(),
        app.bookmark_cursor == Some(app.flat()[i].id),
        forall|k: int| 0 <= k < i ==> (#[trigger] app.flat()[k]).id != app.flat()[i].id,
    ensures
        app.bookmark_cursor_moved(1).bookmark_cursor == Some(
            app.flat()[if i + 1 < app.flat().len() {
                i + 1
            } else {
                i
            }].id,
        ),
        app.bookmark_cursor_moved(-1).bookmark_cursor == Some(
            app.flat()[if i > 0 {
                i - 1
            } else {
                0
            }].id,
        ),
        app.bookmark_cursor_moved(1).session == app.session,
        app.bookmark_cursor_moved(1).tabs == app.tabs,
{
    lemma_bookmark_at(app.flat(), app.flat()[i].id, 0);
}

/// The keys of the bookmarks pane: up and down the list, Enter to go there,
/// `x` to be asked whether to delete the highlighted one, by its name or
/// message.
pub proof fn law_bookmark_keys_do_what_they_stand_for(
    app: AppView,
    key: KeyEvent,
    answers: Answers,
    fresh: Fresh,
)
    requires
        app.dialog is None,
        app.session.bookmarks.len() > 0,
        app.active == app.tabs.len(),
    ensures
        ({
            let told = AppView { notice: None, ..app };
            let after = app.pressed(key, answers, fresh);
            &&& pressed_alone(key, KeyCode::Char('j')) || pressed_alone(key, KeyCode::Down)
                ==> after == told.bookmark_cursor_moved(1)
            &&& pressed_alone(key, KeyCode::Char('k')) || pressed_alone(key, KeyCode::Up)
                ==> after == told.bookmark_cursor_moved(-1)
            &&& pressed_alone(key, KeyCode::Enter) ==> after == told.bookmark_visited()
            &&& pressed_alone(key, KeyCode::Tab) ==> after == told.next_pane()
            &&& pressed_alone(key, KeyCode::Char('q')) ==> after.dialog == Some(
                DialogView::ConfirmQuit,
            )
            &&& pressed_alone(key, KeyCode::Char('x')) ==> match app.bookmark_cursor_idx() {
                Some(i) => after.dialog matches Some(
                    DialogView::ConfirmDeleteBookmark { id, label },
                ) && id == app.flat()[i].id && match app.flat()[i].name {
                    Some(name) => label == "\""@ + name + "\""@,
                    None => app.flat()[i].draft.display_msg.len() <= 80 ==> label
                        == app.flat()[i].draft.display_msg,
                },
                None => after == told,
            }
            &&& pressed_alone(key, KeyCode::Char('Y')) && app.stored ==> match (if app.bookmark_cursor_idx() is None {
                told.bookmark_cursor_moved(0)
            } else {
                told
            }).bookmark_cursor_idx() {
                Some(i) => after.outbox == app.outbox.push(
                    CommandView::SaveAndShow(
                        SelectorView::Bookmark(
                            crate::session::BookmarkId(app.flat()[i].id).text(),
                        ),
                    ),
                ),
                None => after.outbox == app.outbox,
            }
        }),
{
}

/// Selecting a record: `x`, `X` and `b` begin at the record whose line is at
/// the top, to keep it out, to keep it in or to bookmark it.
pub proof fn law_selecting_begins_at_the_top(
    app: AppView,
    key: KeyEvent,
    answers: Answers,
    fresh: Fresh,
)
    requires
        over_a_tab(app),
        app.tabs[app.active as int].content.events.len() > 0,
        app.tabs[app.active as int].viewport_top
            < app.tabs[app.active as int].content.event_for_line.len(),
        pressed_alone(key, KeyCode::Char('x')) || pressed_alone(key, KeyCode::Char('X'))
            || pressed_alone(key, KeyCode::Char('b')),
    ensures
        ({
            let tab = app.tabs[app.active as int];
            let after = app.pressed(key, answers, fresh);
            &&& after.tabs[app.active as int].select matches Some(sel) && {
                &&& sel.event_idx == tab.content.event_for_line[tab.viewport_top as int]
                &&& key.code == KeyCode::Char('x') ==> sel.action == SelectionAction::Exclude
                &&& key.code == KeyCode::Char('X') ==> sel.action == SelectionAction::Include
                &&& key.code == KeyCode::Char('b') ==> sel.action == SelectionAction::Bookmark
            }
            &&& after.tabs[app.active as int] == (TabView {
                select: after.tabs[app.active as int].select,
                ..tab
            })
            &&& after.outbox == app.outbox
            &&& after.session == app.session
        }),
{
}

/// While selecting, `j` and `k` go on to the next record and back, Enter does
/// what was asked for and Esc leaves everything as it was.
pub proof fn law_selection_keys_do_what_they_stand_for(
    app: AppView,
    key: KeyEvent,
    answers: Answers,
    fresh: Fresh,
)
    requires
        app.wf(),
        app.dialog is None,
        app.active < app.tabs.len(),
        app.tabs[app.active as int].select is Some,
        app.tabs[app.active as int].select->Some_0.event_idx
            < app.tabs[app.active as int].content.events.len() <= usize::MAX,
    ensures
        ({
            let told = AppView { notice: None, ..app };
            let tab = app.tabs[app.active as int];
            let sel = tab.select->Some_0;
            let after = app.pressed(key, answers, fresh);
            let now = after.tabs[app.active as int];
            let last = tab.content.events.len() - 1;
            &&& pressed_alone(key, KeyCode::Char('j')) || pressed_alone(key, KeyCode::Down)
                ==> (now.select matches Some(next) && next.event_idx == if sel.event_idx < last {
                sel.event_idx + 1
            } else {
                last
            })
            &&& pressed_alone(key, KeyCode::Char('k')) || pressed_alone(key, KeyCode::Up)
                ==> (now.select matches Some(next) && next.event_idx == if sel.event_idx > 0 {
                sel.event_idx - 1
            } else {
                0
            })
            &&& pressed_alone(key, KeyCode::Enter) ==> after == told.selection_committed()
            &&& pressed_alone(key, KeyCode::Esc) ==> {
                &&& now == (TabView { select: None, ..tab })
                &&& after.session == app.session
                &&& after.outbox == app.outbox
            }
            &&& after.session.bookmarks == app.session.bookmarks
        }),
{
}

/// To bookmark the selected record, a live view is asked where it is; its
/// answer opens the dialog for a name, with a draft that says what the record
/// says and where it was found.
pub proof fn law_bookmarking_asks_where_the_record_is(
    app: AppView,
    cursor: Map<Seq<char>, ByteOffset>,
)
    requires
        app.wf(),
        app.dialog is None,
        app.active < app.tabs.len(),
        app.tabs[app.active as int].live,
        app.tabs[app.active as int].select is Some,
        app.tabs[app.active as int].select->Some_0.action == SelectionAction::Bookmark,
        app.tabs[app.active as int].select->Some_0.event_idx
            < app.tabs[app.active as int].content.events.len(),
        app.tabs[app.active as int].content.events[app.tabs[app.active as int].select->Some_0.event_idx as int] is Event,
    ensures
        ({
            let tab = app.tabs[app.active as int];
            let event = tab.select->Some_0.event_idx;
            let row = tab.content.events[event as int];
            let asked = app.selection_committed();
            let told = asked.record_located(app.active as int, event as int, cursor);
            &&& asks_one_more(app, asked, CommandView::LocateRecord { tab: app.active, event })
            &&& asked.tabs == app.tabs
            &&& told.dialog matches Some(DialogView::BookmarkName { editor, draft }) && {
                &&& editor.before.len() == 0 && editor.after.len() == 0
                &&& draft.cursor == cursor
                &&& draft.display_source == row->Event_source
                &&& draft.display_time == row->Event_event.time
                &&& draft.display_name == row->Event_event.name
                &&& row->Event_event.msg.len() <= 80 ==> draft.display_msg == row->Event_event.msg
                &&& row->Event_event.msg.len() > 80 ==> draft.display_msg
                    == row->Event_event.msg.take(80).push('…')
            }
            &&& told.tabs[app.active as int].select is None
        }),
{
}

/// What a dialog's outcome does to the application, one by one.
pub proof fn law_dialog_outcomes_are_carried_out(
    app: AppView,
    dialog: DialogView,
    filter: Seq<PredicateView>,
    name: Seq<char>,
    label: Option<Seq<char>>,
    draft: DraftView,
    id: u128,
    opts: RenderOpts,
    fresh: Fresh,
)
    requires
        app.wf(),
        app.active < app.tabs.len() < usize::MAX,
    ensures
        ({
            let closed = AppView { dialog: None, ..app };
            let stream = app.tabs[app.active as int].stream;
            let done = |result: ResultView| app.dialog_done(dialog, result, fresh);
            &&& done(ResultView::Stay) == (AppView { dialog: Some(dialog), ..app })
            &&& done(ResultView::Cancel) == closed
            &&& done(ResultView::ApplyQuit) == (AppView { quit: true, ..closed })
            &&& done(ResultView::ApplyFilter(filter)).session.streams[stream].filter == filter
            &&& done(ResultView::ApplyRename(name)).tabs[app.active as int].name == name
            &&& done(ResultView::ApplyDisplayFields(opts)).session.streams[stream].opts == opts
            &&& done(ResultView::ApplyBookmark { name: label, draft })
                == closed.bookmark_added(label, draft, fresh)
            &&& done(ResultView::ApplyDeleteBookmark(id)) == closed.bookmark_deleted(id)
            &&& forall|d: SearchDirection|
                {
                    let after = #[trigger] done(
                        ResultView::ApplySearch { pattern: name, direction: d },
                    );
                    after.last_search matches Some(last) && last.pattern == name
                        && last.direction == d
                }
            &&& done(ResultView::ApplyFilter(filter)).dialog is None
            &&& done(ResultView::ApplyRename(name)).dialog is None
            &&& done(ResultView::ApplyDisplayFields(opts)).dialog is None
            &&& done(ResultView::ApplyBookmark { name: label, draft }).dialog is None
            &&& done(ResultView::ApplyDeleteBookmark(id)).dialog is None
            &&& !done(ResultView::Cancel).quit == !app.quit
        }),
{
}

/// What a live view reports is shown in its own tab and in no other: its
/// content, where it stands, and its anchor line at the top, unless that is
/// past the last page: then the last page is shown and the view called back
/// to it.
pub proof fn law_views_report_to_their_own_tab(
    app: AppView,
    tab: int,
    content: ContentView,
    cursor: Option<Map<Seq<char>, ByteOffset>>,
    anchor: usize,
)
    requires
        0 <= tab < app.tabs.len() <= usize::MAX,
        app.tabs[tab].live,
    ensures
        ({
            let after = app.view_moved(tab, content, cursor, anchor);
            let last = crate::tab::max_top(
                content.formatted,
                app.viewport_height,
                app.viewport_width,
            );
            &&& after.tabs.len() == app.tabs.len()
            &&& forall|i: int|
                0 <= i < app.tabs.len() && i != tab ==> #[trigger] after.tabs[i] == app.tabs[i]
            &&& after.tabs[tab] == (TabView {
                content,
                cursor,
                viewport_top: if anchor <= last {
                    anchor
                } else {
                    last
                },
                ..app.tabs[tab]
            })
            &&& anchor <= last ==> after.outbox == app.outbox
            &&& anchor > last ==> asks_one_more(
                app,
                after,
                CommandView::SetAnchor { tab: tab as usize, line: last },
            )
            &&& after.session == app.session && after.active == app.active
        }),
{
}

/// Records that are rendered anew are shown in their own tab, with the record
/// at the top that the view was asked to keep there.
pub proof fn law_rerendering_keeps_the_record_at_the_top(
    app: AppView,
    tab: int,
    content: ContentView,
    event: usize,
)
    requires
        0 <= tab < app.tabs.len(),
        app.tabs[tab].live,
        event < content.first_line_for_event.len(),
    ensures
        ({
            let after = app.view_rerendered(tab, content, Some(event));
            &&& after.tabs.len() == app.tabs.len()
            &&& after.tabs[tab].content == content
            &&& after.tabs[tab].viewport_top == content.first_line_for_event[event as int]
            &&& after.tabs[tab].cursor == app.tabs[tab].cursor
            &&& after.tabs[tab].select == app.tabs[tab].select
            &&& after.tabs[tab].stream == app.tabs[tab].stream
            &&& forall|i: int|
                0 <= i < app.tabs.len() && i != tab ==> #[trigger] after.tabs[i] == app.tabs[i]
            &&& after.session == app.session && after.outbox == app.outbox
        }),
{
}

/// A summary is shown in its own tab, from its first line on, once computed;
/// a tab that is no summary takes none.
pub proof fn law_summaries_are_shown_in_their_own_tab(app: AppView, tab: int, content: ContentView)
    requires
        0 <= tab < app.tabs.len(),
    ensures
        ({
            let after = app.summary_built(tab, content);
            &&& app.tabs[tab].kind == TabKind::Summary ==> {
                &&& after.tabs.len() == app.tabs.len()
                &&& after.tabs[tab].content == content
                &&& after.tabs[tab].viewport_top == 0
                &&& after.tabs[tab].name == app.tabs[tab].name
                &&& after.tabs[tab].stream == app.tabs[tab].stream
                &&& forall|i: int|
                    0 <= i < app.tabs.len() && i != tab ==> #[trigger] after.tabs[i]
                        == app.tabs[i]
            }
            &&& app.tabs[tab].kind != TabKind::Summary ==> after == app
            &&& after.session == app.session && after.outbox == app.outbox
        }),
{
}

/// Fitting to another size notes the size, and scrolls the tab on show back
/// to its last page where it had run past it; a size that stays changes
/// nothing.
pub proof fn law_fitting_keeps_the_last_page_in_view(app: AppView, height: u16, width: u16)
    requires
        app.active < app.tabs.len(),
    ensures
        ({
            let after = app.fitted(height, width);
            let tab = app.tabs[app.active as int];
            let last = tab.max_top(height, width);
            &&& after.viewport_height == height && after.viewport_width == width
            &&& after.tabs.len() == app.tabs.len()
            &&& after.tabs[app.active as int] == (TabView {
                viewport_top: if tab.viewport_top <= last {
                    tab.viewport_top
                } else {
                    last
                },
                ..tab
            })
            &&& forall|i: int|
                0 <= i < app.tabs.len() && i != app.active ==> #[trigger] after.tabs[i]
                    == app.tabs[i]
            &&& height == app.viewport_height && width == app.viewport_width ==> after.policy
                == app.policy
            &&& height != app.viewport_height || width != app.viewport_width
                ==> after.policy.dirty
            &&& after.session == app.session && after.outbox == app.outbox
        }),
{
}

/// New render options reach every tab of the stream that shows records: each
/// live view is asked to render anew with these options, keeping the record
/// at the top, and nothing is asked of other tabs.
pub proof fn law_new_options_reach_the_streams_tabs(app: AppView, opts: RenderOpts)
    requires
        app.wf(),
        app.active < app.tabs.len() <= usize::MAX,
    ensures
        ({
            let stream = app.tabs[app.active as int].stream;
            let after = app.opts_applied(opts);
            let n = app.outbox.len() as int;
            &&& forall|id: u128|
                id != stream ==> #[trigger] after.session.streams[id]
                    == app.session.streams[id]
            &&& forall|k: int| 0 <= k < n ==> #[trigger] after.outbox[k] == app.outbox[k]
            &&& forall|k: int|
                n <= k < after.outbox.len() ==> match #[trigger] after.outbox[k] {
                    CommandView::Rerender { tab, opts: with, anchor } => {
                        &&& with == opts
                        &&& tab < app.tabs.len() && app.tabs[tab as int].stream == stream
                        &&& anchor == app.tabs[tab as int].anchor_event()
                    },
                    CommandView::OpenView { tab, stream: of } => of == stream && tab
                        < app.tabs.len() && app.tabs[tab as int].stream == stream
                        && !app.tabs[tab as int].live,
                    CommandView::Save => app.stored,
                    _ => false,
                }
            &&& forall|i: int|
                0 <= i < app.tabs.len() && (#[trigger] app.tabs[i]).stream == stream
                    && app.tabs[i].kind == TabKind::Stream && app.tabs[i].live
                    ==> after.outbox.contains(
                    CommandView::Rerender {
                        tab: i as usize,
                        opts,
                        anchor: app.tabs[i].anchor_event(),
                    },
                )
            &&& forall|i: int|
                0 <= i < app.tabs.len() && (#[trigger] app.tabs[i]).stream != stream
                    ==> after.tabs[i] == app.tabs[i]
        }),
{
    let stream = app.tabs[app.active as int].stream;
    let asked = super::commands_for_rendering(app.tabs, stream, opts, app.tabs.len() as int);
    let after = app.opts_applied(opts);
    let n = app.outbox.len() as int;
    lemma_rendering_commands(app.tabs, stream, opts, app.tabs.len() as int);
    assert forall|c: CommandView| asked.contains(c) implies after.outbox.contains(c) by {
        let k = choose|k: int| 0 <= k < asked.len() && asked[k] == c;
        assert(after.outbox[n + k] == c);
    }
    assert forall|k: int| n <= k < n + asked.len() implies #[trigger] after.outbox[k]
        == asked[k - n] by {}
}

proof fn lemma_rendering_commands(
    tabs: Seq<TabView>,
    stream: u128,
    opts: RenderOpts,
    end: int,
)
    requires
        0 <= end <= tabs.len() <= usize::MAX,
    ensures
        ({
            let asked = super::commands_for_rendering(tabs, stream, opts, end);
            &&& forall|k: int|
                0 <= k < asked.len() ==> match #[trigger] asked[k] {
                    CommandView::Rerender { tab, opts: with, anchor } => {
                        &&& with == opts
                        &&& tab < end && tabs[tab as int].stream == stream
                        &&& anchor == tabs[tab as int].anchor_event()
                    },
                    CommandView::OpenView { tab, stream: of } => of == stream && tab < end
                        && tabs[tab as int].stream == stream && !tabs[tab as int].live,
                    _ => false,
                }
            &&& forall|i: int|
                0 <= i < end && (#[trigger] tabs[i]).stream == stream && tabs[i].kind
                    == TabKind::Stream && tabs[i].live ==> asked.contains(
                    CommandView::Rerender {
                        tab: i as usize,
                        opts,
                        anchor: tabs[i].anchor_event(),
                    },
                )
        }),
    decreases end,
{
    if end > 0 {
        lemma_rendering_commands(tabs, stream, opts, end - 1);
        let before = super::commands_for_rendering(tabs, stream, opts, end - 1);
        let asked = super::commands_for_rendering(tabs, stream, opts, end);
        assert forall|c: CommandView| before.contains(c) implies asked.contains(c) by {
            let k = choose|k: int| 0 <= k < before.len() && before[k] == c;
            assert(asked[k] == c);
        }
        if asked.len() > before.len() {
            assert(asked[before.len() as int] == asked.last());
            assert(asked.contains(asked.last()));
        }
        assert forall|k: int| 0 <= k < before.len() implies #[trigger] asked[k] == before[k] by {}
    }
}

/// The record that counts as being at the top is the one whose line stands
/// there.
pub proof fn law_the_line_at_the_top_tells_the_record(tab: TabView)
    ensures
        tab.viewport_top < tab.content.event_for_line.len() ==> tab.anchor_event() == Some(
            tab.content.event_for_line[tab.viewport_top as int],
        ),
        tab.viewport_top >= tab.content.event_for_line.len() ==> tab.anchor_event() is None,
{
}

/// Whether what a session remembers of its tabs is how they are: each in its
/// place, by name, stream and kind, and a live one where it stands.
pub open spec fn tabs_noted(app: AppView) -> bool {
    &&& app.session.tabs.len() == app.tabs.len()
    &&& forall|i: int|
        0 <= i < app.tabs.len() ==> {
            &&& (#[trigger] app.session.tabs[i]).name == app.tabs[i].name
            &&& app.session.tabs[i].stream == app.tabs[i].stream
            &&& app.session.tabs[i].kind == app.tabs[i].kind
            &&& app.tabs[i].live ==> app.session.tabs[i].cursor == app.tabs[i].cursor
            &&& !app.tabs[i].live ==> app.session.tabs[i].cursor is None
        }
}

/// Whether a change has been noted: the tabs are remembered as they are, the
/// session is due to be saved, and where it is stored a save is asked for last
/// of all.
pub open spec fn noted_and_saved(app: AppView) -> bool {
    &&& tabs_noted(app)
    &&& app.policy.dirty
    &&& app.stored ==> app.outbox.len() > 0 && app.outbox.last() == CommandView::Save
}

/// Whatever changes the session is noted and saved: a new tab, a filter, the
/// options, a name, a closed tab, a bookmark made or deleted.
pub proof fn law_changes_are_noted_and_saved(
    app: AppView,
    kind: TabKind,
    filter: Seq<PredicateView>,
    opts: RenderOpts,
    name: Seq<char>,
    label: Option<Seq<char>>,
    draft: DraftView,
    id: u128,
    fresh: Fresh,
)
    requires
        app.active < app.tabs.len(),
    ensures
        noted_and_saved(app.tab_pushed(kind, filter, id)),
        noted_and_saved(app.filter_applied(filter)),
        noted_and_saved(app.opts_applied(opts)),
        noted_and_saved(app.tab_renamed(name)),
        noted_and_saved(app.tab_closed(fresh)),
        noted_and_saved(app.bookmark_added(label, draft, fresh)),
        noted_and_saved(app.bookmark_deleted(id)),
{
}

/// Whatever moves the view makes the session due to be saved, for the places
/// of the tabs are saved with it.
pub proof fn law_moves_make_a_save_due(
    app: AppView,
    lines: usize,
    direction: Direction,
    way: SearchDirection,
    anchor: SearchAnchor,
    cursor: Map<Seq<char>, ByteOffset>,
    height: u16,
    width: u16,
)
    ensures
        app.scrolled_down(lines).policy.dirty,
        app.scrolled_up(lines).policy.dirty,
        app.sought_start().policy.dirty,
        app.sought_end().policy.dirty,
        app.sought_cursor(cursor).policy.dirty,
        app.advanced(direction).policy.dirty,
        app.jumped(way, anchor).policy.dirty,
        app.bookmark_cursor_idx() is Some ==> app.bookmark_visited().policy.dirty,
        height != app.viewport_height || width != app.viewport_width ==> app.fitted(
            height,
            width,
        ).policy.dirty,
{
}

/// Once bookmarks are deleted, the highlight stays where it was unless it was
/// on one of them, and the pane stays on show while there is one left.
pub proof fn law_deleting_keeps_the_highlight(app: AppView, id: u128)
    requires
        app.wf(),
        app.tabs.len() <= usize::MAX,
    ensures
        ({
            let after = app.bookmark_deleted(id);
            let left = after.session.bookmarks.len();
            &&& left > 0 && app.bookmark_cursor != Some(id) ==> after.bookmark_cursor
                == app.bookmark_cursor
            &&& left == 0 || app.bookmark_cursor == Some(id) ==> after.bookmark_cursor is None
            &&& left > 0 || app.active < app.tabs.len() ==> after.active == app.active
            &&& left == 0 && app.active >= app.tabs.len() ==> after.active == app.tabs.len() - 1
        }),
{
    if app.active < app.tabs.len() {
        assert(!app.bookmarks_active());
    }
}

/// Without a highlight, going down or up begins at the first row.
pub proof fn law_highlight_begins_at_the_first_row(app: AppView)
    requires
        app.flat().len() > 0,
        app.bookmark_cursor is None,
    ensures
        app.bookmark_cursor_moved(0).bookmark_cursor == Some(app.flat()[0].id),
        app.bookmark_cursor_moved(-1).bookmark_cursor == Some(app.flat()[0].id),
        app.flat().len() > 1 ==> app.bookmark_cursor_moved(1).bookmark_cursor == Some(
            app.flat()[1].id,
        ),
        app.bookmark_visited() == app,
{
}

/// Stopping long work tells what was stopped: a summary's own tab says that it
/// was cancelled, a search or seek is told of in the notice, and nothing else
/// changes.
pub proof fn law_stopping_tells_what_was_stopped(
    app: AppView,
    tab: crate::long_op::TabIdx,
    label: Seq<char>,
)
    requires
        tab.0 < app.tabs.len(),
    ensures
        app.long_op_cancelled(crate::queue::CancelledView::Nothing) == app,
        app.long_op_cancelled(crate::queue::CancelledView::Search) == (AppView {
            notice: Some("search cancelled"@),
            ..app
        }),
        app.long_op_cancelled(crate::queue::CancelledView::Seek(label)) == (AppView {
            notice: Some(label + " cancelled"@),
            ..app
        }),
        ({
            let after = app.long_op_cancelled(crate::queue::CancelledView::Summary(tab));
            &&& app.tabs[tab.0 as int].kind == TabKind::Summary
                ==> after.tabs[tab.0 as int].content.formatted
                == seq!["summary cancelled — rerun with `f<enter>`"@]
            &&& forall|i: int|
                0 <= i < app.tabs.len() && i != tab.0 ==> #[trigger] after.tabs[i] == app.tabs[i]
            &&& after.outbox == app.outbox && after.session == app.session
        }),
{
}

/// A summary that is begun says so in its own tab, from its first line on.
pub proof fn law_begun_summaries_say_so(app: AppView, tab: int)
    requires
        0 <= tab < app.tabs.len(),
        app.tabs[tab].kind == TabKind::Summary,
    ensures
        ({
            let after = app.summary_started(tab);
            &&& after.tabs.len() == app.tabs.len()
            &&& after.tabs[tab].content.formatted == seq!["Computing summary..."@]
            &&& after.tabs[tab].viewport_top == 0 && after.tabs[tab].search is None
            &&& after.tabs[tab].name == app.tabs[tab].name
            &&& after.tabs[tab].stream == app.tabs[tab].stream
            &&& forall|i: int|
                0 <= i < app.tabs.len() && i != tab ==> #[trigger] after.tabs[i] == app.tabs[i]
            &&& after.session == app.session && after.outbox == app.outbox
        }),
{
}

/// What comes too late changes nothing: a report on a tab that is not live, or
/// a record located once another tab is on show or a dialog open.
pub proof fn law_late_answers_change_nothing(
    app: AppView,
    tab: int,
    event: int,
    content: ContentView,
    cursor: Option<Map<Seq<char>, ByteOffset>>,
    place: Map<Seq<char>, ByteOffset>,
    anchor: usize,
)
    ensures
        tab < 0 || tab >= app.tabs.len() || !app.tabs[tab].live ==> app.view_moved(
            tab,
            content,
            cursor,
            anchor,
        ) == app && app.view_rerendered(tab, content, Some(anchor)) == app,
        app.active != tab || app.dialog is Some ==> app.record_located(tab, event, place) == app,
{
}

/// The keys that change the time step: one longer or one shorter of the steps,
/// as far as there are.
pub proof fn law_step_keys_change_the_step(
    app: AppView,
    key: KeyEvent,
    answers: Answers,
    fresh: Fresh,
)
    requires
        over_a_tab(app),
    ensures
        pressed_alone(key, KeyCode::Char('=')) || pressed_alone(key, KeyCode::Char('+'))
            ==> app.pressed(key, answers, fresh) == (AppView {
            notice: None,
            time_step_idx: (if app.time_step_idx < 12 {
                app.time_step_idx + 1
            } else {
                app.time_step_idx as int
            }) as usize,
            ..app
        }),
        pressed_alone(key, KeyCode::Char('-')) ==> app.pressed(key, answers, fresh) == (AppView {
            notice: None,
            time_step_idx: (if app.time_step_idx > 0 {
                app.time_step_idx - 1
            } else {
                0
            }) as usize,
            ..app
        }),
{
}

/// A search prompt opens empty, with the session's history, and asks for the
/// way of its key; nothing else changes.
pub proof fn law_search_prompts_open_empty(
    app: AppView,
    key: KeyEvent,
    answers: Answers,
    fresh: Fresh,
)
    requires
        over_a_tab(app),
        pressed_alone(key, KeyCode::Char('/')) || pressed_alone(key, KeyCode::Char('?')),
    ensures
        ({
            let after = app.pressed(key, answers, fresh);
            &&& after == (AppView { notice: None, dialog: after.dialog, ..app })
            &&& after.dialog matches Some(
                DialogView::Search { editor, direction, parse_error, history, nav },
            )
            &&& editor.before.len() == 0 && editor.after.len() == 0
            &&& parse_error is None && nav is None
            &&& history == app.session.search_history
            &&& direction == SearchDirection::Forward <==> key.code == KeyCode::Char('/')
        }),
{
}

/// A summary's work can be interrupted too; a tab that is neither live nor a
/// summary has nothing to interrupt.
pub proof fn law_interrupts_reach_running_work(
    app: AppView,
    key: KeyEvent,
    answers: Answers,
    fresh: Fresh,
)
    requires
        over_a_tab(app),
        pressed_with_control(key, KeyCode::Char('c')),
    ensures
        ({
            let tab = app.tabs[app.active as int];
            let after = app.pressed(key, answers, fresh);
            &&& tab.live || tab.kind == TabKind::Summary ==> asks_one_more(
                app,
                after,
                CommandView::Interrupt { tab: app.active },
            )
            &&& !tab.live && tab.kind == TabKind::Stream ==> after.outbox == app.outbox
            &&& after.tabs == app.tabs && !after.quit == !app.quit
        }),
{
}

/// Where the view stands past the last line, selecting begins at the last
/// record; with no record there is nothing to select.
pub proof fn law_selecting_past_the_end_takes_the_last(
    app: AppView,
    key: KeyEvent,
    answers: Answers,
    fresh: Fresh,
)
    requires
        over_a_tab(app),
        app.tabs[app.active as int].content.events.len() <= usize::MAX,
        app.tabs[app.active as int].viewport_top
            >= app.tabs[app.active as int].content.event_for_line.len(),
        pressed_alone(key, KeyCode::Char('x')) || pressed_alone(key, KeyCode::Char('X'))
            || pressed_alone(key, KeyCode::Char('b')),
    ensures
        ({
            let tab = app.tabs[app.active as int];
            let after = app.pressed(key, answers, fresh);
            &&& tab.content.events.len() == 0 ==> after == (AppView { notice: None, ..app })
            &&& tab.content.events.len() > 0 ==> (
            after.tabs[app.active as int].select matches Some(sel) && sel.event_idx
                == tab.content.events.len() - 1)
        }),
{
}

/// A new filter ends every search and selection in the stream's tabs, and
/// leaves the other tabs alone.
pub proof fn law_new_filter_ends_searches_and_selections(
    app: AppView,
    filter: Seq<PredicateView>,
    i: int,
)
    requires
        app.active < app.tabs.len(),
        0 <= i < app.tabs.len(),
    ensures
        ({
            let stream = app.tabs[app.active as int].stream;
            let after = app.filter_applied(filter);
            let tab = app.tabs[i];
            &&& after.tabs.len() == app.tabs.len()
            &&& tab.stream != stream ==> after.tabs[i] == tab
            &&& tab.stream == stream ==> {
                &&& after.tabs[i].search is None && after.tabs[i].select is None
                &&& after.tabs[i].name == tab.name && after.tabs[i].stream == tab.stream
                &&& after.tabs[i].kind == tab.kind && after.tabs[i].live == tab.live
                &&& after.tabs[i].cursor == tab.cursor
            }
            &&& tab.stream == stream && tab.kind == TabKind::Stream && tab.live
                ==> after.tabs[i].viewport_top == tab.viewport_top && after.tabs[i].content
                == tab.content
            &&& after.active == app.active && after.session.bookmarks == app.session.bookmarks
        }),
{
}

/// New options end the searches in the stream's tabs, whose lines change, and
/// leave summaries and other streams' tabs alone.
pub proof fn law_new_options_end_searches(app: AppView, opts: RenderOpts, i: int)
    requires
        app.active < app.tabs.len(),
        0 <= i < app.tabs.len(),
    ensures
        ({
            let stream = app.tabs[app.active as int].stream;
            let after = app.opts_applied(opts);
            let tab = app.tabs[i];
            &&& after.tabs.len() == app.tabs.len()
            &&& tab.stream != stream || tab.kind == TabKind::Summary ==> after.tabs[i] == tab
            &&& tab.stream == stream && tab.kind == TabKind::Stream && tab.live ==> after.tabs[i]
                == (TabView { search: None, ..tab })
            &&& tab.stream == stream && tab.kind == TabKind::Stream && !tab.live ==> {
                &&& after.tabs[i].live && after.tabs[i].search is None
                &&& after.tabs[i].content.formatted.len() == 0
                &&& after.tabs[i].viewport_top == 0
            }
            &&& after.session.streams[stream].opts == opts
            &&& after.session.streams[stream].filter == app.session.streams[stream].filter
            &&& after.session.streams[stream].name == app.session.streams[stream].name
        }),
{
}

/// New tabs are numbered past every number that a saved tab's name ends in, and
/// from one on where there is none.
pub proof fn law_numbers_go_on_past_the_saved(saved: Seq<SavedTabView>, i: int)
    requires
        0 <= i < saved.len(),
    ensures
        AppView::next_number(saved, 1) >= 1,
        AppView::next_number(Seq::empty(), 1) == 1,
        crate::number::tab_number(saved[i].name) matches Some(n) ==> n < usize::MAX
            ==> AppView::next_number(saved, 1) > n,
        AppView::next_number(saved, 1) == 1 || exists|k: int|
            0 <= k < saved.len() && (crate::number::tab_number(
                (#[trigger] saved[k]).name,
            ) matches Some(n) && (AppView::next_number(saved, 1) == n + 1 || n == usize::MAX)),
    decreases saved.len(),
{
    let shorter = saved.drop_last();
    let last = saved.len() - 1;
    if i < last {
        law_numbers_go_on_past_the_saved(shorter, i);
        assert(shorter[i] == saved[i]);
    } else if last > 0 {
        law_numbers_go_on_past_the_saved(shorter, 0);
    }
    let before = AppView::next_number(shorter, 1);
    let next = AppView::next_number(saved, 1);
    if next == before {
        if before != 1 {
            assert(last > 0);
            let k = choose|k: int|
                0 <= k < shorter.len() && (crate::number::tab_number(
                    (#[trigger] shorter[k]).name,
                ) matches Some(n) && (before == n + 1 || n == usize::MAX));
            assert(saved[k] == shorter[k]);
        }
    } else {
        assert(saved[last] == saved.last());
    }
}

/// With no tab to restore, a session begins with one tab over all records, on
/// show, for a new stream; its bookmarks, sources and history are kept.
pub proof fn law_sessions_begin_with_one_tab(
    session: SessionView,
    stored: bool,
    policy: PolicyView,
    fresh: Fresh,
)
    requires
        session.tabs.len() == 0,
    ensures
        ({
            let app = AppView::started(session, stored, policy, fresh);
            &&& app.tabs.len() == 1 && app.active == 0
            &&& app.tabs[0].stream == fresh.stream.0 && app.tabs[0].kind == TabKind::Stream
            &&& app.tabs[0].live
            &&& app.session.streams[fresh.stream.0].filter.len() == 0
            &&& app.session.streams[fresh.stream.0].id == fresh.stream.0
            &&& app.outbox[0] == (CommandView::OpenView { tab: 0, stream: fresh.stream.0 })
            &&& app.outbox.len() == if stored {
                2int
            } else {
                1
            }
            &&& app.session.bookmarks == session.bookmarks
            &&& app.session.sources == session.sources
            &&& app.session.search_history == session.search_history
            &&& app.session.id == session.id && app.stored == stored
            &&& super::time_step(app.time_step_idx as int).1 == 60_000
            &&& !app.quit && app.dialog is None && app.notice is None
            &&& app.last_search is None && app.bookmark_cursor is None && !app.show_fetch_stats
        }),
{
}

/// A new tab, and the stream that it shows, is named by its kind and the next
/// number, and shown plainly: with date, short hostname and name.
pub proof fn law_new_tabs_are_named_by_number(
    app: AppView,
    kind: TabKind,
    filter: Seq<PredicateView>,
    stream: u128,
)
    ensures
        ({
            let after = app.tab_pushed(kind, filter, stream);
            let name = (if kind == TabKind::Summary {
                "Summary "@
            } else {
                "Tab "@
            }) + crate::number::decimal(app.next_tab_number as nat);
            &&& after.tabs[app.tabs.len() as int].name == name
            &&& after.session.streams[stream].name == name
            &&& after.session.streams[stream].opts == (RenderOpts {
                show_extras: false,
                show_raw: false,
                show_date: true,
                hostname: HostnameDisplay::Short,
                show_name: true,
                show_pid: false,
            })
        }),
{
}

/// Repeating the last search goes on past where the view stands, the way that
/// is asked, and makes that the way of the search; with no search before there
/// is nothing to repeat.
pub proof fn law_repeated_searches_move_on(app: AppView, direction: SearchDirection)
    requires
        app.active < app.tabs.len(),
        !app.tabs[app.active as int].live,
        app.tabs[app.active as int].content.formatted.len() <= usize::MAX,
        app.last_search matches Some(last) ==> regex_error(last.pattern) is None,
        app.last_search matches Some(last) ==> app.tabs[app.active as int].search matches Some(
            search,
        ) ==> search.pattern == last.pattern ==> search.matches == matching(
            app.tabs[app.active as int].content.formatted,
            search.pattern,
        ),
    ensures
        app.last_search is None ==> app.search_repeated(direction) == app,
        app.last_search matches Some(last) ==> {
            let tab = app.tabs[app.active as int];
            let lines = tab.content.formatted;
            let from = tab.viewport_top as int;
            let after = app.search_repeated(direction);
            let top = after.tabs[app.active as int].viewport_top as int;
            &&& after.last_search matches Some(now) && now.pattern == last.pattern && now.direction
                == direction
            &&& after.session.search_history.len() > 0 && after.session.search_history[0]
                == last.pattern
            &&& forall|line: int|
                0 <= line < lines.len() && regex_is_match(last.pattern, #[trigger] lines[line])
                    ==> {
                    &&& direction == SearchDirection::Forward && line > from ==> from < top <= line
                    &&& direction == SearchDirection::Backward && line < from ==> line <= top
                        < from
                }
            &&& top != from ==> 0 <= top < lines.len() && regex_is_match(last.pattern, lines[top])
        },
{
    if app.last_search is Some {
        law_match_steps_move_on(app, direction);
        let after = app.search_repeated(direction);
        let stepped = app.search_stepped(direction);
        assert(after.tabs =~= stepped.tabs);
    }
}

/// Before a search is stepped through, the tab on show gets its pattern: its
/// own search stays where it is the same one, and an unreadable pattern
/// changes nothing.
pub proof fn law_tabs_take_up_the_search(app: AppView, pattern: Seq<char>)
    requires
        app.active < app.tabs.len(),
    ensures
        ({
            let tab = app.tabs[app.active as int];
            let after = app.search_ensured(pattern);
            let now = after.tabs[app.active as int];
            &&& (tab.search matches Some(search) && search.pattern == pattern) ==> after == app
            &&& regex_error(pattern) is Some ==> after == app
            &&& regex_error(pattern) is None ==> (now.search matches Some(search) && search.pattern
                == pattern)
            &&& now == (TabView { search: now.search, ..tab })
            &&& forall|i: int|
                0 <= i < app.tabs.len() && i != app.active ==> #[trigger] after.tabs[i]
                    == app.tabs[i]
            &&& after == (AppView { tabs: after.tabs, ..app })
        }),
{
    let tab = app.tabs[app.active as int];
    assert(app.tabs.update(app.active as int, tab) =~= app.tabs);
}

/// An empty search prompt repeats the last search, its own way.
pub proof fn law_empty_prompts_repeat_the_search(
    app: AppView,
    dialog: DialogView,
    direction: SearchDirection,
    fresh: Fresh,
)
    ensures
        app.dialog_done(dialog, ResultView::RepeatSearch(direction), fresh) == (AppView {
            dialog: None,
            ..app
        }).search_repeated(direction),
{
}

/// A bookmark whose stream no tab shows gets a tab, which is noted and saved.
pub proof fn law_visiting_may_open_a_tab(app: AppView, i: int)
    requires
        app.wf(),
        app.tabs.len() < usize::MAX,
        0 <= i < app.flat().len(),
        app.bookmark_cursor == Some(app.flat()[i].id),
        forall|k: int| 0 <= k < i ==> (#[trigger] app.flat()[k]).id != app.flat()[i].id,
        forall|t: int|
            0 <= t < app.tabs.len() ==> (#[trigger] app.tabs[t]).stream != app.flat()[i].stream,
    ensures
        ({
            let after = app.bookmark_visited();
            &&& tabs_noted(after)
            &&& app.stored ==> after.outbox.contains(CommandView::Save)
            &&& after.tabs[app.tabs.len() as int].name == "Tab "@ + crate::number::decimal(
                app.next_tab_number as nat,
            )
        }),
{
    lemma_bookmark_at(app.flat(), app.flat()[i].id, 0);
    lemma_first_tab_of(app.tabs, app.flat()[i].stream, 0);
    let after = app.bookmark_visited();
    if app.stored {
        assert(after.outbox[app.outbox.len() as int + 1] == CommandView::Save);
    }
}

/// The further keys of the bookmarks pane, and that all others do nothing
/// there.
pub proof fn law_bookmark_pane_has_these_keys(
    app: AppView,
    key: KeyEvent,
    answers: Answers,
    fresh: Fresh,
)
    requires
        app.dialog is None,
        app.session.bookmarks.len() > 0,
        app.active == app.tabs.len(),
    ensures
        ({
            let told = AppView { notice: None, ..app };
            let after = app.pressed(key, answers, fresh);
            &&& pressed_alone(key, KeyCode::BackTab) ==> after == told.prev_pane()
            &&& pressed_alone(key, KeyCode::Char('h')) ==> after.dialog == Some(
                DialogView::Help { scroll: 0 },
            ) && after.tabs == app.tabs && after.outbox == app.outbox
            &&& pressed_alone(key, KeyCode::Char('f')) || pressed_alone(key, KeyCode::Char('r'))
                || pressed_alone(key, KeyCode::Char('S')) || pressed_with_control(
                key,
                KeyCode::Char('w'),
            ) || pressed_with_control(key, KeyCode::Char('t')) || pressed_alone(
                key,
                KeyCode::Char('/'),
            ) ==> after == told
        }),
{
}

/// While selecting, no other key does anything.
pub proof fn law_selecting_drops_other_keys(
    app: AppView,
    key: KeyEvent,
    answers: Answers,
    fresh: Fresh,
)
    requires
        app.dialog is None,
        app.active < app.tabs.len(),
        app.tabs[app.active as int].select is Some,
        key.kind == KeyEventKind::Press,
        !pressed_alone(key, KeyCode::Esc),
        !pressed_alone(key, KeyCode::Enter),
        !pressed_alone(key, KeyCode::Char('j')),
        !pressed_alone(key, KeyCode::Char('k')),
        !pressed_alone(key, KeyCode::Up),
        !pressed_alone(key, KeyCode::Down),
    ensures
        app.pressed(key, answers, fresh) == (AppView { notice: None, ..app }),
{
}

/// A resumed session numbers its new tabs past all those that it had.
pub proof fn law_resumed_sessions_number_on(
    session: SessionView,
    stored: bool,
    policy: PolicyView,
    fresh: Fresh,
    i: int,
)
    requires
        0 <= i < session.tabs.len(),
        crate::number::tab_number(session.tabs[i].name) matches Some(n) && n < usize::MAX,
    ensures
        AppView::started(session, stored, policy, fresh).next_tab_number
            > crate::number::tab_number(session.tabs[i].name)->Some_0 || AppView::started(
            session,
            stored,
            policy,
            fresh,
        ).next_tab_number == usize::MAX,
{
    law_numbers_go_on_past_the_saved(session.tabs, i);
    let bare = AppView {
        session: SessionView { tabs: Seq::empty(), ..session },
        tabs: Seq::empty(),
        active: 0,
        next_tab_number: AppView::next_number(session.tabs, 1),
        viewport_height: 0,
        viewport_width: 0,
        quit: false,
        dialog: None,
        last_search: None,
        time_step_idx: super::DEFAULT_TIME_STEP_IDX,
        bookmark_cursor: None,
        notice: None,
        stored,
        policy,
        show_fetch_stats: false,
        outbox: Seq::empty(),
    };
    lemma_restoring_keeps_the_number(bare, session.tabs);
}

proof fn lemma_restoring_keeps_the_number(app: AppView, saved: Seq<SavedTabView>)
    ensures
        app.tabs_restored(saved).next_tab_number == app.next_tab_number,
    decreases saved.len(),
{
    if saved.len() > 0 {
        lemma_restoring_keeps_the_number(app, saved.drop_last());
    }
}

/// Asking how to reproduce what is shown notes the tabs as they are, for the
/// command is to find them.
pub proof fn law_reproducing_notes_the_tabs(app: AppView, selector: SelectorView)
    requires
        app.stored,
    ensures
        tabs_noted(app.reproduction_asked(selector)),
        asks_one_more(
            app,
            app.reproduction_asked(selector),
            CommandView::SaveAndShow(selector),
        ),
{
}

/// Whether only the tabs, what is asked for and whether a save is due differ:
/// what a motion may change.
pub open spec fn moved_only(before: AppView, after: AppView) -> bool {
    after == (AppView {
        tabs: after.tabs,
        outbox: after.outbox,
        policy: PolicyView { dirty: after.policy.dirty, ..before.policy },
        ..before
    })
}

/// Motions, and looking for the next match, leave everything else alone: the
/// session, the pane on show, the dialog, the notice, the highlight.
pub proof fn law_motions_leave_the_rest_alone(
    app: AppView,
    lines: usize,
    direction: Direction,
    way: SearchDirection,
    anchor: SearchAnchor,
    cursor: Map<Seq<char>, ByteOffset>,
    action: SelectionAction,
)
    ensures
        moved_only(app, app.scrolled_down(lines)),
        moved_only(app, app.scrolled_up(lines)),
        moved_only(app, app.sought_start()),
        moved_only(app, app.sought_end()),
        moved_only(app, app.sought_cursor(cursor)),
        moved_only(app, app.advanced(direction)),
        moved_only(app, app.jumped(way, anchor)),
        moved_only(app, app.search_stepped(way)),
        moved_only(app, app.selection_started(action)),
        moved_only(app, app.interrupted()),
{
}

/// What views and long work report changes their tabs and asks for what
/// follows from it, and nothing else.
pub proof fn law_reports_leave_the_rest_alone(
    app: AppView,
    tab: int,
    content: ContentView,
    cursor: Option<Map<Seq<char>, ByteOffset>>,
    anchor: usize,
    kept: Option<usize>,
)
    ensures
        moved_only(app, app.view_moved(tab, content, cursor, anchor)),
        moved_only(app, app.view_rerendered(tab, content, kept)),
        moved_only(app, app.summary_started(tab)),
        moved_only(app, app.summary_built(tab, content)),
{
}

/// Whether only the session, the tabs, what is asked for and whether a save is
/// due differ, and of the session only its streams, bookmarks, history and
/// tabs: what a change may change.
pub open spec fn changed_only(before: AppView, after: AppView) -> bool {
    after == (AppView {
        session: SessionView {
            streams: after.session.streams,
            bookmarks: after.session.bookmarks,
            search_history: after.session.search_history,
            tabs: after.session.tabs,
            ..before.session
        },
        tabs: after.tabs,
        outbox: after.outbox,
        policy: PolicyView { dirty: after.policy.dirty, ..before.policy },
        ..before
    })
}

/// Changing a filter, options or a name, and making a bookmark, leaves the
/// pane on show, the numbering, the dialog, the notice and the highlight alone,
/// and the parts of the session that it is not about.
pub proof fn law_changes_leave_the_rest_alone(
    app: AppView,
    filter: Seq<PredicateView>,
    opts: RenderOpts,
    name: Seq<char>,
    label: Option<Seq<char>>,
    draft: DraftView,
    fresh: Fresh,
    id: u128,
)
    ensures
        changed_only(app, app.filter_applied(filter)),
        app.filter_applied(filter).session.bookmarks == app.session.bookmarks,
        app.filter_applied(filter).session.search_history == app.session.search_history,
        changed_only(app, app.opts_applied(opts)),
        app.opts_applied(opts).session.bookmarks == app.session.bookmarks,
        app.opts_applied(opts).session.search_history == app.session.search_history,
        changed_only(app, app.tab_renamed(name)),
        app.tab_renamed(name).session.streams == app.session.streams,
        app.tab_renamed(name).session.bookmarks == app.session.bookmarks,
        app.tab_renamed(name).session.search_history == app.session.search_history,
        changed_only(app, app.bookmark_added(label, draft, fresh)),
        app.bookmark_added(label, draft, fresh).session.search_history
            == app.session.search_history,
        app.bookmark_deleted(id).session.search_history == app.session.search_history,
        app.bookmark_deleted(id).session.id == app.session.id,
        app.bookmark_deleted(id).session.sources == app.session.sources,
        app.bookmark_deleted(id) == (AppView {
            bookmark_cursor: app.bookmark_deleted(id).bookmark_cursor,
            active: app.bookmark_deleted(id).active,
            session: app.bookmark_deleted(id).session,
            outbox: app.bookmark_deleted(id).outbox,
            policy: app.bookmark_deleted(id).policy,
            ..app
        }),
{
}

/// Opening and closing tabs and visiting a bookmark leave the dialog, the
/// notice, the last search, the step and the highlight alone, and of the
/// session all but its streams and tabs.
pub proof fn law_tabs_come_and_go_by_themselves(
    app: AppView,
    kind: TabKind,
    filter: Seq<PredicateView>,
    stream: u128,
    fresh: Fresh,
)
    ensures
        ({
            let alone = |after: AppView|
                after == (AppView {
                    session: SessionView {
                        streams: after.session.streams,
                        tabs: after.session.tabs,
                        ..app.session
                    },
                    tabs: after.tabs,
                    active: after.active,
                    next_tab_number: after.next_tab_number,
                    outbox: after.outbox,
                    policy: PolicyView { dirty: after.policy.dirty, ..app.policy },
                    ..app
                });
            &&& alone(app.tab_pushed(kind, filter, stream))
            &&& alone(app.tab_closed(fresh))
            &&& alone(app.bookmark_visited())
            &&& app.bookmark_visited().session.streams == app.session.streams
        }),
{
}

/// Going to another pane changes the pane on show and takes the notice away;
/// changing the step changes the step.
pub proof fn law_panes_and_steps_change_alone(app: AppView)
    ensures
        app.next_pane() == (AppView { active: app.next_pane().active, notice: None, ..app }),
        app.prev_pane() == (AppView { active: app.prev_pane().active, notice: None, ..app }),
        app.time_step_increased() == (AppView {
            time_step_idx: app.time_step_increased().time_step_idx,
            ..app
        }),
        app.time_step_decreased() == (AppView {
            time_step_idx: app.time_step_decreased().time_step_idx,
            ..app
        }),
        app.bookmark_cursor_moved(1) == (AppView {
            bookmark_cursor: app.bookmark_cursor_moved(1).bookmark_cursor,
            ..app
        }),
        app.bookmark_cursor_moved(-1) == (AppView {
            bookmark_cursor: app.bookmark_cursor_moved(-1).bookmark_cursor,
            ..app
        }),
{
}

/// A search changes the tab on show, the last search and the history, asks for
/// what it needs and makes a save due.
pub proof fn law_searches_leave_the_rest_alone(
    app: AppView,
    pattern: Seq<char>,
    direction: SearchDirection,
)
    ensures
        ({
            let alone = |after: AppView|
                after == (AppView {
                    session: SessionView {
                        search_history: after.session.search_history,
                        ..app.session
                    },
                    tabs: after.tabs,
                    last_search: after.last_search,
                    outbox: after.outbox,
                    policy: PolicyView { dirty: after.policy.dirty, ..app.policy },
                    ..app
                });
            &&& alone(app.searched(pattern, direction))
            &&& alone(app.search_repeated(direction))
        }),
{
}

/// What the filter syntax is asked while a key is handled: to read the text of
/// the filter dialog as it then stands, and to write the filter of the stream
/// on show where it is to be edited, and read what it wrote.
pub proof fn law_filter_syntax_is_asked_about_the_text<F: crate::filter::FilterSyntax>(
    syntax: F,
    app: AppView,
    key: KeyEvent,
    answers: Answers,
)
    requires
        super::consistent(syntax, app, key, answers),
        key.kind == KeyEventKind::Press,
    ensures
        app.dialog matches Some(DialogView::Filter { editor, .. }) ==> key.bare(KeyCode::Enter)
            ==> crate::filter::reads_as(syntax, editor.before + editor.after, answers.parsed),
        over_a_tab(app) && (pressed_alone(key, KeyCode::Char('f')) || pressed_with_control(
            key,
            KeyCode::Char('t'),
        )) ==> {
            let filter = app.session.streams[app.tabs[app.active as int].stream].filter;
            &&& crate::filter::writes_as(syntax, filter, answers.shown)
            &&& crate::filter::reads_as(syntax, answers.shown, answers.parsed)
        },
{
}

/// A session can be opened exactly where the stream of every bookmark is there.
pub proof fn law_sessions_open_with_their_streams(session: SessionView)
    ensures
        super::openable(session) <==> forall|i: int|
            0 <= i < session.bookmarks.len() ==> session.streams.dom().contains(
                (#[trigger] session.bookmarks[i]).stream,
            ),
        session.bookmarks.len() == 0 ==> super::openable(session),
{
}

} // verus!
