//! What holds of the merge as a whole, for sources that answer truthfully.
//!
//! A source's matching records form its log.  The place of a window in a log
//! is the number of records that lie behind it; a fill keeps the place and a
//! step moves it by one.  From that follow the laws of the merged walk.

use crate::engine::merge::{
    all_ready, beats, cursor_of, heads, is_next, lemma_next_source, next_source, position_in,
    refilled, StepperOptions, StepperView,
};
use crate::engine::end_cursor;
use crate::engine::window::{at_most, Answer, RecordView, WindowView, BUFFER_LIMIT};
use crate::filter::PredicateView;
use crate::position::ByteOffset;
use crate::source::Direction;
use vstd::prelude::*;

verus! {

/// Records that follow one another in a source, each with some length.
pub open spec fn is_log(log: Seq<RecordView>) -> bool {
    &&& forall|i: int|
        0 <= i < log.len() ==> (#[trigger] log[i]).length > 0 && log[i].offset + log[i].length
            <= u64::MAX
    &&& forall|i: int, j: int|
        0 <= i < j < log.len() ==> (#[trigger] log[i]).end() <= (#[trigger] log[j]).offset
}

/// Whether `position` lies between the first `place` records of the log and
/// the others.
pub open spec fn lies_at(log: Seq<RecordView>, place: int, position: u64) -> bool {
    &&& 0 <= place <= log.len()
    &&& place > 0 ==> log[place - 1].end() <= position
    &&& place < log.len() ==> position <= log[place].offset
}

/// The records ahead of a place in a direction, nearest first.
pub open spec fn ahead(log: Seq<RecordView>, place: int, dir: Direction) -> Seq<RecordView> {
    match dir {
        Direction::Forward => log.skip(place),
        Direction::Backward => log.take(place).reverse(),
    }
}

/// The place after a step over one record.
pub open spec fn moved(place: int, dir: Direction) -> int {
    match dir {
        Direction::Forward => place + 1,
        Direction::Backward => place - 1,
    }
}

/// Whether the window caches nothing but the nearest records on each side of
/// a place in the log, all of them where it has its end mark.
pub open spec fn stands_at(window: WindowView, log: Seq<RecordView>, place: int) -> bool {
    &&& lies_at(log, place, window.position)
    &&& forall|dir: Direction|
        {
            &&& (#[trigger] window.buf(dir)).is_prefix_of(ahead(log, place, dir))
            &&& window.eof(dir) ==> window.buf(dir) == ahead(log, place, dir)
        }
}

/// Whether an answer to a query from the window's position is truthful: the
/// nearest matching records, the end mark only where there are no more, and,
/// where there is no match, a walk that passes no matching record.
pub open spec fn truthful(
    window: WindowView,
    dir: Direction,
    answer: Answer,
    log: Seq<RecordView>,
    place: int,
) -> bool {
    match answer {
        Ok(batch) => {
            &&& batch@.records.is_prefix_of(ahead(log, place, dir))
            &&& batch@.eof ==> batch@.records == ahead(log, place, dir)
            &&& batch@.records.len() == 0 ==> lies_at(
                log,
                place,
                window.walked_on(dir, batch@.walked),
            )
        },
        Err(_) => false,
    }
}

/// A fresh window stands where its position lies.
pub proof fn law_fresh_window_stands(
    id: Seq<char>,
    position: u64,
    log: Seq<RecordView>,
    place: int,
)
    requires
        lies_at(log, place, position),
    ensures
        stands_at(WindowView::fresh(id, position), log, place),
{
    assert forall|dir: Direction|
        {
            &&& (#[trigger] WindowView::fresh(id, position).buf(dir)).is_prefix_of(
                ahead(log, place, dir),
            )
            &&& WindowView::fresh(id, position).eof(dir) ==> WindowView::fresh(id, position).buf(
                dir,
            ) == ahead(log, place, dir)
        } by {
        let window = WindowView::fresh(id, position);
        assert(window.buf(dir) =~= ahead(log, place, dir).take(0));
        assert(window.eof(dir) == false);
    }
}

/// A fill does not move a window: its cache grows, its place stays.
pub proof fn law_fill_keeps_place(
    window: WindowView,
    dir: Direction,
    answer: Answer,
    log: Seq<RecordView>,
    place: int,
)
    requires
        is_log(log),
        stands_at(window, log, place),
        !window.ready(dir),
        truthful(window, dir, answer, log, place),
    ensures
        stands_at(window.absorbed(dir, answer), log, place),
{
    let after = window.absorbed(dir, answer);
    let batch = answer->Ok_0;
    assert forall|d: Direction|
        {
            &&& (#[trigger] after.buf(d)).is_prefix_of(ahead(log, place, d))
            &&& after.eof(d) ==> after.buf(d) == ahead(log, place, d)
        } by {
        assert(window.buf(d).is_prefix_of(ahead(log, place, d)));
        if d == dir {
            assert(window.buf(dir) + batch@.records =~= batch@.records);
        }
    }
}

/// At the start of a source there is nothing behind, so marking the end
/// without asking is truthful.
pub proof fn law_start_of_source_has_nothing_behind(
    window: WindowView,
    log: Seq<RecordView>,
    place: int,
)
    requires
        is_log(log),
        stands_at(window, log, place),
        !window.ready(Direction::Backward),
        !window.must_query(Direction::Backward),
    ensures
        stands_at(window.with_eof(Direction::Backward, true), log, place),
{
    let after = window.with_eof(Direction::Backward, true);
    assert(place == 0);
    assert forall|d: Direction|
        {
            &&& (#[trigger] after.buf(d)).is_prefix_of(ahead(log, place, d))
            &&& after.eof(d) ==> after.buf(d) == ahead(log, place, d)
        } by {
        assert(window.buf(d).is_prefix_of(ahead(log, place, d)));
        assert(after.buf(d) == window.buf(d));
        if d == Direction::Backward {
            assert(ahead(log, place, d) =~= Seq::<RecordView>::empty());
            assert(after.buf(d) =~= Seq::<RecordView>::empty());
        }
    }
}

/// Taking a record moves the window by exactly one place, whether or not the
/// cache on the other side was cut back.
pub proof fn law_pop_moves_place(
    window: WindowView,
    dir: Direction,
    log: Seq<RecordView>,
    place: int,
)
    requires
        is_log(log),
        stands_at(window, log, place),
        window.buf(dir).len() > 0,
    ensures
        ahead(log, place, dir).len() > 0,
        window.buf(dir)[0] == ahead(log, place, dir)[0],
        stands_at(window.popped(dir), log, moved(place, dir)),
{
    let after = window.popped(dir);
    let back = dir.reversed();
    let next = moved(place, dir);
    let head = window.buf(dir)[0];
    assert(window.buf(dir).is_prefix_of(ahead(log, place, dir)));
    assert(window.buf(back).is_prefix_of(ahead(log, place, back)));
    let kept = seq![head] + window.buf(back);
    assert(seq![head] + ahead(log, place, back) =~= ahead(log, next, back));
    assert(kept.is_prefix_of(ahead(log, next, back))) by {
        assert(kept =~= ahead(log, next, back).take(kept.len() as int)) by {
            assert forall|k: int| 0 <= k < kept.len() implies kept[k] == ahead(log, next, back)[k] by {
                if k > 0 {
                    assert(kept[k] == window.buf(back)[k - 1]);
                    assert(ahead(log, next, back)[k] == ahead(log, place, back)[k - 1]);
                }
            }
        }
    }
    let cut = at_most(kept, BUFFER_LIMIT as int);
    assert(cut.is_prefix_of(ahead(log, next, back))) by {
        assert(cut =~= ahead(log, next, back).take(cut.len() as int));
    }
    assert(ahead(log, place, dir).drop_first() =~= ahead(log, next, dir));
    assert forall|d: Direction|
        {
            &&& (#[trigger] after.buf(d)).is_prefix_of(ahead(log, next, d))
            &&& after.eof(d) ==> after.buf(d) == ahead(log, next, d)
        } by {
        if d == dir {
            assert(after.buf(d) =~= window.buf(d).drop_first());
            assert(after.buf(d) =~= ahead(log, next, d).take(after.buf(d).len() as int));
            assert(after.eof(d) == window.eof(d));
        } else {
            assert(d == back);
            assert(after.buf(d) == cut);
            assert(!after.eof(d));
        }
    }
    assert(lies_at(log, next, after.position)) by {
        match dir {
            Direction::Forward => {
                assert(head == log[place]);
            },
            Direction::Backward => {
                assert(head == log[place - 1]);
            },
        }
    }
}

/// Walking on from where a window stands needs nothing but its position: a
/// window opened afresh at that position stands at the same place.
pub proof fn law_position_resumes(window: WindowView, log: Seq<RecordView>, place: int)
    requires
        stands_at(window, log, place),
    ensures
        stands_at(WindowView::fresh(window.id, window.position), log, place),
        window.cleared() == WindowView::fresh(window.id, window.position),
{
    law_fresh_window_stands(window.id, window.position, log, place);
}

/// Whether every window stands at its place in its log.
pub open spec fn all_stand(
    windows: Seq<WindowView>,
    logs: Seq<Seq<RecordView>>,
    places: Seq<int>,
) -> bool {
    &&& logs.len() == windows.len()
    &&& places.len() == windows.len()
    &&& forall|i: int|
        0 <= i < windows.len() ==> is_log(#[trigger] logs[i]) && stands_at(
            windows[i],
            logs[i],
            places[i],
        )
}

/// Whether every place lies in its log.
pub open spec fn places_in(logs: Seq<Seq<RecordView>>, places: Seq<int>) -> bool {
    &&& places.len() == logs.len()
    &&& forall|i: int| 0 <= i < logs.len() ==> 0 <= #[trigger] places[i] <= logs[i].len()
}

/// The next record of every log in a direction.
pub open spec fn upcoming(
    logs: Seq<Seq<RecordView>>,
    places: Seq<int>,
    dir: Direction,
) -> Seq<Option<RecordView>> {
    Seq::new(
        logs.len(),
        |i: int|
            if ahead(logs[i], places[i], dir).len() > 0 {
                Some(ahead(logs[i], places[i], dir)[0])
            } else {
                None
            },
    )
}

/// Whether every answer in the fills of one source is truthful, met where
/// the window stands at the time.
pub open spec fn truthful_fills(
    window: WindowView,
    dir: Direction,
    answers: Seq<Option<Answer>>,
    log: Seq<RecordView>,
    place: int,
) -> bool {
    forall|k: int|
        0 <= k < answers.len() ==> {
            let before = refilled(window, dir, answers.take(k));
            &&& !before.ready(dir)
            &&& (#[trigger] answers[k]) is Some <==> before.must_query(dir)
            &&& answers[k] matches Some(answer) ==> truthful(before, dir, answer, log, place)
        }
}

/// A run of fills does not move a window.
pub proof fn law_fills_keep_place(
    window: WindowView,
    dir: Direction,
    answers: Seq<Option<Answer>>,
    log: Seq<RecordView>,
    place: int,
)
    requires
        is_log(log),
        stands_at(window, log, place),
        truthful_fills(window, dir, answers, log, place),
    ensures
        stands_at(refilled(window, dir, answers), log, place),
    decreases answers.len(),
{
    if answers.len() > 0 {
        let shorter = answers.drop_last();
        let last = answers.len() - 1;
        assert forall|k: int| 0 <= k < shorter.len() implies ({
            let before = refilled(window, dir, shorter.take(k));
            &&& !before.ready(dir)
            &&& (#[trigger] shorter[k]) is Some <==> before.must_query(dir)
            &&& shorter[k] matches Some(answer) ==> truthful(before, dir, answer, log, place)
        }) by {
            assert(shorter.take(k) =~= answers.take(k));
            assert(shorter[k] == answers[k]);
        }
        law_fills_keep_place(window, dir, shorter, log, place);
        assert(answers.take(last) =~= shorter);
        let before = refilled(window, dir, shorter);
        match answers[last] {
            Some(answer) => {
                law_fill_keeps_place(before, dir, answer, log, place);
            },
            None => {
                law_start_of_source_has_nothing_behind(before, log, place);
            },
        }
    }
}

/// Where every window is ready, the cached heads are the next records of the
/// logs, so choosing among the heads chooses among everything that is left.
pub proof fn law_ready_heads_are_upcoming(
    windows: Seq<WindowView>,
    dir: Direction,
    logs: Seq<Seq<RecordView>>,
    places: Seq<int>,
)
    requires
        all_stand(windows, logs, places),
        all_ready(windows, dir),
    ensures
        heads(windows, dir) == upcoming(logs, places, dir),
{
    assert forall|i: int| 0 <= i < windows.len() implies heads(windows, dir)[i] == upcoming(
        logs,
        places,
        dir,
    )[i] by {
        assert(windows[i].ready(dir));
        assert(stands_at(windows[i], logs[i], places[i]));
        assert(windows[i].buf(dir).is_prefix_of(ahead(logs[i], places[i], dir)));
    }
    assert(heads(windows, dir) =~= upcoming(logs, places, dir));
}

/// A step emits the next record of the merged walk and moves past it alone.
///
/// With truthful answers, a step whose sources are all ready emits the
/// record that comes first among the next records of all logs, and nothing
/// exactly where no log has one left.  A step whose scan budget ran out
/// emits nothing and moves nowhere.
pub proof fn law_step_emits_the_next_record(
    before: StepperView,
    dir: Direction,
    fills: Seq<Seq<Option<Answer>>>,
    logs: Seq<Seq<RecordView>>,
    places: Seq<int>,
)
    requires
        all_stand(before.windows, logs, places),
        fills.len() == before.windows.len(),
        forall|i: int|
            0 <= i < fills.len() ==> truthful_fills(
                before.windows[i],
                dir,
                #[trigger] fills[i],
                logs[i],
                places[i],
            ),
    ensures
        ({
            let filled = before.filled(dir, fills);
            let left = upcoming(logs, places, dir);
            &&& all_stand(filled.windows, logs, places)
            &&& all_ready(filled.windows, dir) ==> filled.chosen(dir) == next_source(left, dir)
            &&& !all_ready(filled.windows, dir) ==> filled.chosen(dir) is None
            &&& match filled.chosen(dir) {
                Some(i) => {
                    &&& is_next(left, dir, i)
                    &&& filled.record(dir)->Some_0.record == left[i]->Some_0
                    &&& filled.record(dir)->Some_0.source == before.windows[i].id
                    &&& all_stand(
                        filled.emitted(dir).windows,
                        logs,
                        places.update(i, moved(places[i], dir)),
                    )
                },
                None => {
                    &&& filled.record(dir) is None
                    &&& all_stand(filled.emitted(dir).windows, logs, places)
                    &&& all_ready(filled.windows, dir) ==> forall|i: int|
                        0 <= i < left.len() ==> (#[trigger] left[i]) is None
                },
            }
        }),
{
    let filled = before.filled(dir, fills);
    let left = upcoming(logs, places, dir);
    assert forall|i: int| 0 <= i < filled.windows.len() implies is_log(#[trigger] logs[i])
        && stands_at(filled.windows[i], logs[i], places[i]) by {
        law_fills_keep_place(before.windows[i], dir, fills[i], logs[i], places[i]);
    }
    assert forall|i: int| 0 <= i < fills.len() implies filled.windows[i].id
        == before.windows[i].id by {
        lemma_refilled_id(before.windows[i], dir, fills[i]);
    }
    if all_ready(filled.windows, dir) {
        law_ready_heads_are_upcoming(filled.windows, dir, logs, places);
        lemma_next_source(left, dir);
        if let Some(i) = filled.chosen(dir) {
            assert(is_next(left, dir, i));
            assert(filled.windows[i].buf(dir).len() > 0);
            law_pop_moves_place(filled.windows[i], dir, logs[i], places[i]);
            let after = filled.emitted(dir).windows;
            let next = places.update(i, moved(places[i], dir));
            assert forall|j: int| 0 <= j < after.len() implies is_log(#[trigger] logs[j])
                && stands_at(after[j], logs[j], next[j]) by {
                if j != i {
                    assert(stands_at(filled.windows[j], logs[j], places[j]));
                }
            }
        }
    }
}

pub(crate) proof fn lemma_refilled_id(
    window: WindowView,
    dir: Direction,
    answers: Seq<Option<Answer>>,
)
    ensures
        refilled(window, dir, answers).id == window.id,
    decreases answers.len(),
{
    if answers.len() > 0 {
        lemma_refilled_id(window, dir, answers.drop_last());
    }
}

/// The number of records ahead in all logs.
pub open spec fn left_over(
    logs: Seq<Seq<RecordView>>,
    places: Seq<int>,
    dir: Direction,
) -> nat
    decreases logs.len(),
{
    if logs.len() == 0 || places.len() == 0 {
        0
    } else {
        left_over(logs.drop_last(), places.drop_last(), dir) + ahead(
            logs.last(),
            places.last(),
            dir,
        ).len()
    }
}

proof fn lemma_left_over_step(
    logs: Seq<Seq<RecordView>>,
    places: Seq<int>,
    dir: Direction,
    i: int,
)
    requires
        places_in(logs, places),
        0 <= i < logs.len(),
        ahead(logs[i], places[i], dir).len() > 0,
    ensures
        places_in(logs, places.update(i, moved(places[i], dir))),
        left_over(logs, places.update(i, moved(places[i], dir)), dir) + 1 == left_over(
            logs,
            places,
            dir,
        ),
        ahead(logs[i], moved(places[i], dir), dir) == ahead(
            logs[i],
            places[i],
            dir,
        ).drop_first(),
    decreases logs.len(),
{
    let next = places.update(i, moved(places[i], dir));
    assert(ahead(logs[i], moved(places[i], dir), dir) =~= ahead(
        logs[i],
        places[i],
        dir,
    ).drop_first());
    assert forall|k: int| 0 <= k < logs.len() implies 0 <= #[trigger] next[k] <= logs[k].len() by {
        assert(0 <= places[k] <= logs[k].len());
    }
    let last = logs.len() - 1;
    assert(0 <= places[last] <= logs[last].len());
    if i == last {
        assert(next.drop_last() =~= places.drop_last());
    } else {
        let fewer = logs.drop_last();
        let shorter = places.drop_last();
        assert forall|k: int| 0 <= k < fewer.len() implies 0 <= #[trigger] shorter[k]
            <= fewer[k].len() by {
            assert(0 <= places[k] <= logs[k].len());
        }
        lemma_left_over_step(fewer, shorter, dir, i);
        assert(next.drop_last() =~= shorter.update(i, moved(shorter[i], dir)));
    }
}

/// One emission of the merged walk: which source, which record.
pub struct Emission {
    pub source: int,
    pub record: RecordView,
}

/// Everything that the merged walk emits from the given places on.
pub open spec fn emissions(
    logs: Seq<Seq<RecordView>>,
    places: Seq<int>,
    dir: Direction,
) -> Seq<Emission>
    decreases left_over(logs, places, dir),
    via emissions_decreases
{
    if !places_in(logs, places) {
        Seq::empty()
    } else {
        match next_source(upcoming(logs, places, dir), dir) {
            Some(i) => seq![
                Emission { source: i, record: upcoming(logs, places, dir)[i]->Some_0 },
            ] + emissions(logs, places.update(i, moved(places[i], dir)), dir),
            None => Seq::empty(),
        }
    }
}

#[via_fn]
proof fn emissions_decreases(logs: Seq<Seq<RecordView>>, places: Seq<int>, dir: Direction) {
    if places_in(logs, places) {
        lemma_next_source(upcoming(logs, places, dir), dir);
        if let Some(i) = next_source(upcoming(logs, places, dir), dir) {
            lemma_left_over_step(logs, places, dir, i);
        }
    }
}

/// The records that the merged walk emits from source `i`.
pub open spec fn from_source(emitted: Seq<Emission>, i: int) -> Seq<RecordView>
    decreases emitted.len(),
{
    if emitted.len() == 0 {
        Seq::empty()
    } else if emitted[0].source == i {
        seq![emitted[0].record] + from_source(emitted.drop_first(), i)
    } else {
        from_source(emitted.drop_first(), i)
    }
}

/// The merged walk loses and repeats nothing: of every source it emits
/// exactly the records that lie ahead, in their order.
pub proof fn law_merge_keeps_every_source_whole(
    logs: Seq<Seq<RecordView>>,
    places: Seq<int>,
    dir: Direction,
    i: int,
)
    requires
        places_in(logs, places),
        0 <= i < logs.len(),
    ensures
        from_source(emissions(logs, places, dir), i) == ahead(logs[i], places[i], dir),
    decreases left_over(logs, places, dir),
{
    let left = upcoming(logs, places, dir);
    lemma_next_source(left, dir);
    let emitted = emissions(logs, places, dir);
    match next_source(left, dir) {
        Some(k) => {
            let next = places.update(k, moved(places[k], dir));
            lemma_left_over_step(logs, places, dir, k);
            law_merge_keeps_every_source_whole(logs, next, dir, i);
            assert(emitted.drop_first() =~= emissions(logs, next, dir));
            if k == i {
                let whole = ahead(logs[i], places[i], dir);
                assert(seq![whole[0]] + whole.drop_first() =~= whole);
            }
        },
        None => {
            assert(left[i] is None);
            assert(ahead(logs[i], places[i], dir) =~= Seq::<RecordView>::empty());
        },
    }
}

/// Whether every record of the logs could be read.
pub open spec fn no_errors(logs: Seq<Seq<RecordView>>) -> bool {
    forall|i: int, k: int|
        0 <= i < logs.len() && 0 <= k < logs[i].len() ==> (#[trigger] logs[i][k]).event is Ok
}

/// Whether every log is in time order, as far as its records could be read.
pub open spec fn time_sorted(logs: Seq<Seq<RecordView>>) -> bool {
    forall|i: int, j: int, k: int|
        0 <= i < logs.len() && 0 <= j <= k < logs[i].len() ==> never_before(
            #[trigger] logs[i][j],
            #[trigger] logs[i][k],
            Direction::Forward,
        )
}

/// Whether `b` is not on the near side of `a` in time, where both could be
/// read.
pub open spec fn never_before(a: RecordView, b: RecordView, dir: Direction) -> bool {
    a.event is Ok && b.event is Ok ==> match dir {
        Direction::Forward => !b.time()->Some_0.earlier(a.time()->Some_0),
        Direction::Backward => !a.time()->Some_0.earlier(b.time()->Some_0),
    }
}

/// Whether emission `b` may follow emission `a`: in time order, and at equal
/// times by source, both turned round on the way back.  Records that could
/// not be read have no time to go by.
pub open spec fn in_order(a: Emission, b: Emission, dir: Direction) -> bool {
    let s = a.record.time()->Some_0;
    let t = b.record.time()->Some_0;
    a.record.event is Ok && b.record.event is Ok ==> match dir {
        Direction::Forward => s.earlier(t) || (s == t && a.source <= b.source),
        Direction::Backward => t.earlier(s) || (s == t && a.source >= b.source),
    }
}

proof fn lemma_emissions_follow(
    logs: Seq<Seq<RecordView>>,
    places: Seq<int>,
    dir: Direction,
    first: Emission,
)
    requires
        places_in(logs, places),
        forall|i: int, k: int|
            0 <= i < logs.len() && 0 <= k < ahead(logs[i], places[i], dir).len() ==> in_order(
                first,
                Emission { source: i, record: #[trigger] ahead(logs[i], places[i], dir)[k] },
                dir,
            ),
    ensures
        forall|n: int|
            0 <= n < emissions(logs, places, dir).len() ==> in_order(
                first,
                #[trigger] emissions(logs, places, dir)[n],
                dir,
            ),
    decreases left_over(logs, places, dir),
{
    let left = upcoming(logs, places, dir);
    lemma_next_source(left, dir);
    let emitted = emissions(logs, places, dir);
    if let Some(i) = next_source(left, dir) {
        let next = places.update(i, moved(places[i], dir));
        lemma_left_over_step(logs, places, dir, i);
        let rest = ahead(logs[i], places[i], dir);
        assert(rest[0] == left[i]->Some_0);
        assert forall|j: int, k: int|
            0 <= j < logs.len() && 0 <= k < ahead(logs[j], next[j], dir).len() implies in_order(
            first,
            Emission { source: j, record: #[trigger] ahead(logs[j], next[j], dir)[k] },
            dir,
        ) by {
            if j == i {
                assert(ahead(logs[j], next[j], dir)[k] == rest[k + 1]);
            } else {
                assert(ahead(logs[j], next[j], dir)[k] == ahead(logs[j], places[j], dir)[k]);
            }
        }
        lemma_emissions_follow(logs, next, dir, first);
        assert(in_order(first, Emission { source: i, record: rest[0] }, dir));
        assert(emitted.drop_first() =~= emissions(logs, next, dir));
        assert forall|n: int| 0 <= n < emitted.len() implies in_order(
            first,
            #[trigger] emitted[n],
            dir,
        ) by {
            if n > 0 {
                assert(emitted[n] == emissions(logs, next, dir)[n - 1]);
            }
        }
    }
}

/// The merged walk is in time order.
///
/// For sources in time order, the events that are emitted forward are sorted
/// by time, and those emitted backward in reverse; events of the same time
/// come by source.  Records that could not be read lie between them, and
/// upset nothing.
pub proof fn law_merge_is_in_time_order(
    logs: Seq<Seq<RecordView>>,
    places: Seq<int>,
    dir: Direction,
)
    requires
        places_in(logs, places),
        time_sorted(logs),
    ensures
        forall|m: int, n: int|
            0 <= m < n < emissions(logs, places, dir).len() ==> in_order(
                #[trigger] emissions(logs, places, dir)[m],
                #[trigger] emissions(logs, places, dir)[n],
                dir,
            ),
    decreases left_over(logs, places, dir),
{
    let left = upcoming(logs, places, dir);
    lemma_next_source(left, dir);
    let emitted = emissions(logs, places, dir);
    if let Some(i) = next_source(left, dir) {
        let next = places.update(i, moved(places[i], dir));
        lemma_left_over_step(logs, places, dir, i);
        law_merge_is_in_time_order(logs, next, dir);
        let first = Emission { source: i, record: left[i]->Some_0 };
        assert(emitted.drop_first() =~= emissions(logs, next, dir));
        let rest = ahead(logs[i], places[i], dir);
        lemma_ahead_sorted(logs, places, dir);
        assert forall|j: int, k: int|
            0 <= j < logs.len() && 0 <= k < ahead(logs[j], next[j], dir).len() implies in_order(
            first,
            Emission { source: j, record: #[trigger] ahead(logs[j], next[j], dir)[k] },
            dir,
        ) by {
            if j == i {
                assert(ahead(logs[j], next[j], dir)[k] == rest[k + 1]);
                assert(never_before(rest[0], rest[k + 1], dir));
            } else {
                let other = ahead(logs[j], places[j], dir);
                assert(ahead(logs[j], next[j], dir)[k] == other[k]);
                assert(left[j] == Some(other[0]));
                assert(beats(dir, left[i]->Some_0, i, left[j]->Some_0, j));
                assert(never_before(other[0], other[k], dir));
            }
        }
        lemma_emissions_follow(logs, next, dir, first);
        assert forall|m: int, n: int| 0 <= m < n < emitted.len() implies in_order(
            #[trigger] emitted[m],
            #[trigger] emitted[n],
            dir,
        ) by {
            assert(emitted[n] == emissions(logs, next, dir)[n - 1]);
            if m > 0 {
                assert(emitted[m] == emissions(logs, next, dir)[m - 1]);
            }
        }
    }
}

proof fn lemma_ahead_sorted(logs: Seq<Seq<RecordView>>, places: Seq<int>, dir: Direction)
    requires
        places_in(logs, places),
        time_sorted(logs),
    ensures
        forall|i: int, j: int, k: int|
            0 <= i < logs.len() && 0 <= j <= k < ahead(logs[i], places[i], dir).len()
                ==> never_before(
                #[trigger] ahead(logs[i], places[i], dir)[j],
                #[trigger] ahead(logs[i], places[i], dir)[k],
                dir,
            ),
{
    assert forall|i: int, j: int, k: int|
        0 <= i < logs.len() && 0 <= j <= k < ahead(logs[i], places[i], dir).len() implies never_before(
        #[trigger] ahead(logs[i], places[i], dir)[j],
        #[trigger] ahead(logs[i], places[i], dir)[k],
        dir,
    ) by {
        let rest = ahead(logs[i], places[i], dir);
        assert(0 <= places[i] <= logs[i].len());
        match dir {
            Direction::Forward => {
                assert(rest[j] == logs[i][places[i] + j]);
                assert(rest[k] == logs[i][places[i] + k]);
            },
            Direction::Backward => {
                assert(rest[j] == logs[i][places[i] - 1 - j]);
                assert(rest[k] == logs[i][places[i] - 1 - k]);
            },
        }
    }
}

/// Whether the places cut the merged walk in two: every record behind comes
/// before every record ahead.
pub open spec fn is_cut(logs: Seq<Seq<RecordView>>, places: Seq<int>) -> bool {
    forall|i: int, j: int|
        0 <= i < logs.len() && 0 <= j < logs.len() && i != j && places[j] > 0 && places[i]
            < logs[i].len() ==> #[trigger] comes_before(
            logs[j][places[j] - 1],
            j,
            logs[i][places[i]],
            i,
        )
}

/// Whether record `a` of source `j` comes before record `b` of source `i` in
/// the merged walk.
pub open spec fn comes_before(a: RecordView, j: int, b: RecordView, i: int) -> bool {
    let s = a.time()->Some_0;
    let t = b.time()->Some_0;
    s.earlier(t) || (s == t && j < i)
}

/// The start and the end of all logs cut the walk in two.
pub proof fn law_start_and_end_are_cuts(logs: Seq<Seq<RecordView>>)
    ensures
        is_cut(logs, starts(logs)),
        is_cut(logs, ends(logs)),
{
}

/// The start of every log.
pub open spec fn starts(logs: Seq<Seq<RecordView>>) -> Seq<int> {
    Seq::new(logs.len(), |i: int| 0)
}

/// The end of every log.
pub open spec fn ends(logs: Seq<Seq<RecordView>>) -> Seq<int> {
    Seq::new(logs.len(), |i: int| logs[i].len() as int)
}

/// A step forward is undone by a step back, and a step back by a step
/// forward: the second step emits the record of the first and returns to
/// where it began.  Wherever the walk goes, it stays at a cut.
///
/// This is for logs in time order whose records could all be read.
pub proof fn law_steps_undo_each_other(
    logs: Seq<Seq<RecordView>>,
    places: Seq<int>,
    dir: Direction,
)
    requires
        places_in(logs, places),
        no_errors(logs),
        time_sorted(logs),
        is_cut(logs, places),
        next_source(upcoming(logs, places, dir), dir) is Some,
    ensures
        ({
            let i = next_source(upcoming(logs, places, dir), dir)->Some_0;
            let next = places.update(i, moved(places[i], dir));
            let back = dir.reversed();
            &&& places_in(logs, next)
            &&& is_cut(logs, next)
            &&& next_source(upcoming(logs, next, back), back) == Some(i)
            &&& upcoming(logs, next, back)[i] == upcoming(logs, places, dir)[i]
            &&& next.update(i, moved(next[i], back)) == places
        }),
{
    let left = upcoming(logs, places, dir);
    lemma_next_source(left, dir);
    let i = next_source(left, dir)->Some_0;
    let next = places.update(i, moved(places[i], dir));
    let back = dir.reversed();
    lemma_left_over_step(logs, places, dir, i);
    assert(0 <= places[i] <= logs[i].len());
    let behind = upcoming(logs, next, back);
    match dir {
        Direction::Forward => {
            assert(left[i] == Some(logs[i][places[i]]));
            assert(behind[i] == Some(logs[i][places[i]]));
        },
        Direction::Backward => {
            assert(left[i] == Some(logs[i][places[i] - 1]));
            assert(behind[i] == Some(logs[i][places[i] - 1]));
        },
    }
    assert forall|a: int, b: int|
        0 <= a < logs.len() && 0 <= b < logs.len() && a != b && next[b] > 0 && next[a]
            < logs[a].len() implies #[trigger] comes_before(
        logs[b][next[b] - 1],
        b,
        logs[a][next[a]],
        a,
    ) by {
        assert(0 <= places[a] <= logs[a].len());
        assert(0 <= places[b] <= logs[b].len());
        match dir {
            Direction::Forward => {
                if b == i {
                    assert(left[a] == Some(logs[a][places[a]]));
                    assert(beats(dir, left[i]->Some_0, i, left[a]->Some_0, a));
                } else if a == i {
                    assert(comes_before(logs[b][places[b] - 1], b, logs[i][places[i]], i));
                    assert(!logs[i][places[i] + 1].time()->Some_0.earlier(
                        logs[i][places[i]].time()->Some_0,
                    ));
                } else {
                    assert(comes_before(logs[b][places[b] - 1], b, logs[a][places[a]], a));
                }
            },
            Direction::Backward => {
                if a == i {
                    assert(left[b] == Some(logs[b][places[b] - 1]));
                    assert(beats(dir, left[i]->Some_0, i, left[b]->Some_0, b));
                } else if b == i {
                    assert(comes_before(logs[i][places[i] - 1], i, logs[a][places[a]], a));
                    assert(!logs[i][places[i] - 1].time()->Some_0.earlier(
                        logs[i][places[i] - 2].time()->Some_0,
                    ));
                } else {
                    assert(comes_before(logs[b][places[b] - 1], b, logs[a][places[a]], a));
                }
            },
        }
    }
    assert(is_next(behind, back, i)) by {
        assert forall|j: int|
            0 <= j < behind.len() && j != i && (#[trigger] behind[j]) is Some implies beats(
            back,
            behind[i]->Some_0,
            i,
            behind[j]->Some_0,
            j,
        ) by {
            assert(0 <= places[j] <= logs[j].len());
            match dir {
                Direction::Forward => {
                    assert(behind[j] == Some(logs[j][places[j] - 1]));
                    assert(comes_before(logs[j][places[j] - 1], j, logs[i][places[i]], i));
                },
                Direction::Backward => {
                    assert(behind[j] == Some(logs[j][places[j]]));
                    assert(comes_before(logs[i][places[i] - 1], i, logs[j][places[j]], j));
                },
            }
        }
    }
    lemma_next_source(behind, back);
    assert(next.update(i, moved(next[i], back)) =~= places);
}

/// Whether a step of the merged walk is taken back by a step the other way:
/// of the records that then lie next, the one just emitted comes first.
pub open spec fn is_undone(
    logs: Seq<Seq<RecordView>>,
    places: Seq<int>,
    dir: Direction,
    i: int,
) -> bool {
    let next = places.update(i, moved(places[i], dir));
    next_source(upcoming(logs, next, dir.reversed()), dir.reversed()) == Some(i)
}

/// Whether every step of the walk forward is taken back by a step backward.
pub open spec fn all_undone(logs: Seq<Seq<RecordView>>, places: Seq<int>) -> bool
    decreases left_over(logs, places, Direction::Forward),
    via all_undone_decreases
{
    if !places_in(logs, places) {
        true
    } else {
        match next_source(upcoming(logs, places, Direction::Forward), Direction::Forward) {
            Some(i) => is_undone(logs, places, Direction::Forward, i) && all_undone(
                logs,
                places.update(i, places[i] + 1),
            ),
            None => true,
        }
    }
}

#[via_fn]
proof fn all_undone_decreases(logs: Seq<Seq<RecordView>>, places: Seq<int>) {
    if places_in(logs, places) {
        lemma_next_source(upcoming(logs, places, Direction::Forward), Direction::Forward);
        if let Some(i) = next_source(
            upcoming(logs, places, Direction::Forward),
            Direction::Forward,
        ) {
            lemma_left_over_step(logs, places, Direction::Forward, i);
        }
    }
}

/// The walk back from the end retraces the walk forward from the given
/// places, record by record, if and only if every step of the latter is
/// taken back by a step backward; it then goes on from those places.
///
/// This is for any logs at all, whether or not they are in time order and
/// their records could be read.
pub proof fn law_walk_back_retraces_undone_steps(
    logs: Seq<Seq<RecordView>>,
    places: Seq<int>,
)
    requires
        places_in(logs, places),
    ensures
        emissions(logs, places, Direction::Forward).reverse().is_prefix_of(
            emissions(logs, ends(logs), Direction::Backward),
        ) <==> all_undone(logs, places),
        all_undone(logs, places) ==> emissions(logs, ends(logs), Direction::Backward)
            == emissions(logs, places, Direction::Forward).reverse() + emissions(
            logs,
            places,
            Direction::Backward,
        ),
    decreases left_over(logs, places, Direction::Forward),
{
    let dir = Direction::Forward;
    let left = upcoming(logs, places, dir);
    lemma_next_source(left, dir);
    let whole = emissions(logs, ends(logs), Direction::Backward);
    let forward = emissions(logs, places, dir);
    let backward = emissions(logs, places, Direction::Backward);
    match next_source(left, dir) {
        Some(i) => {
            let next = places.update(i, moved(places[i], dir));
            lemma_left_over_step(logs, places, dir, i);
            law_walk_back_retraces_undone_steps(logs, next);
            let first = Emission { source: i, record: left[i]->Some_0 };
            let rest = emissions(logs, next, dir);
            let onward = emissions(logs, next, Direction::Backward);
            assert(forward =~= seq![first] + rest);
            assert(forward.reverse() =~= rest.reverse().push(first));
            lemma_step_back(logs, places, i);
            lemma_retrace_one_more(
                whole,
                rest.reverse(),
                first,
                onward,
                backward,
                all_undone(logs, next),
                is_undone(logs, places, dir, i),
            );
        },
        None => {
            assert forall|i: int| 0 <= i < logs.len() implies places[i] == ends(logs)[i] by {
                assert(left[i] is None);
                assert(0 <= places[i] <= logs[i].len());
            }
            assert(places =~= ends(logs));
            assert(forward.reverse() =~= Seq::<Emission>::empty());
            assert(forward.reverse() + backward =~= backward);
        },
    }
}

/// A walk that begins with what was emitted since, in reverse, goes on with
/// one record more exactly if the step over that record is undone.
proof fn lemma_retrace_one_more(
    whole: Seq<Emission>,
    since: Seq<Emission>,
    first: Emission,
    onward: Seq<Emission>,
    backward: Seq<Emission>,
    later_undone: bool,
    undone: bool,
)
    requires
        since.is_prefix_of(whole) <==> later_undone,
        later_undone ==> whole == since + onward,
        onward.len() > 0,
        onward[0] == first <==> undone,
        undone ==> onward == seq![first] + backward,
    ensures
        since.push(first).is_prefix_of(whole) <==> undone && later_undone,
        undone && later_undone ==> whole == since.push(first) + backward,
{
    let more = since.push(first);
    if more.is_prefix_of(whole) {
        assert(since =~= whole.take(since.len() as int)) by {
            assert(more.take(since.len() as int) =~= since);
        }
        assert(whole[since.len() as int] == more[since.len() as int]);
        assert(whole[since.len() as int] == onward[0]);
    }
    if undone && later_undone {
        assert(whole =~= more + backward);
    }
}

/// The step backward after a step forward emits what the latter did exactly
/// if it undoes it.
proof fn lemma_step_back(logs: Seq<Seq<RecordView>>, places: Seq<int>, i: int)
    requires
        places_in(logs, places),
        next_source(upcoming(logs, places, Direction::Forward), Direction::Forward) == Some(i),
    ensures
        ({
            let next = places.update(i, moved(places[i], Direction::Forward));
            let first = Emission {
                source: i,
                record: upcoming(logs, places, Direction::Forward)[i]->Some_0,
            };
            let onward = emissions(logs, next, Direction::Backward);
            &&& onward.len() > 0
            &&& onward[0] == first <==> is_undone(logs, places, Direction::Forward, i)
            &&& is_undone(logs, places, Direction::Forward, i) ==> onward == seq![first]
                + emissions(logs, places, Direction::Backward)
        }),
{
    let dir = Direction::Forward;
    let back = Direction::Backward;
    let left = upcoming(logs, places, dir);
    lemma_next_source(left, dir);
    let next = places.update(i, moved(places[i], dir));
    lemma_left_over_step(logs, places, dir, i);
    let behind = upcoming(logs, next, back);
    lemma_next_source(behind, back);
    assert(0 <= places[i] <= logs[i].len());
    assert(left[i] == Some(logs[i][places[i]]));
    assert(behind[i] == Some(logs[i][places[i]]));
    assert(next.update(i, moved(next[i], back)) =~= places);
}

/// The walk over a single source is always retraced, whatever its records.
pub proof fn law_single_source_is_retraced(log: Seq<RecordView>)
    ensures
        emissions(seq![log], ends(seq![log]), Direction::Backward) == emissions(
            seq![log],
            starts(seq![log]),
            Direction::Forward,
        ).reverse(),
{
    let logs = seq![log];
    lemma_single_source_undone(log, 0);
    assert(starts(logs) =~= seq![0int]);
    law_walk_back_retraces_undone_steps(logs, starts(logs));
    lemma_nothing_behind_start(logs);
    let forward = emissions(logs, starts(logs), Direction::Forward);
    assert(forward.reverse() + Seq::<Emission>::empty() =~= forward.reverse());
}

proof fn lemma_single_source_undone(log: Seq<RecordView>, place: int)
    requires
        0 <= place <= log.len(),
    ensures
        all_undone(seq![log], seq![place]),
    decreases log.len() - place,
{
    let logs = seq![log];
    let places = seq![place];
    let left = upcoming(logs, places, Direction::Forward);
    lemma_next_source(left, Direction::Forward);
    if let Some(i) = next_source(left, Direction::Forward) {
        assert(i == 0);
        let next = places.update(0, place + 1);
        let behind = upcoming(logs, next, Direction::Backward);
        lemma_next_source(behind, Direction::Backward);
        assert(behind[0] is Some);
        assert(is_next(behind, Direction::Backward, 0));
        assert(next =~= seq![place + 1]);
        lemma_single_source_undone(log, place + 1);
    }
}

/// Nothing is emitted backward from the start.
proof fn lemma_nothing_behind_start(logs: Seq<Seq<RecordView>>)
    ensures
        emissions(logs, starts(logs), Direction::Backward) == Seq::<Emission>::empty(),
{
    let zero = starts(logs);
    let behind = upcoming(logs, zero, Direction::Backward);
    lemma_next_source(behind, Direction::Backward);
    assert forall|i: int| 0 <= i < behind.len() implies (#[trigger] behind[i]) is None by {
        assert(ahead(logs[i], zero[i], Direction::Backward).len() == 0);
    }
}

/// From a cut, every step forward is taken back, for logs in time order whose
/// records could all be read.
proof fn lemma_undone_from_cut(logs: Seq<Seq<RecordView>>, places: Seq<int>)
    requires
        places_in(logs, places),
        no_errors(logs),
        time_sorted(logs),
        is_cut(logs, places),
    ensures
        all_undone(logs, places),
    decreases left_over(logs, places, Direction::Forward),
{
    let dir = Direction::Forward;
    lemma_next_source(upcoming(logs, places, dir), dir);
    if let Some(i) = next_source(upcoming(logs, places, dir), dir) {
        law_steps_undo_each_other(logs, places, dir);
        lemma_left_over_step(logs, places, dir, i);
        lemma_undone_from_cut(logs, places.update(i, moved(places[i], dir)));
    }
}

/// What the walk back from the end emits up to a cut is what the walk
/// forward from the cut emits, in reverse.
pub proof fn law_walk_back_retraces_from_cut(logs: Seq<Seq<RecordView>>, places: Seq<int>)
    requires
        places_in(logs, places),
        no_errors(logs),
        time_sorted(logs),
        is_cut(logs, places),
    ensures
        emissions(logs, ends(logs), Direction::Backward) == emissions(
            logs,
            places,
            Direction::Forward,
        ).reverse() + emissions(logs, places, Direction::Backward),
{
    lemma_undone_from_cut(logs, places);
    law_walk_back_retraces_undone_steps(logs, places);
}

/// Walking back from the end retraces the walk forward from the start,
/// record by record, in reverse, for logs in time order whose records could
/// all be read.
pub proof fn law_walk_back_retraces_walk_forward(logs: Seq<Seq<RecordView>>)
    requires
        no_errors(logs),
        time_sorted(logs),
    ensures
        emissions(logs, ends(logs), Direction::Backward) == emissions(
            logs,
            starts(logs),
            Direction::Forward,
        ).reverse(),
{
    law_start_and_end_are_cuts(logs);
    law_walk_back_retraces_from_cut(logs, starts(logs));
    lemma_nothing_behind_start(logs);
    let forward = emissions(logs, starts(logs), Direction::Forward);
    assert(forward.reverse() + Seq::<Emission>::empty() =~= forward.reverse());
}

/// Steps cache no more than the limit: what a step leaves behind it is
/// trimmed, and what lies ahead shrinks.
pub proof fn law_steps_keep_the_cache_bounded(window: WindowView, dir: Direction)
    requires
        window.buf(dir).len() > 0,
    ensures
        window.popped(dir).buf(dir.reversed()).len() <= BUFFER_LIMIT,
        window.popped(dir).buf(dir).len() < window.buf(dir).len(),
{
}

/// Taking a record one way and then taking one the other way gives the same
/// record again, and the source is not asked for it.  What was cached ahead
/// is cached again, down to the limit.
pub proof fn law_pop_is_replayed_the_other_way(window: WindowView, dir: Direction)
    requires
        window.buf(dir).len() > 0,
    ensures
        ({
            let after = window.popped(dir);
            let back = dir.reversed();
            let head = window.buf(dir)[0];
            &&& after.position == match dir {
                Direction::Forward => head.end(),
                Direction::Backward => head.offset as int,
            }
            &&& after.ready(back) && !after.must_query(back)
            &&& after.buf(back) == at_most(seq![head] + window.buf(back), BUFFER_LIMIT as int)
            &&& after.buf(back)[0] == head
            &&& after.buf(dir) == window.buf(dir).drop_first()
            &&& after.eof(dir) == window.eof(dir) && !after.eof(back)
            &&& after.popped(back).buf(dir) == at_most(window.buf(dir), BUFFER_LIMIT as int)
        }),
{
    let head = window.buf(dir)[0];
    assert(seq![head] + window.buf(dir).drop_first() =~= window.buf(dir));
}

/// A cursor is enough to resume the walk: a stepper opened at the cursor of
/// another stands at the same places, whatever the other had cached.
pub proof fn law_cursor_resumes_the_walk(
    windows: Seq<WindowView>,
    logs: Seq<Seq<RecordView>>,
    places: Seq<int>,
    ids: Seq<Seq<char>>,
    filter: Seq<PredicateView>,
    options: StepperOptions,
)
    requires
        all_stand(windows, logs, places),
        ids == windows.map_values(|w: WindowView| w.id),
        ids.no_duplicates(),
    ensures
        all_stand(
            StepperView::opened(ids, filter, cursor_of(windows), options).windows,
            logs,
            places,
        ),
{
    let opened = StepperView::opened(ids, filter, cursor_of(windows), options).windows;
    assert forall|i: int| 0 <= i < opened.len() implies is_log(#[trigger] logs[i]) && stands_at(
        opened[i],
        logs[i],
        places[i],
    ) by {
        lemma_cursor_of_entry(windows, i);
        law_position_resumes(windows[i], logs[i], places[i]);
        assert(ids[i] == windows[i].id);
    }
}

proof fn lemma_cursor_of_entry(windows: Seq<WindowView>, i: int)
    requires
        0 <= i < windows.len(),
        windows.map_values(|w: WindowView| w.id).no_duplicates(),
    ensures
        cursor_of(windows).dom().contains(windows[i].id),
        cursor_of(windows)[windows[i].id] == ByteOffset(windows[i].position),
    decreases windows.len(),
{
    let ids = windows.map_values(|w: WindowView| w.id);
    let rest = windows.drop_last();
    if i < rest.len() {
        assert(rest.map_values(|w: WindowView| w.id) =~= ids.drop_last());
        lemma_cursor_of_entry(rest, i);
        assert(ids[i] != ids[windows.len() - 1]);
    }
}

proof fn lemma_end_cursor_entry(ids: Seq<Seq<char>>, lens: Seq<u64>, i: int)
    requires
        0 <= i < ids.len(),
        ids.len() == lens.len(),
        ids.no_duplicates(),
    ensures
        position_in(end_cursor(ids, lens), ids[i]) == lens[i],
    decreases ids.len(),
{
    let rest = ids.drop_last();
    if i < rest.len() {
        assert(rest.no_duplicates()) by {
            assert forall|a: int, b: int|
                0 <= a < rest.len() && 0 <= b < rest.len() && a != b implies rest[a] != rest[b] by {
                assert(ids[a] != ids[b]);
            }
        }
        lemma_end_cursor_entry(rest, lens.drop_last(), i);
        assert(ids[i] != ids[ids.len() - 1]);
    }
}

/// A stepper opened at the end of every source, over any of them, stands at
/// the end of every log: a walk forward from there finds nothing, and a walk
/// back finds everything.
pub proof fn law_end_cursor_is_past_everything(
    ids: Seq<Seq<char>>,
    lens: Seq<u64>,
    kept: Seq<int>,
    logs: Seq<Seq<RecordView>>,
    filter: Seq<PredicateView>,
    options: StepperOptions,
)
    requires
        ids.no_duplicates(),
        lens.len() == ids.len(),
        logs.len() == kept.len(),
        forall|i: int|
            0 <= i < kept.len() ==> {
                &&& 0 <= #[trigger] kept[i] < ids.len()
                &&& is_log(logs[i])
                &&& lies_at(logs[i], logs[i].len() as int, lens[kept[i]])
            },
    ensures
        all_stand(
            StepperView::opened(
                kept.map_values(|k: int| ids[k]),
                filter,
                end_cursor(ids, lens),
                options,
            ).windows,
            logs,
            ends(logs),
        ),
        emissions(logs, ends(logs), Direction::Forward) == Seq::<Emission>::empty(),
        forall|i: int|
            0 <= i < logs.len() ==> from_source(
                emissions(logs, ends(logs), Direction::Backward),
                i,
            ) == (#[trigger] logs[i]).reverse(),
{
    let some = kept.map_values(|k: int| ids[k]);
    let opened = StepperView::opened(some, filter, end_cursor(ids, lens), options).windows;
    assert forall|i: int| 0 <= i < opened.len() implies is_log(#[trigger] logs[i]) && stands_at(
        opened[i],
        logs[i],
        ends(logs)[i],
    ) by {
        assert(0 <= kept[i] < ids.len());
        lemma_end_cursor_entry(ids, lens, kept[i]);
        law_fresh_window_stands(some[i], lens[kept[i]], logs[i], logs[i].len() as int);
    }
    let left = upcoming(logs, ends(logs), Direction::Forward);
    lemma_next_source(left, Direction::Forward);
    assert forall|i: int| 0 <= i < left.len() implies (#[trigger] left[i]) is None by {}
    assert forall|i: int| 0 <= i < logs.len() implies from_source(
        emissions(logs, ends(logs), Direction::Backward),
        i,
    ) == (#[trigger] logs[i]).reverse() by {
        law_merge_keeps_every_source_whole(logs, ends(logs), Direction::Backward, i);
        assert(logs[i].take(logs[i].len() as int) =~= logs[i]);
    }
}

/// A change of filter moves nothing: the cursor before and after is the
/// same.
pub proof fn law_filter_change_keeps_the_cursor(
    before: StepperView,
    filter: Seq<PredicateView>,
)
    ensures
        cursor_of(before.refiltered(filter).windows) == cursor_of(before.windows),
    decreases before.windows.len(),
{
    let windows = before.windows;
    let after = before.refiltered(filter).windows;
    if windows.len() > 0 {
        let shorter = StepperView { windows: windows.drop_last(), ..before };
        law_filter_change_keeps_the_cursor(shorter, filter);
        assert(after.drop_last() =~= shorter.refiltered(filter).windows);
    }
}

/// Where every source has its end mark and no record is cached, nothing is
/// left in that direction: such a walk is over, not merely suspended.
pub proof fn law_exhausted_walk_is_over(
    windows: Seq<WindowView>,
    dir: Direction,
    logs: Seq<Seq<RecordView>>,
    places: Seq<int>,
)
    requires
        all_stand(windows, logs, places),
        next_source(heads(windows, dir), dir) is None,
    ensures
        (forall|i: int| 0 <= i < windows.len() ==> (#[trigger] windows[i]).eof(dir)) ==> forall|
            i: int,
        |
            0 <= i < logs.len() ==> ahead(#[trigger] logs[i], places[i], dir).len() == 0,
{
    lemma_next_source(heads(windows, dir), dir);
    assert forall|i: int|
        0 <= i < logs.len() && (forall|k: int|
            0 <= k < windows.len() ==> (#[trigger] windows[k]).eof(dir)) implies ahead(
        #[trigger] logs[i],
        places[i],
        dir,
    ).len() == 0 by {
        assert(heads(windows, dir)[i] is None);
        assert(windows[i].eof(dir));
        assert(windows[i].buf(dir) == ahead(logs[i], places[i], dir));
    }
}

/// The merged walk is chronological.
///
/// Where the events of every source follow one another by the nanoseconds
/// since the epoch, so do those of the walk forward from the start, and those
/// of the walk back from the end go the other way; events of the same instant
/// come by source, in reverse on the way back.
pub proof fn law_merged_walk_is_chronological(logs: Seq<Seq<RecordView>>, m: int, n: int)
    requires
        forall|i: int, k: int|
            0 <= i < logs.len() && 0 <= k < logs[i].len() ==> {
                (#[trigger] logs[i][k]).event matches Ok(event) ==> event.time.nanos
                    < 1_000_000_000
            },
        forall|i: int, j: int, k: int|
            0 <= i < logs.len() && 0 <= j <= k < logs[i].len() && (#[trigger] logs[i][j]).event is Ok
                && (#[trigger] logs[i][k]).event is Ok ==> {
                let (s, t) = (logs[i][j].event->Ok_0.time, logs[i][k].event->Ok_0.time);
                s.secs * 1_000_000_000 + s.nanos <= t.secs * 1_000_000_000 + t.nanos
            },
        0 <= m < n,
    ensures
        ({
            let there = emissions(logs, starts(logs), Direction::Forward);
            let s = there[m].record.event->Ok_0.time;
            let t = there[n].record.event->Ok_0.time;
            n < there.len() && there[m].record.event is Ok && there[n].record.event is Ok ==> {
                &&& s.secs * 1_000_000_000 + s.nanos <= t.secs * 1_000_000_000 + t.nanos
                &&& s == t ==> there[m].source <= there[n].source
            }
        }),
        ({
            let back = emissions(logs, ends(logs), Direction::Backward);
            let s = back[m].record.event->Ok_0.time;
            let t = back[n].record.event->Ok_0.time;
            n < back.len() && back[m].record.event is Ok && back[n].record.event is Ok ==> {
                &&& s.secs * 1_000_000_000 + s.nanos >= t.secs * 1_000_000_000 + t.nanos
                &&& s == t ==> back[m].source >= back[n].source
            }
        }),
{
    assert(time_sorted(logs));
    let there = emissions(logs, starts(logs), Direction::Forward);
    let back = emissions(logs, ends(logs), Direction::Backward);
    law_merge_is_in_time_order(logs, starts(logs), Direction::Forward);
    law_merge_is_in_time_order(logs, ends(logs), Direction::Backward);
    if n < there.len() {
        assert(in_order(there[m], there[n], Direction::Forward));
        lemma_emitted_lies_in_its_log(logs, starts(logs), Direction::Forward, m);
        lemma_emitted_lies_in_its_log(logs, starts(logs), Direction::Forward, n);
    }
    if n < back.len() {
        assert(in_order(back[m], back[n], Direction::Backward));
        lemma_emitted_lies_in_its_log(logs, ends(logs), Direction::Backward, m);
        lemma_emitted_lies_in_its_log(logs, ends(logs), Direction::Backward, n);
    }
}

/// What is emitted is a record of the source that it is said to come from.
pub proof fn lemma_emitted_lies_in_its_log(
    logs: Seq<Seq<RecordView>>,
    places: Seq<int>,
    dir: Direction,
    n: int,
)
    requires
        places_in(logs, places),
        0 <= n < emissions(logs, places, dir).len(),
    ensures
        ({
            let emission = emissions(logs, places, dir)[n];
            &&& 0 <= emission.source < logs.len()
            &&& exists|k: int|
                0 <= k < logs[emission.source].len() && #[trigger] logs[emission.source][k]
                    == emission.record
        }),
    decreases n,
{
    let left = upcoming(logs, places, dir);
    lemma_next_source(left, dir);
    if let Some(i) = next_source(left, dir) {
        assert(0 <= places[i] <= logs[i].len());
        let emitted = emissions(logs, places, dir);
        if n == 0 {
            match dir {
                Direction::Forward => {
                    assert(logs[i][places[i]] == emitted[0].record);
                },
                Direction::Backward => {
                    assert(logs[i][places[i] - 1] == emitted[0].record);
                },
            }
        } else {
            let next = places.update(i, moved(places[i], dir));
            lemma_left_over_step(logs, places, dir, i);
            assert(emitted[n] == emissions(logs, next, dir)[n - 1]);
            lemma_emitted_lies_in_its_log(logs, next, dir, n - 1);
        }
    }
}

/// Which source gives the next record: one whose next is an error before any
/// whose next is a record; of records the earliest going forward and the
/// latest going back, by their nanosecond; and where these are the same, the
/// source attached first going forward, and last going back.
pub proof fn law_next_record_is_the_earliest_or_latest(
    heads: Seq<Option<RecordView>>,
    dir: Direction,
    i: int,
    j: int,
)
    requires
        is_next(heads, dir, i),
        0 <= j < heads.len(),
        j != i,
        heads[j] is Some,
        heads[i]->Some_0.event matches Ok(event) ==> event.time.nanos < 1_000_000_000,
        heads[j]->Some_0.event matches Ok(event) ==> event.time.nanos < 1_000_000_000,
    ensures
        match (heads[i]->Some_0.event, heads[j]->Some_0.event) {
            (Err(_), Ok(_)) => true,
            (Ok(_), Err(_)) => false,
            (Err(_), Err(_)) => dir == Direction::Forward && i < j || dir == Direction::Backward
                && i > j,
            (Ok(here), Ok(there)) => {
                let a = here.time.secs * 1_000_000_000 + here.time.nanos;
                let b = there.time.secs * 1_000_000_000 + there.time.nanos;
                match dir {
                    Direction::Forward => a < b || (a == b && i < j),
                    Direction::Backward => a > b || (a == b && i > j),
                }
            },
        },
{
    assert(beats(dir, heads[i]->Some_0, i, heads[j]->Some_0, j));
}

} // verus!
