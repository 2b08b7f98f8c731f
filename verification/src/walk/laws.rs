//! What holds of a stepper as it is walked, over sources that answer
//! truthfully.

use crate::engine::laws::{
    ahead, all_stand, emissions, from_source, in_order, is_cut, is_log, law_fills_keep_place,
    law_filter_change_keeps_the_cursor, law_fresh_window_stands, law_merge_is_in_time_order,
    law_merge_keeps_every_source_whole, law_start_and_end_are_cuts, law_step_emits_the_next_record,
    law_steps_undo_each_other, lemma_refilled_id, lies_at, moved, no_errors, places_in, stands_at,
    starts, time_sorted, truthful, truthful_fills, upcoming, Emission,
};
use crate::engine::{
    all_ready, cursor_of, heads, lemma_next_source, next_source, refilled, Answer,
    MergeRecordView, RecordView, Stepper, StepperOptions, StepperView, WindowView,
};
use crate::filter::PredicateView;
use crate::source::{Direction, Source, SourceError};
use crate::walk::{is_walk, law_exhausted_walk_stays_over, stepped};
use vstd::prelude::*;

verus! {

/// Whether the stepper asks for some records, and sets no budget on those
/// that a source examines for them.
pub open spec fn unbudgeted(stepper: StepperView) -> bool {
    stepper.batch_size > 0 && stepper.max_records is None
}

/// Whether the sources answer the stepper truthfully out of the logs of their
/// matching records.  Without a budget, an answer that holds no record marks
/// the end.
pub open spec fn answers_from<S: Source>(
    stepper: Stepper<S>,
    logs: Seq<Seq<RecordView>>,
) -> bool {
    forall|i: int, window: WindowView, dir: Direction, answer: Answer, place: int|
        #![trigger stepper.asks(i, window.position, dir, answer), lies_at(
            logs[i],
            place,
            window.position,
        )]
        {
            0 <= i < logs.len() && stepper.asks(i, window.position, dir, answer) && lies_at(
                logs[i],
                place,
                window.position,
            ) ==> {
                &&& truthful(window, dir, answer, logs[i], place)
                &&& unbudgeted(stepper@) ==> answer->Ok_0@.records.len() > 0
                    || answer->Ok_0@.eof
            }
        }
}

/// The ids of the windows' sources.
pub open spec fn window_ids(windows: Seq<WindowView>) -> Seq<Seq<char>> {
    windows.map_values(|w: WindowView| w.id)
}

/// An emission as a record of the merge.
pub open spec fn named(ids: Seq<Seq<char>>, emission: Emission) -> MergeRecordView {
    MergeRecordView { source: ids[emission.source], record: emission.record }
}

/// What the merged walk emits next from the given places.
pub open spec fn next_emission(
    logs: Seq<Seq<RecordView>>,
    places: Seq<int>,
    dir: Direction,
) -> Option<Emission> {
    match next_source(upcoming(logs, places, dir), dir) {
        Some(i) => Some(
            Emission { source: i, record: upcoming(logs, places, dir)[i]->Some_0 },
        ),
        None => None,
    }
}

/// The places after the next emission; the same where there is none.
pub open spec fn onward(
    logs: Seq<Seq<RecordView>>,
    places: Seq<int>,
    dir: Direction,
) -> Seq<int> {
    match next_source(upcoming(logs, places, dir), dir) {
        Some(i) => places.update(i, moved(places[i], dir)),
        None => places,
    }
}

/// The places after `n` emissions.
pub open spec fn places_on(
    logs: Seq<Seq<RecordView>>,
    places: Seq<int>,
    dir: Direction,
    n: nat,
) -> Seq<int>
    decreases n,
{
    if n == 0 {
        places
    } else {
        onward(logs, places_on(logs, places, dir, (n - 1) as nat), dir)
    }
}

proof fn lemma_answers_are_truthful<S: Source>(
    stepper: Stepper<S>,
    dir: Direction,
    answers: Seq<Option<Answer>>,
    i: int,
    n: int,
    logs: Seq<Seq<RecordView>>,
    places: Seq<int>,
)
    requires
        0 <= n <= answers.len(),
        0 <= i < logs.len(),
        all_stand(stepper@.windows, logs, places),
        answers_from(stepper, logs),
        forall|k: int|
            0 <= k < answers.len() ==> #[trigger] stepper.answered_at(dir, answers, i, k),
    ensures
        truthful_fills(stepper@.windows[i], dir, answers.take(n), logs[i], places[i]),
    decreases n,
{
    if n > 0 {
        let window = stepper@.windows[i];
        let shorter = answers.take(n - 1);
        let longer = answers.take(n);
        lemma_answers_are_truthful(stepper, dir, answers, i, n - 1, logs, places);
        law_fills_keep_place(window, dir, shorter, logs[i], places[i]);
        assert forall|k: int| 0 <= k < longer.len() implies {
            let before = refilled(window, dir, longer.take(k));
            &&& !before.ready(dir)
            &&& (#[trigger] longer[k]) is Some <==> before.must_query(dir)
            &&& longer[k] matches Some(answer) ==> truthful(
                before,
                dir,
                answer,
                logs[i],
                places[i],
            )
        } by {
            assert(longer.take(k) =~= answers.take(k));
            assert(longer[k] == answers[k]);
            assert(stepper.answered_at(dir, answers, i, k));
            if k < n - 1 {
                assert(shorter.take(k) =~= answers.take(k));
                assert(shorter[k] == answers[k]);
            } else {
                let before = refilled(window, dir, shorter);
                assert(lies_at(logs[i], places[i], before.position));
                if let Some(answer) = longer[k] {
                    assert(stepper.asks(i, before.position, dir, answer));
                }
            }
        }
    }
}

proof fn lemma_filled_is_ready<S: Source>(
    stepper: Stepper<S>,
    dir: Direction,
    answers: Seq<Option<Answer>>,
    i: int,
    logs: Seq<Seq<RecordView>>,
    places: Seq<int>,
)
    requires
        0 <= i < logs.len(),
        all_stand(stepper@.windows, logs, places),
        answers_from(stepper, logs),
        unbudgeted(stepper@),
        answers.len() > 0,
        forall|k: int|
            0 <= k < answers.len() ==> #[trigger] stepper.answered_at(dir, answers, i, k),
    ensures
        refilled(stepper@.windows[i], dir, answers).ready(dir),
{
    let window = stepper@.windows[i];
    let last = answers.len() - 1;
    let shorter = answers.take(last);
    lemma_answers_are_truthful(stepper, dir, answers, i, last, logs, places);
    law_fills_keep_place(window, dir, shorter, logs[i], places[i]);
    let before = refilled(window, dir, shorter);
    assert(answers.drop_last() =~= shorter);
    assert(stepper.answered_at(dir, answers, i, last));
    assert(lies_at(logs[i], places[i], before.position));
    if let Some(answer) = answers[last] {
        assert(stepper.asks(i, before.position, dir, answer));
        assert(truthful(before, dir, answer, logs[i], places[i]));
        assert(before.absorbed(dir, answer).buf(dir) == before.buf(dir)
            + answer->Ok_0@.records);
    }
}

/// One step of a stepper over truthful sources.
///
/// A record is the next of the merged walk, and the stepper moves on by that
/// record.  Without one the stepper stays where it stands; where the sources
/// are then exhausted the walk is over, and without a budget they are.
pub proof fn law_step_is_the_next_of_the_walk<S: Source>(
    before: Stepper<S>,
    dir: Direction,
    after: Stepper<S>,
    record: Option<MergeRecordView>,
    logs: Seq<Seq<RecordView>>,
    places: Seq<int>,
)
    requires
        all_stand(before@.windows, logs, places),
        answers_from(before, logs),
        stepped(before, dir, after, record),
    ensures
        answers_from(after, logs),
        window_ids(after@.windows) == window_ids(before@.windows),
        after@.batch_size == before@.batch_size,
        after@.max_records == before@.max_records,
        match record {
            Some(record) => {
                &&& next_emission(logs, places, dir) matches Some(next) && record == named(
                    window_ids(before@.windows),
                    next,
                )
                &&& all_stand(after@.windows, logs, onward(logs, places, dir))
            },
            None => {
                &&& all_stand(after@.windows, logs, places)
                &&& after@.exhausted(dir) ==> next_emission(logs, places, dir) is None
                &&& unbudgeted(before@) ==> after@.exhausted(dir)
            },
        },
{
    let (fills, rounds) = choose|fills: Seq<Seq<Option<Answer>>>, rounds: int|
        #[trigger] before.steps_to(dir, fills, rounds, after@, record);
    let filled = before@.filled(dir, fills);
    assert forall|i: int| 0 <= i < fills.len() implies truthful_fills(
        before@.windows[i],
        dir,
        #[trigger] fills[i],
        logs[i],
        places[i],
    ) by {
        assert forall|k: int| 0 <= k < fills[i].len() implies #[trigger] before.answered_at(
            dir,
            fills[i],
            i,
            k,
        ) by {}
        lemma_answers_are_truthful(
            before,
            dir,
            fills[i],
            i,
            fills[i].len() as int,
            logs,
            places,
        );
        assert(fills[i].take(fills[i].len() as int) =~= fills[i]);
    }
    law_step_emits_the_next_record(before@, dir, fills, logs, places);
    lemma_next_source(upcoming(logs, places, dir), dir);
    lemma_next_source(heads(filled.windows, dir), dir);
    lemma_step_keeps_ids(before@, dir, fills);
    assert(answers_from(after, logs)) by {
        assert forall|i: int, window: WindowView, d: Direction, answer: Answer, place: int|
            0 <= i < logs.len() && #[trigger] after.asks(i, window.position, d, answer)
                && #[trigger] lies_at(logs[i], place, window.position) implies {
            &&& truthful(window, d, answer, logs[i], place)
            &&& unbudgeted(after@) ==> answer->Ok_0@.records.len() > 0 || answer->Ok_0@.eof
        } by {
            assert(before.asks(i, window.position, d, answer));
        }
    }
    if record is None {
        if after@.exhausted(dir) {
            assert(all_ready(filled.windows, dir));
        }
        if unbudgeted(before@) {
            assert forall|i: int| 0 <= i < filled.windows.len() implies (
            #[trigger] filled.windows[i]).ready(dir) by {
                assert forall|k: int| 0 <= k < fills[i].len() implies #[trigger] before.answered_at(
                    dir,
                    fills[i],
                    i,
                    k,
                ) by {}
                assert(before@.windows[i].ready(dir) ==> fills[i].len() == 0);
                if fills[i].len() > 0 {
                    lemma_filled_is_ready(before, dir, fills[i], i, logs, places);
                }
            }
            assert forall|i: int| 0 <= i < after@.windows.len() implies (
            #[trigger] after@.windows[i]).eof(dir) by {
                assert(heads(filled.windows, dir)[i] is None);
                assert(filled.windows[i].ready(dir));
            }
        }
    }
}

proof fn lemma_step_keeps_ids(
    before: StepperView,
    dir: Direction,
    fills: Seq<Seq<Option<Answer>>>,
)
    requires
        fills.len() == before.windows.len(),
    ensures
        window_ids(before.filled(dir, fills).windows) == window_ids(before.windows),
        window_ids(before.filled(dir, fills).emitted(dir).windows) == window_ids(before.windows),
{
    let filled = before.filled(dir, fills);
    assert forall|i: int| 0 <= i < fills.len() implies filled.windows[i].id
        == before.windows[i].id by {
        lemma_refilled_id(before.windows[i], dir, fills[i]);
    }
    lemma_next_source(heads(filled.windows, dir), dir);
    assert(window_ids(filled.windows) =~= window_ids(before.windows));
    assert(window_ids(filled.emitted(dir).windows) =~= window_ids(before.windows));
}

proof fn lemma_shorter_walk<S: Source>(
    steppers: Seq<Stepper<S>>,
    dir: Direction,
    records: Seq<Option<MergeRecordView>>,
)
    requires
        is_walk(steppers, dir, records),
        records.len() > 0,
    ensures
        is_walk(steppers.drop_last(), dir, records.drop_last()),
        steppers.drop_last().first() == steppers.first(),
        steppers.drop_last().last() == steppers[records.len() - 1],
        stepped(
            steppers[records.len() - 1],
            dir,
            steppers.last(),
            records.last(),
        ),
{
    let (fewer, shorter) = (steppers.drop_last(), records.drop_last());
    assert forall|i: int| 0 <= i < shorter.len() implies #[trigger] stepped(
        fewer[i],
        dir,
        fewer[i + 1],
        shorter[i],
    ) by {
        assert(stepped(steppers[i], dir, steppers[i + 1], records[i]));
    }
    let last = records.len() - 1;
    assert(stepped(steppers[last], dir, steppers[last + 1], records[last]));
}

proof fn lemma_emissions_unfold(
    logs: Seq<Seq<RecordView>>,
    places: Seq<int>,
    dir: Direction,
)
    requires
        places_in(logs, places),
    ensures
        match next_emission(logs, places, dir) {
            Some(next) => emissions(logs, places, dir) == seq![next] + emissions(
                logs,
                onward(logs, places, dir),
                dir,
            ),
            None => emissions(logs, places, dir) == Seq::<Emission>::empty(),
        },
{
}

proof fn lemma_stand_in(windows: Seq<WindowView>, logs: Seq<Seq<RecordView>>, places: Seq<int>)
    requires
        all_stand(windows, logs, places),
    ensures
        places_in(logs, places),
{
    assert forall|i: int| 0 <= i < logs.len() implies 0 <= #[trigger] places[i]
        <= logs[i].len() by {
        assert(stands_at(windows[i], logs[i], places[i]));
    }
}

proof fn lemma_one_fewer(
    all: Seq<Emission>,
    n: int,
    next: Emission,
    rest: Seq<Emission>,
)
    requires
        0 <= n <= all.len(),
        all.skip(n) == seq![next] + rest,
    ensures
        n < all.len(),
        all[n] == next,
        rest == all.skip(n + 1),
{
    let left = all.skip(n);
    assert(left.len() == rest.len() + 1);
    assert(left[0] == next);
    assert(left.skip(1) =~= rest);
    assert(left.skip(1) =~= all.skip(n + 1));
}

/// As long as every step of a walk gives a record, the records are the first
/// of the merged walk, and the rest of it is still to come.
#[verifier::spinoff_prover]
#[verifier::rlimit(40)]
pub proof fn law_walk_gives_the_first_of_the_merge<S: Source>(
    steppers: Seq<Stepper<S>>,
    dir: Direction,
    records: Seq<Option<MergeRecordView>>,
    logs: Seq<Seq<RecordView>>,
    places: Seq<int>,
)
    requires
        is_walk(steppers, dir, records),
        all_stand(steppers.first()@.windows, logs, places),
        answers_from(steppers.first(), logs),
        forall|k: int| 0 <= k < records.len() ==> (#[trigger] records[k]) is Some,
    ensures
        ({
            let all = emissions(logs, places, dir);
            let here = places_on(logs, places, dir, records.len());
            &&& records.len() <= all.len()
            &&& forall|k: int|
                0 <= k < records.len() ==> (#[trigger] records[k]) == Some(
                    named(window_ids(steppers.first()@.windows), all[k]),
                )
            &&& emissions(logs, here, dir) == all.skip(records.len() as int)
            &&& all_stand(steppers.last()@.windows, logs, here)
        }),
        answers_from(steppers.last(), logs),
        window_ids(steppers.last()@.windows) == window_ids(steppers.first()@.windows),
        unbudgeted(steppers.last()@) == unbudgeted(steppers.first()@),
    decreases records.len(),
{
    let all = emissions(logs, places, dir);
    if records.len() == 0 {
        assert(all.skip(0) =~= all);
    } else {
        let (fewer, shorter) = (steppers.drop_last(), records.drop_last());
        lemma_shorter_walk(steppers, dir, records);
        assert forall|k: int| 0 <= k < shorter.len() implies (#[trigger] shorter[k]) is Some by {
            assert(records[k] is Some);
        }
        law_walk_gives_the_first_of_the_merge(fewer, dir, shorter, logs, places);
        let here = places_on(logs, places, dir, shorter.len());
        let last = records.len() - 1;
        assert(records[last] is Some);
        law_step_is_the_next_of_the_walk(
            steppers[last],
            dir,
            steppers.last(),
            records.last(),
            logs,
            here,
        );
        lemma_stand_in(steppers[last]@.windows, logs, here);
        lemma_emissions_unfold(logs, here, dir);
        lemma_one_fewer(
            all,
            last,
            next_emission(logs, here, dir)->Some_0,
            emissions(logs, onward(logs, here, dir), dir),
        );
        assert(places_on(logs, places, dir, records.len()) == onward(logs, here, dir));
        assert forall|k: int| 0 <= k < records.len() implies (#[trigger] records[k]) == Some(
            named(window_ids(steppers.first()@.windows), all[k]),
        ) by {
            if k < last {
                assert(shorter[k] == records[k]);
            }
        }
    }
}

proof fn lemma_opened_at_the_start(
    ids: Seq<Seq<char>>,
    filter: Seq<PredicateView>,
    options: StepperOptions,
    logs: Seq<Seq<RecordView>>,
)
    requires
        logs.len() == ids.len(),
        forall|i: int| 0 <= i < logs.len() ==> is_log(#[trigger] logs[i]),
    ensures
        ({
            let opened = StepperView::opened(ids, filter, Map::empty(), options);
            &&& all_stand(opened.windows, logs, starts(logs))
            &&& window_ids(opened.windows) == ids
        }),
{
    let opened = StepperView::opened(ids, filter, Map::empty(), options);
    assert forall|i: int| 0 <= i < opened.windows.len() implies is_log(#[trigger] logs[i])
        && stands_at(opened.windows[i], logs[i], starts(logs)[i]) by {
        law_fresh_window_stands(ids[i], 0, logs[i], 0);
    }
    assert(window_ids(opened.windows) =~= ids);
}

/// A stepper that is opened at the start and stepped forward until it gives
/// nothing has given every matching record of every source exactly once:
/// those of one source in their order, all of them in time order where each
/// source is, and those of the same time by source.
///
/// A stepper with a budget is done only once its sources are exhausted.
pub proof fn law_drained_stepper_gives_every_record_once<S: Source>(
    steppers: Seq<Stepper<S>>,
    records: Seq<Option<MergeRecordView>>,
    ids: Seq<Seq<char>>,
    filter: Seq<PredicateView>,
    options: StepperOptions,
    logs: Seq<Seq<RecordView>>,
)
    requires
        is_walk(steppers, Direction::Forward, records),
        steppers.first()@ == StepperView::opened(ids, filter, Map::empty(), options),
        logs.len() == ids.len(),
        forall|i: int| 0 <= i < logs.len() ==> is_log(#[trigger] logs[i]),
        answers_from(steppers.first(), logs),
        records.len() > 0,
        records.last() is None,
        forall|k: int| 0 <= k < records.len() - 1 ==> (#[trigger] records[k]) is Some,
        unbudgeted(steppers.first()@) || steppers.last()@.exhausted(Direction::Forward),
    ensures
        ({
            let all = emissions(logs, starts(logs), Direction::Forward);
            &&& records.len() == all.len() + 1
            &&& forall|k: int|
                0 <= k < all.len() ==> (#[trigger] records[k]) == Some(named(ids, all[k]))
            &&& forall|i: int|
                0 <= i < logs.len() ==> from_source(all, i) == #[trigger] logs[i]
            &&& time_sorted(logs) ==> forall|m: int, n: int|
                0 <= m < n < all.len() ==> in_order(
                    #[trigger] all[m],
                    #[trigger] all[n],
                    Direction::Forward,
                )
        }),
{
    let dir = Direction::Forward;
    let all = emissions(logs, starts(logs), dir);
    let (fewer, shorter) = (steppers.drop_last(), records.drop_last());
    let last = records.len() - 1;
    lemma_opened_at_the_start(ids, filter, options, logs);
    lemma_shorter_walk(steppers, dir, records);
    assert forall|k: int| 0 <= k < shorter.len() implies (#[trigger] shorter[k]) is Some by {
        assert(records[k] is Some);
    }
    law_walk_gives_the_first_of_the_merge(fewer, dir, shorter, logs, starts(logs));
    let here = places_on(logs, starts(logs), dir, shorter.len());
    law_step_is_the_next_of_the_walk(
        steppers[last],
        dir,
        steppers.last(),
        records.last(),
        logs,
        here,
    );
    lemma_stand_in(steppers[last]@.windows, logs, here);
    lemma_emissions_unfold(logs, here, dir);
    assert(all.skip(last).len() == 0);
    assert forall|k: int| 0 <= k < all.len() implies (#[trigger] records[k]) == Some(
        named(ids, all[k]),
    ) by {
        assert(shorter[k] == records[k]);
    }
    lemma_stand_in(steppers.first()@.windows, logs, starts(logs));
    assert forall|i: int| 0 <= i < logs.len() implies from_source(all, i)
        == #[trigger] logs[i] by {
        law_merge_keeps_every_source_whole(logs, starts(logs), dir, i);
        assert(logs[i].skip(0) =~= logs[i]);
    }
    if time_sorted(logs) {
        law_merge_is_in_time_order(logs, starts(logs), dir);
    }
}

/// Where a forward walk has been is a cut, and each of its steps is undone by
/// a step back.
proof fn lemma_way_back(logs: Seq<Seq<RecordView>>, n: nat)
    requires
        no_errors(logs),
        time_sorted(logs),
        n <= emissions(logs, starts(logs), Direction::Forward).len(),
    ensures
        ({
            let here = places_on(logs, starts(logs), Direction::Forward, n);
            let all = emissions(logs, starts(logs), Direction::Forward);
            &&& places_in(logs, here)
            &&& is_cut(logs, here)
            &&& emissions(logs, here, Direction::Forward) == all.skip(n as int)
            &&& n > 0 ==> {
                let earlier = places_on(logs, starts(logs), Direction::Forward, (n - 1) as nat);
                &&& next_emission(logs, here, Direction::Backward) == Some(all[n - 1])
                &&& onward(logs, here, Direction::Backward) == earlier
            }
        }),
    decreases n,
{
    let all = emissions(logs, starts(logs), Direction::Forward);
    if n == 0 {
        law_start_and_end_are_cuts(logs);
        assert(all.skip(0) =~= all);
    } else {
        let earlier = places_on(logs, starts(logs), Direction::Forward, (n - 1) as nat);
        lemma_way_back(logs, (n - 1) as nat);
        lemma_emissions_unfold(logs, earlier, Direction::Forward);
        let rest = all.skip(n - 1);
        assert(rest.len() > 0);
        law_steps_undo_each_other(logs, earlier, Direction::Forward);
        let here = onward(logs, earlier, Direction::Forward);
        assert(rest[0] == all[n - 1]);
        assert(emissions(logs, here, Direction::Forward) =~= all.skip(n as int)) by {
            assert(rest.skip(1) =~= emissions(logs, here, Direction::Forward));
            assert(rest.skip(1) =~= all.skip(n as int));
        }
    }
}

proof fn lemma_steps_back<S: Source>(
    steppers: Seq<Stepper<S>>,
    records: Seq<Option<MergeRecordView>>,
    logs: Seq<Seq<RecordView>>,
    n: nat,
)
    requires
        no_errors(logs),
        time_sorted(logs),
        records.len() <= n <= emissions(logs, starts(logs), Direction::Forward).len(),
        is_walk(steppers, Direction::Backward, records),
        all_stand(
            steppers.first()@.windows,
            logs,
            places_on(logs, starts(logs), Direction::Forward, n),
        ),
        answers_from(steppers.first(), logs),
        unbudgeted(steppers.first()@),
    ensures
        ({
            let all = emissions(logs, starts(logs), Direction::Forward);
            forall|k: int|
                0 <= k < records.len() ==> (#[trigger] records[k]) == Some(
                    named(window_ids(steppers.first()@.windows), all[n - 1 - k]),
                )
        }),
        all_stand(
            steppers.last()@.windows,
            logs,
            places_on(logs, starts(logs), Direction::Forward, (n - records.len()) as nat),
        ),
        answers_from(steppers.last(), logs),
        unbudgeted(steppers.last()@),
        window_ids(steppers.last()@.windows) == window_ids(steppers.first()@.windows),
    decreases records.len(),
{
    if records.len() > 0 {
        let all = emissions(logs, starts(logs), Direction::Forward);
        let (fewer, shorter) = (steppers.drop_last(), records.drop_last());
        let last = records.len() - 1;
        lemma_shorter_walk(steppers, Direction::Backward, records);
        lemma_steps_back(fewer, shorter, logs, n);
        let m = (n - last) as nat;
        let here = places_on(logs, starts(logs), Direction::Forward, m);
        lemma_way_back(logs, m);
        law_step_is_the_next_of_the_walk(
            steppers[last],
            Direction::Backward,
            steppers.last(),
            records.last(),
            logs,
            here,
        );
        assert forall|k: int| 0 <= k < records.len() implies (#[trigger] records[k]) == Some(
            named(window_ids(steppers.first()@.windows), all[n - 1 - k]),
        ) by {
            if k < last {
                assert(shorter[k] == records[k]);
            }
        }
    }
}

/// A stepper goes back the way it came.
///
/// Opened at the start and stepped forward `n` times with a record each, it
/// gives the same records in reverse on `n` steps back and nothing on one
/// more; stepped forward again, it gives them once more from the first on.
/// This is for sources in time order whose records could all be read, however
/// many records the windows keep.
pub proof fn law_stepper_goes_back_the_way_it_came<S: Source>(
    out: Seq<Stepper<S>>,
    forward: Seq<Option<MergeRecordView>>,
    home: Seq<Stepper<S>>,
    backward: Seq<Option<MergeRecordView>>,
    onto: Seq<Stepper<S>>,
    again: Seq<Option<MergeRecordView>>,
    ids: Seq<Seq<char>>,
    filter: Seq<PredicateView>,
    options: StepperOptions,
    logs: Seq<Seq<RecordView>>,
)
    requires
        is_walk(out, Direction::Forward, forward),
        out.first()@ == StepperView::opened(ids, filter, Map::empty(), options),
        unbudgeted(out.first()@),
        logs.len() == ids.len(),
        forall|i: int| 0 <= i < logs.len() ==> is_log(#[trigger] logs[i]),
        no_errors(logs),
        time_sorted(logs),
        answers_from(out.first(), logs),
        forall|k: int| 0 <= k < forward.len() ==> (#[trigger] forward[k]) is Some,
        is_walk(home, Direction::Backward, backward),
        home.first() == out.last(),
        backward.len() == forward.len() + 1,
        is_walk(onto, Direction::Forward, again),
        onto.first() == home.last(),
        again.len() <= forward.len(),
    ensures
        forall|k: int|
            0 <= k < forward.len() ==> (#[trigger] backward[k]) == forward[forward.len() - 1 - k],
        backward.last() is None,
        forall|k: int| 0 <= k < again.len() ==> (#[trigger] again[k]) == forward[k],
{
    let n = forward.len();
    let all = emissions(logs, starts(logs), Direction::Forward);
    lemma_opened_at_the_start(ids, filter, options, logs);
    law_walk_gives_the_first_of_the_merge(out, Direction::Forward, forward, logs, starts(logs));
    let (fewer, shorter) = (home.drop_last(), backward.drop_last());
    lemma_shorter_walk(home, Direction::Backward, backward);
    lemma_steps_back(fewer, shorter, logs, n);
    let before = home[backward.len() - 1];
    assert(places_on(logs, starts(logs), Direction::Forward, 0) == starts(logs));
    law_step_is_the_next_of_the_walk(
        before,
        Direction::Backward,
        home.last(),
        backward.last(),
        logs,
        starts(logs),
    );
    let behind = upcoming(logs, starts(logs), Direction::Backward);
    lemma_next_source(behind, Direction::Backward);
    assert forall|i: int| 0 <= i < behind.len() implies (#[trigger] behind[i]) is None by {
        assert(ahead(logs[i], starts(logs)[i], Direction::Backward).len() == 0);
    }
    assert forall|k: int| 0 <= k < n implies (#[trigger] backward[k]) == forward[n - 1 - k] by {
        assert(shorter[k] == backward[k]);
        assert(forward[n - 1 - k] is Some);
    }
    lemma_steps_on(onto, again, logs, n);
    assert forall|k: int| 0 <= k < again.len() implies (#[trigger] again[k]) == forward[k] by {
        assert(forward[k] is Some);
    }
}

/// From the start, an unbudgeted stepper gives a record on every step while
/// there is one.
proof fn lemma_steps_on<S: Source>(
    steppers: Seq<Stepper<S>>,
    records: Seq<Option<MergeRecordView>>,
    logs: Seq<Seq<RecordView>>,
    n: nat,
)
    requires
        records.len() <= n <= emissions(logs, starts(logs), Direction::Forward).len(),
        is_walk(steppers, Direction::Forward, records),
        all_stand(steppers.first()@.windows, logs, starts(logs)),
        answers_from(steppers.first(), logs),
        unbudgeted(steppers.first()@),
    ensures
        ({
            let all = emissions(logs, starts(logs), Direction::Forward);
            forall|k: int|
                0 <= k < records.len() ==> (#[trigger] records[k]) == Some(
                    named(window_ids(steppers.first()@.windows), all[k]),
                )
        }),
    decreases records.len(),
{
    if records.len() > 0 {
        let dir = Direction::Forward;
        let all = emissions(logs, starts(logs), dir);
        let (fewer, shorter) = (steppers.drop_last(), records.drop_last());
        let last = records.len() - 1;
        lemma_shorter_walk(steppers, dir, records);
        lemma_steps_on(fewer, shorter, logs, n);
        law_walk_gives_the_first_of_the_merge(fewer, dir, shorter, logs, starts(logs));
        let here = places_on(logs, starts(logs), dir, shorter.len());
        law_step_is_the_next_of_the_walk(
            steppers[last],
            dir,
            steppers.last(),
            records.last(),
            logs,
            here,
        );
        lemma_stand_in(steppers[last]@.windows, logs, here);
        lemma_emissions_unfold(logs, here, dir);
        assert(all.skip(last)[0] == all[last]);
        assert forall|k: int| 0 <= k < records.len() implies (#[trigger] records[k]) == Some(
            named(window_ids(steppers.first()@.windows), all[k]),
        ) by {
            if k < last {
                assert(shorter[k] == records[k]);
            }
        }
    }
}

/// The records that a walk gave, without the steps that came up empty.
pub open spec fn gathered(records: Seq<Option<MergeRecordView>>) -> Seq<MergeRecordView>
    decreases records.len(),
{
    if records.len() == 0 {
        Seq::empty()
    } else {
        let earlier = gathered(records.drop_last());
        match records.last() {
            Some(record) => earlier.push(record),
            None => earlier,
        }
    }
}

/// Emissions as records of the merge.
pub open spec fn all_named(ids: Seq<Seq<char>>, emissions: Seq<Emission>) -> Seq<MergeRecordView> {
    emissions.map_values(|e: Emission| named(ids, e))
}

/// Whether the records, and after them all that is still to come from where
/// the windows stand, are what was to come from the given places.
pub open spec fn resumed(
    records: Seq<MergeRecordView>,
    windows: Seq<WindowView>,
    dir: Direction,
    logs: Seq<Seq<RecordView>>,
    places: Seq<int>,
) -> bool {
    exists|here: Seq<int>|
        {
            &&& #[trigger] all_stand(windows, logs, here)
            &&& records + all_named(window_ids(windows), emissions(logs, here, dir)) == all_named(
                window_ids(windows),
                emissions(logs, places, dir),
            )
        }
}

proof fn lemma_one_named(
    earlier: Seq<MergeRecordView>,
    ids: Seq<Seq<char>>,
    next: Emission,
    rest: Seq<Emission>,
)
    ensures
        earlier.push(named(ids, next)) + all_named(ids, rest) == earlier + all_named(
            ids,
            seq![next] + rest,
        ),
{
    assert(earlier.push(named(ids, next)) + all_named(ids, rest) =~= earlier + all_named(
        ids,
        seq![next] + rest,
    ));
}

/// A walk skips no record and gives none twice, whether or not some of its
/// steps came up without one.
pub proof fn law_walk_resumes_where_it_stopped<S: Source>(
    steppers: Seq<Stepper<S>>,
    dir: Direction,
    records: Seq<Option<MergeRecordView>>,
    logs: Seq<Seq<RecordView>>,
    places: Seq<int>,
)
    requires
        is_walk(steppers, dir, records),
        all_stand(steppers.first()@.windows, logs, places),
        answers_from(steppers.first(), logs),
    ensures
        resumed(gathered(records), steppers.last()@.windows, dir, logs, places),
        answers_from(steppers.last(), logs),
        window_ids(steppers.last()@.windows) == window_ids(steppers.first()@.windows),
    decreases records.len(),
{
    let ids = window_ids(steppers.first()@.windows);
    let all = emissions(logs, places, dir);
    if records.len() == 0 {
        assert(gathered(records) + all_named(ids, all) =~= all_named(ids, all));
        assert(all_stand(steppers.last()@.windows, logs, places));
    } else {
        let (fewer, shorter) = (steppers.drop_last(), records.drop_last());
        let last = records.len() - 1;
        lemma_shorter_walk(steppers, dir, records);
        law_walk_resumes_where_it_stopped(fewer, dir, shorter, logs, places);
        let windows = steppers[last]@.windows;
        let here = choose|here: Seq<int>|
            {
                &&& #[trigger] all_stand(windows, logs, here)
                &&& gathered(shorter) + all_named(ids, emissions(logs, here, dir)) == all_named(
                    ids,
                    all,
                )
            };
        law_step_is_the_next_of_the_walk(
            steppers[last],
            dir,
            steppers.last(),
            records.last(),
            logs,
            here,
        );
        if records.last() is Some {
            lemma_stand_in(windows, logs, here);
            lemma_emissions_unfold(logs, here, dir);
            let next = next_emission(logs, here, dir)->Some_0;
            lemma_one_named(
                gathered(shorter),
                ids,
                next,
                emissions(logs, onward(logs, here, dir), dir),
            );
            assert(all_stand(steppers.last()@.windows, logs, onward(logs, here, dir)));
        } else {
            assert(all_stand(steppers.last()@.windows, logs, here));
        }
    }
}

/// What a step without a record means.
///
/// Either the sources are exhausted: then every further step comes up empty
/// and leaves the cursor and the bytes walked alone.  Or a budget is set and
/// ran out: then further steps take up the scan, skip no record and give none
/// twice.
pub proof fn law_step_without_a_record<S: Source>(
    before: Stepper<S>,
    dir: Direction,
    steppers: Seq<Stepper<S>>,
    records: Seq<Option<MergeRecordView>>,
    logs: Seq<Seq<RecordView>>,
    places: Seq<int>,
)
    requires
        before@.batch_size > 0,
        all_stand(before@.windows, logs, places),
        answers_from(before, logs),
        steppers.len() > 0,
        stepped(before, dir, steppers.first(), None),
        is_walk(steppers, dir, records),
    ensures
        steppers.first()@.exhausted(dir) ==> {
            &&& forall|k: int| 0 <= k < records.len() ==> (#[trigger] records[k]) is None
            &&& cursor_of(steppers.last()@.windows) == cursor_of(steppers.first()@.windows)
            &&& steppers.last()@.walked == steppers.first()@.walked
        },
        !steppers.first()@.exhausted(dir) ==> {
            &&& before@.max_records is Some
            &&& resumed(gathered(records), steppers.last()@.windows, dir, logs, places)
        },
{
    law_step_is_the_next_of_the_walk(before, dir, steppers.first(), None, logs, places);
    if steppers.first()@.exhausted(dir) {
        law_exhausted_walk_stays_over(before, dir, steppers, records);
    } else {
        law_walk_resumes_where_it_stopped(steppers, dir, records, logs, places);
    }
}

/// Whether the steppers follow one another by steps, each in its direction,
/// that emit the records.
pub open spec fn is_path<S: Source>(
    steppers: Seq<Stepper<S>>,
    dirs: Seq<Direction>,
    records: Seq<Option<MergeRecordView>>,
) -> bool {
    &&& steppers.len() == records.len() + 1
    &&& dirs.len() == records.len()
    &&& forall|i: int|
        0 <= i < records.len() ==> #[trigger] stepped(
            steppers[i],
            dirs[i],
            steppers[i + 1],
            records[i],
        )
}

/// Whether a source that was asked from `position` gave the record in its
/// answer, or the record stands for its failure.
pub open spec fn gave(answer: Answer, position: u64, record: RecordView) -> bool {
    match answer {
        Ok(batch) => batch@.records.contains(record),
        Err(failure) => record == (RecordView {
            offset: position,
            length: 0,
            event: Err(SourceError::Io(failure)),
            raw: Seq::empty(),
        }),
    }
}

/// Whether the record comes from an answer of source `i` to this stepper.
pub open spec fn came_from<S: Source>(asker: Stepper<S>, i: int, record: RecordView) -> bool {
    exists|position: u64, dir: Direction, answer: Answer|
        #[trigger] asker.asks(i, position, dir, answer) && gave(answer, position, record)
}

/// Whether all that the window of source `i` has cached comes from answers to
/// this stepper.
pub open spec fn cached_from<S: Source>(asker: Stepper<S>, i: int, window: WindowView) -> bool {
    forall|dir: Direction, k: int|
        0 <= k < window.buf(dir).len() ==> came_from(asker, i, #[trigger] window.buf(dir)[k])
}

/// Whether all that the windows have cached comes from answers to this
/// stepper.
pub open spec fn all_cached_from<S: Source>(asker: Stepper<S>, windows: Seq<WindowView>) -> bool {
    forall|i: int| 0 <= i < windows.len() ==> cached_from(asker, i, #[trigger] windows[i])
}

proof fn lemma_fills_are_cached_from<S: Source>(
    asker: Stepper<S>,
    stepper: Stepper<S>,
    dir: Direction,
    answers: Seq<Option<Answer>>,
    i: int,
    n: int,
)
    requires
        0 <= n <= answers.len(),
        0 <= i < stepper@.windows.len(),
        stepper.asks_as(asker),
        cached_from(asker, i, stepper@.windows[i]),
        forall|k: int|
            0 <= k < answers.len() ==> #[trigger] stepper.answered_at(dir, answers, i, k),
    ensures
        cached_from(asker, i, refilled(stepper@.windows[i], dir, answers.take(n))),
    decreases n,
{
    let window = stepper@.windows[i];
    if n == 0 {
        assert(refilled(window, dir, answers.take(0)) == window);
    } else {
        lemma_fills_are_cached_from(asker, stepper, dir, answers, i, n - 1);
        let before = refilled(window, dir, answers.take(n - 1));
        let after = refilled(window, dir, answers.take(n));
        assert(answers.take(n).drop_last() =~= answers.take(n - 1));
        assert(answers.take(n).last() == answers[n - 1]);
        assert(stepper.answered_at(dir, answers, i, n - 1));
        assert forall|d: Direction, k: int| 0 <= k < after.buf(d).len() implies came_from(
            asker,
            i,
            #[trigger] after.buf(d)[k],
        ) by {
            if k < before.buf(d).len() {
                assert(after.buf(d)[k] == before.buf(d)[k]);
            } else {
                let answer = answers[n - 1]->Some_0;
                assert(d == dir);
                assert(asker.asks(i, before.position, dir, answer)) by {
                    assert(stepper.asks(i, before.position, dir, answer));
                }
                if let Ok(batch) = answer {
                    assert(after.buf(d)[k] == batch@.records[k - before.buf(d).len()]);
                }
                assert(gave(answer, before.position, after.buf(d)[k]));
            }
        }
    }
}

proof fn lemma_step_is_cached_from<S: Source>(
    asker: Stepper<S>,
    before: Stepper<S>,
    dir: Direction,
    after: Stepper<S>,
    record: Option<MergeRecordView>,
)
    requires
        before.asks_as(asker),
        all_cached_from(asker, before@.windows),
        stepped(before, dir, after, record),
    ensures
        after.asks_as(asker),
        after@.filter == before@.filter,
        after@.windows.len() == before@.windows.len(),
        all_cached_from(asker, after@.windows),
        record matches Some(record) ==> exists|i: int|
            0 <= i < before@.windows.len() && #[trigger] came_from(asker, i, record.record),
{
    let (fills, rounds) = choose|fills: Seq<Seq<Option<Answer>>>, rounds: int|
        #[trigger] before.steps_to(dir, fills, rounds, after@, record);
    let filled = before@.filled(dir, fills);
    assert forall|i: int| 0 <= i < filled.windows.len() implies cached_from(
        asker,
        i,
        #[trigger] filled.windows[i],
    ) by {
        assert forall|k: int| 0 <= k < fills[i].len() implies #[trigger] before.answered_at(
            dir,
            fills[i],
            i,
            k,
        ) by {}
        assert(cached_from(asker, i, before@.windows[i]));
        lemma_fills_are_cached_from(asker, before, dir, fills[i], i, fills[i].len() as int);
        assert(fills[i].take(fills[i].len() as int) =~= fills[i]);
    }
    lemma_next_source(heads(filled.windows, dir), dir);
    if let Some(i) = filled.chosen(dir) {
        let window = filled.windows[i];
        let popped = window.popped(dir);
        assert(cached_from(asker, i, window));
        assert(came_from(asker, i, window.buf(dir)[0]));
        assert forall|d: Direction, k: int| 0 <= k < popped.buf(d).len() implies came_from(
            asker,
            i,
            #[trigger] popped.buf(d)[k],
        ) by {
            if d == dir {
                assert(popped.buf(d)[k] == window.buf(d)[k + 1]);
            } else if k > 0 {
                assert(popped.buf(d)[k] == window.buf(d)[k - 1]);
            }
        }
        assert forall|j: int| 0 <= j < after@.windows.len() implies cached_from(
            asker,
            j,
            #[trigger] after@.windows[j],
        ) by {
            if j != i {
                assert(after@.windows[j] == filled.windows[j]);
            }
        }
    }
    assert forall|i: int, position: u64, d: Direction, answer: Answer|
        0 <= i < after@.windows.len() && #[trigger] after.asks(
            i,
            position,
            d,
            answer,
        ) implies asker.asks(i, position, d, answer) by {
        assert(before.asks(i, position, d, answer));
    }
}

proof fn lemma_path_is_cached_from<S: Source>(
    steppers: Seq<Stepper<S>>,
    dirs: Seq<Direction>,
    records: Seq<Option<MergeRecordView>>,
    n: int,
)
    requires
        is_path(steppers, dirs, records),
        all_cached_from(steppers.first(), steppers.first()@.windows),
        0 <= n <= records.len(),
    ensures
        steppers[n].asks_as(steppers.first()),
        steppers[n]@.filter == steppers.first()@.filter,
        steppers[n]@.windows.len() == steppers.first()@.windows.len(),
        all_cached_from(steppers.first(), steppers[n]@.windows),
    decreases n,
{
    if n > 0 {
        lemma_path_is_cached_from(steppers, dirs, records, n - 1);
        assert(stepped(steppers[n - 1], dirs[n - 1], steppers[n - 1 + 1], records[n - 1]));
        lemma_step_is_cached_from(
            steppers.first(),
            steppers[n - 1],
            dirs[n - 1],
            steppers[n],
            records[n - 1],
        );
    }
}

/// A change of filter takes effect at once and for good.
///
/// The cursor and the bytes walked stay, and no source counts as exhausted.
/// Whichever way the stepper goes from there, all that it gives comes from
/// answers to questions that it put under the new filter, never from what was
/// cached before: where the sources answer these with nothing that the filter
/// rejects, no step gives an event that the filter rejects.
pub proof fn law_new_filter_holds_for_every_later_record<S: Source>(
    before: StepperView,
    filter: Seq<PredicateView>,
    steppers: Seq<Stepper<S>>,
    dirs: Seq<Direction>,
    records: Seq<Option<MergeRecordView>>,
    passes: spec_fn(RecordView) -> bool,
)
    requires
        is_path(steppers, dirs, records),
        steppers.first()@ == before.refiltered(filter),
    ensures
        steppers.first()@.filter == filter,
        cursor_of(steppers.first()@.windows) == cursor_of(before.windows),
        steppers.first()@.walked == before.walked,
        before.windows.len() > 0 ==> forall|dir: Direction|
            !(#[trigger] steppers.first()@.exhausted(dir)),
        forall|k: int|
            0 <= k < steppers.len() ==> (#[trigger] steppers[k])@.filter == filter
                && steppers[k].asks_as(steppers.first()),
        forall|k: int|
            0 <= k < records.len() && (#[trigger] records[k]) is Some ==> exists|i: int|
                0 <= i < before.windows.len() && #[trigger] came_from(
                    steppers.first(),
                    i,
                    records[k]->Some_0.record,
                ),
        (forall|i: int, position: u64, dir: Direction, answer: Answer, n: int|
            0 <= i < before.windows.len() && #[trigger] steppers.first().asks(
                i,
                position,
                dir,
                answer,
            ) && answer is Ok && 0 <= n < answer->Ok_0@.records.len() ==> passes(
                #[trigger] answer->Ok_0@.records[n],
            )) ==> forall|k: int|
            0 <= k < records.len() && (#[trigger] records[k]) is Some
                && records[k]->Some_0.record.event is Ok ==> passes(records[k]->Some_0.record),
{
    let first = steppers.first();
    law_filter_change_keeps_the_cursor(before, filter);
    assert(all_cached_from(first, first@.windows)) by {
        assert forall|i: int| 0 <= i < first@.windows.len() implies cached_from(
            first,
            i,
            #[trigger] first@.windows[i],
        ) by {
            assert(first@.windows[i] == before.windows[i].cleared());
        }
    }
    assert forall|dir: Direction| before.windows.len() > 0 implies !(
    #[trigger] first@.exhausted(dir)) by {
        assert(first@.windows[0] == before.windows[0].cleared());
        assert(!first@.windows[0].eof(dir));
    }
    assert forall|k: int| 0 <= k < steppers.len() implies (#[trigger] steppers[k])@.filter == filter
        && steppers[k].asks_as(first) by {
        lemma_path_is_cached_from(steppers, dirs, records, k);
    }
    assert forall|k: int| 0 <= k < records.len() && (#[trigger] records[k]) is Some implies exists|
        i: int,
    |
        0 <= i < before.windows.len() && #[trigger] came_from(
            first,
            i,
            records[k]->Some_0.record,
        ) by {
        lemma_path_is_cached_from(steppers, dirs, records, k);
        assert(stepped(steppers[k], dirs[k], steppers[k + 1], records[k]));
        lemma_step_is_cached_from(first, steppers[k], dirs[k], steppers[k + 1], records[k]);
    }
    if forall|i: int, position: u64, dir: Direction, answer: Answer, n: int|
        0 <= i < before.windows.len() && #[trigger] first.asks(i, position, dir, answer)
            && answer is Ok && 0 <= n < answer->Ok_0@.records.len() ==> passes(
            #[trigger] answer->Ok_0@.records[n],
        ) {
        assert forall|k: int|
            0 <= k < records.len() && (#[trigger] records[k]) is Some
                && records[k]->Some_0.record.event is Ok implies passes(
            records[k]->Some_0.record,
        ) by {
            let record = records[k]->Some_0.record;
            let i = choose|i: int|
                0 <= i < before.windows.len() && #[trigger] came_from(first, i, record);
            let (position, dir, answer) = choose|position: u64, dir: Direction, answer: Answer|
                #[trigger] first.asks(i, position, dir, answer) && gave(answer, position, record);
            let answered = answer->Ok_0@.records;
            let n = choose|n: int| 0 <= n < answered.len() && answered[n] == record;
            assert(answered[n] == record);
        }
    }
}

} // verus!
