//! Bounded walks over the merged records.

pub mod laws;

use crate::engine::{
    accepted, cursor_of, ids, lemma_walked_in_all_empty, record_view, walks, Answer, Engine, MergeRecord, MergeRecordView, Stepper,
    StepperOptions, StepperView, FETCH_BATCH_SIZE,
};
use crate::filter::{Filter, PredicateView};
use crate::position::{ByteOffset, Cursor};
use crate::source::{Direction, Source};
use vstd::prelude::*;

verus! {

/// Whether one step takes the stepper `before` to `after` and emits
/// `record`.
pub open spec fn stepped<S: Source>(
    before: Stepper<S>,
    dir: Direction,
    after: Stepper<S>,
    record: Option<MergeRecordView>,
) -> bool {
    &&& exists|fills: Seq<Seq<Option<Answer>>>, rounds: int|
        #[trigger] before.steps_to(dir, fills, rounds, after@, record)
    &&& after.same_sources(before)
    &&& after.asks_as(before)
}

/// Whether the steppers follow one another by steps that emit the records.
pub open spec fn is_walk<S: Source>(
    steppers: Seq<Stepper<S>>,
    dir: Direction,
    records: Seq<Option<MergeRecordView>>,
) -> bool {
    &&& steppers.len() == records.len() + 1
    &&& forall|i: int|
        0 <= i < records.len() ==> #[trigger] stepped(
            steppers[i],
            dir,
            steppers[i + 1],
            records[i],
        )
}

/// Whether the stepper is fresh from the engine, at the cursor.
pub open spec fn opened_at<S: Source>(
    stepper: Stepper<S>,
    sources: Seq<(Seq<char>, S)>,
    filter: Seq<PredicateView>,
    cursor: Map<Seq<char>, ByteOffset>,
) -> bool {
    &&& stepper@ == StepperView::opened(
        ids(accepted(sources, filter)),
        filter,
        cursor,
        (StepperOptions { batch_size: FETCH_BATCH_SIZE, max_records_to_scan_per_fill: None }),
    )
    &&& walks(stepper, accepted(sources, filter))
}

pub(crate) proof fn lemma_walk_on<S: Source>(
    steppers: Seq<Stepper<S>>,
    dir: Direction,
    records: Seq<Option<MergeRecordView>>,
    after: Stepper<S>,
    record: Option<MergeRecordView>,
)
    requires
        is_walk(steppers, dir, records),
        stepped(steppers.last(), dir, after, record),
    ensures
        is_walk(steppers.push(after), dir, records.push(record)),
{
    let (longer, more) = (steppers.push(after), records.push(record));
    assert forall|i: int| 0 <= i < more.len() implies #[trigger] stepped(
        longer[i],
        dir,
        longer[i + 1],
        more[i],
    ) by {
        if i < records.len() {
            assert(stepped(steppers[i], dir, steppers[i + 1], records[i]));
        }
    }
}

/// Where every source has its end mark and nothing is cached, a step finds
/// nothing and changes nothing.
proof fn lemma_exhausted_step<S: Source>(
    before: Stepper<S>,
    dir: Direction,
    after: Stepper<S>,
    record: Option<MergeRecordView>,
)
    requires
        before@.exhausted(dir),
        before@.chosen(dir) is None,
        stepped(before, dir, after, record),
    ensures
        record is None,
        after@ == before@,
{
    let (fills, rounds) = choose|fills: Seq<Seq<Option<Answer>>>, rounds: int|
        #[trigger] before.steps_to(dir, fills, rounds, after@, record);
    let windows = before@.windows;
    assert forall|i: int| 0 <= i < fills.len() implies (#[trigger] fills[i]).len() == 0 by {
        assert(windows[i].ready(dir));
    }
    lemma_walked_in_all_empty(fills);
    assert(before@.filled(dir, fills).windows =~= windows);
}

/// Once a step has found nothing and the sources are exhausted, every further
/// step finds nothing, and neither the cursor nor the bytes walked change.
pub proof fn law_exhausted_walk_stays_over<S: Source>(
    before: Stepper<S>,
    dir: Direction,
    steppers: Seq<Stepper<S>>,
    records: Seq<Option<MergeRecordView>>,
)
    requires
        steppers.len() > 0,
        stepped(before, dir, steppers.first(), None),
        steppers.first()@.exhausted(dir),
        is_walk(steppers, dir, records),
    ensures
        forall|i: int| 0 <= i < records.len() ==> (#[trigger] records[i]) is None,
        steppers.last()@ == steppers.first()@,
        cursor_of(steppers.last()@.windows) == cursor_of(steppers.first()@.windows),
        steppers.last()@.walked == steppers.first()@.walked,
    decreases records.len(),
{
    let first = steppers.first();
    assert(first@.chosen(dir) is None);
    if records.len() > 0 {
        let (fewer, shorter) = (steppers.drop_last(), records.drop_last());
        let last = records.len() - 1;
        assert forall|i: int| 0 <= i < shorter.len() implies #[trigger] stepped(
            fewer[i],
            dir,
            fewer[i + 1],
            shorter[i],
        ) by {
            assert(stepped(steppers[i], dir, steppers[i + 1], records[i]));
        }
        law_exhausted_walk_stays_over(before, dir, fewer, shorter);
        assert(stepped(steppers[last], dir, steppers[last + 1], records[last]));
        lemma_exhausted_step(steppers[last], dir, steppers[last + 1], records[last]);
        assert forall|i: int| 0 <= i < records.len() implies (#[trigger] records[i]) is None by {
            if i < last {
                assert(shorter[i] is None);
            }
        }
    }
}

/// The views of records.
pub open spec fn merge_views(records: Seq<MergeRecord>) -> Seq<MergeRecordView> {
    records.map_values(|r: MergeRecord| r@)
}

/// The records of a walk that none of its steps came up without.
pub open spec fn emitted(records: Seq<MergeRecordView>) -> Seq<Option<MergeRecordView>> {
    records.map_values(|r: MergeRecordView| Some(r))
}

/// What up to `n` steps emit that yield the records: where they are fewer, a
/// last step came up without one.
pub open spec fn steps_for(records: Seq<MergeRecordView>, n: int) -> Seq<Option<MergeRecordView>> {
    if records.len() == n {
        emitted(records)
    } else {
        emitted(records).push(None)
    }
}

/// Walks `stepper` backward up to `n` times and returns the records in
/// chronological order.  It stops early where there is no further record.
pub fn step_backward_n<S: Source>(stepper: &mut Stepper<S>, n: usize) -> (out: Vec<MergeRecord>)
    ensures
        exists|steppers: Seq<Stepper<S>>|
            {
                &&& #[trigger] is_walk(
                    steppers,
                    Direction::Backward,
                    steps_for(merge_views(out@).reverse(), n as int),
                )
                &&& steppers.first() == *old(stepper)
                &&& steppers.last() == *final(stepper)
            },
        out@.len() <= n,
{
    let mut back: Vec<MergeRecord> = Vec::new();
    let ghost mut steppers = seq![*stepper];
    let ghost mut records = Seq::<Option<MergeRecordView>>::empty();
    let mut short = false;
    let mut i: usize = 0;
    while i < n && !short
        invariant
            i <= n,
            is_walk(steppers, Direction::Backward, records),
            steppers.first() == *old(stepper),
            steppers.last() == *stepper,
            records == if short {
                emitted(merge_views(back@)).push(None)
            } else {
                emitted(merge_views(back@))
            },
            back@.len() + (if short {
                1int
            } else {
                0
            }) == i,
        decreases n - i,
    {
        let ghost before = *stepper;
        let ghost walked = back@;
        let record = stepper.step_backward();
        let ghost seen = record_view(record);
        proof {
            assert(stepped(before, Direction::Backward, *stepper, seen));
            lemma_walk_on(steppers, Direction::Backward, records, *stepper, seen);
            steppers = steppers.push(*stepper);
            records = records.push(seen);
        }
        match record {
            Some(record) => {
                back.push(record);
                assert(emitted(merge_views(back@)) =~= emitted(merge_views(walked)).push(seen));
            },
            None => {
                short = true;
            },
        }
        i = i + 1;
    }
    let ghost all = back@;
    let mut out: Vec<MergeRecord> = Vec::new();
    while back.len() > 0
        invariant
            back@.len() <= all.len(),
            back@ == all.take(back@.len() as int),
            out@ == all.skip(back@.len() as int).reverse(),
        decreases back@.len(),
    {
        let ghost left = back@;
        if let Some(record) = back.pop() {
            out.push(record);
            proof {
                assert(back@ =~= all.take(back@.len() as int));
                assert(all.skip(back@.len() as int) =~= seq![record] + all.skip(
                    left.len() as int,
                ));
                assert(out@ =~= all.skip(back@.len() as int).reverse());
            }
        }
    }
    proof {
        assert(all.skip(0) =~= all);
        assert(back@.len() == 0);
        assert(merge_views(out@).reverse() =~= merge_views(all));
        assert(records =~= steps_for(merge_views(out@).reverse(), n as int));
        assert(is_walk(
            steppers,
            Direction::Backward,
            steps_for(merge_views(out@).reverse(), n as int),
        ));
    }
    out
}

/// A forward walk that ends once enough events have come by.  Records that
/// could not be read do not count.
pub struct Emitter<S: Source> {
    stepper: Stepper<S>,
    /// events so far
    emitted: u64,
    limit: Option<usize>,
    done: bool,
}

/// How far an [`Emitter`] has come.
#[verifier::ext_equal]
pub struct EmitterView {
    pub emitted: u64,
    pub limit: Option<usize>,
    pub done: bool,
}

impl<S: Source> View for Emitter<S> {
    type V = EmitterView;

    closed spec fn view(&self) -> EmitterView {
        EmitterView { emitted: self.emitted, limit: self.limit, done: self.done }
    }
}

impl EmitterView {
    /// Before the first step.  There is none to take where no event is asked
    /// for.
    pub open spec fn started(limit: Option<usize>) -> EmitterView {
        EmitterView { emitted: 0, limit, done: limit == Some(0usize) }
    }

    /// After one more step.  The walk is over once the limit is reached, or
    /// when there is no further record.
    pub open spec fn after(self, record: Option<MergeRecordView>) -> EmitterView {
        match record {
            None => EmitterView { done: true, ..self },
            Some(record) => if record.record.event is Err {
                self
            } else {
                let emitted = if self.emitted < u64::MAX {
                    (self.emitted + 1) as u64
                } else {
                    u64::MAX
                };
                EmitterView {
                    emitted,
                    done: self.limit matches Some(limit) && emitted >= limit,
                    ..self
                }
            },
        }
    }
}

impl<S: Source> Emitter<S> {
    /// The stepper that walks.
    pub closed spec fn stepper(self) -> Stepper<S> {
        self.stepper
    }

    /// A walk of the filtered records from the cursor on, up to `limit`
    /// events: none where that is zero.
    pub fn new(engine: &Engine<S>, filter: Filter, cursor: &Cursor, limit: Option<usize>) -> (walk:
        Self)
        ensures
            walk@ == EmitterView::started(limit),
            opened_at(walk.stepper(), engine@, filter@, cursor@),
    {
        let done = match limit {
            Some(limit) => limit == 0,
            None => false,
        };
        Emitter { stepper: engine.stepper(filter, cursor), emitted: 0, limit, done }
    }

    /// The next record of the walk, while it goes on.
    pub fn next_record(&mut self) -> (record: Option<MergeRecord>)
        ensures
            old(self)@.done ==> record is None && final(self)@ == old(self)@,
            old(self)@.done ==> final(self).stepper() == old(self).stepper(),
            !old(self)@.done ==> {
                &&& stepped(
                    old(self).stepper(),
                    Direction::Forward,
                    final(self).stepper(),
                    record_view(record),
                )
                &&& final(self)@ == old(self)@.after(record_view(record))
            },
    {
        if self.done {
            return None;
        }
        let ghost before = self.stepper;
        let record = self.stepper.step_forward();
        assert(stepped(before, Direction::Forward, self.stepper, record_view(record)));
        match &record {
            None => {
                self.done = true;
            },
            Some(record) => if record.event.is_ok() {
                self.emitted = self.emitted.saturating_add(1);
                if let Some(limit) = self.limit {
                    if self.emitted >= limit as u64 {
                        self.done = true;
                    }
                }
            },
        }
        record
    }
}

/// Events that a run of emitted records holds.
pub open spec fn events_in(records: Seq<MergeRecordView>) -> nat
    decreases records.len(),
{
    if records.len() == 0 {
        0
    } else {
        events_in(records.drop_last()) + if records.last().record.event is Ok {
            1nat
        } else {
            0
        }
    }
}

/// The state of an emission after a run of records.
pub open spec fn after_all(start: EmitterView, records: Seq<MergeRecordView>) -> EmitterView
    decreases records.len(),
{
    if records.len() == 0 {
        start
    } else {
        after_all(start, records.drop_last()).after(Some(records.last()))
    }
}

/// A walk with a limit ends exactly when that many events have come by: what
/// it emitted before it was done holds fewer.  At a limit of zero it emits
/// nothing.
pub proof fn law_emission_stops_at_the_limit(limit: usize, records: Seq<MergeRecordView>)
    requires
        events_in(records) < u64::MAX,
        forall|i: int|
            0 <= i < records.len() ==> !(#[trigger] after_all(
                EmitterView::started(Some(limit)),
                records.take(i),
            )).done,
    ensures
        ({
            let end = after_all(EmitterView::started(Some(limit)), records);
            &&& end.emitted == events_in(records)
            &&& end.done == (events_in(records) >= limit)
            &&& events_in(records) <= limit
        }),
        limit == 0 ==> records.len() == 0,
    decreases records.len(),
{
    let start = EmitterView::started(Some(limit));
    if records.len() > 0 {
        let rest = records.drop_last();
        assert forall|i: int| 0 <= i < rest.len() implies !(#[trigger] after_all(
            start,
            rest.take(i),
        )).done by {
            assert(rest.take(i) =~= records.take(i));
        }
        law_emission_stops_at_the_limit(limit, rest);
        assert(records.take(records.len() - 1) =~= rest);
        assert(!after_all(start, rest).done);
        lemma_limit_kept(start, rest);
        assert(records.take(0) =~= Seq::empty());
    }
}

proof fn lemma_limit_kept(start: EmitterView, records: Seq<MergeRecordView>)
    ensures
        after_all(start, records).limit == start.limit,
    decreases records.len(),
{
    if records.len() > 0 {
        lemma_limit_kept(start, records.drop_last());
    }
}

/// A walk of up to `n` records has a step for each, and where they are fewer
/// one more, that finds none.
pub proof fn law_short_walks_end_without_a_record(
    records: Seq<MergeRecordView>,
    n: int,
    i: int,
)
    requires
        0 <= i < records.len(),
        records.len() <= n,
    ensures
        steps_for(records, n)[i] == Some(records[i]),
        records.len() == n ==> steps_for(records, n).len() == n,
        records.len() < n ==> steps_for(records, n).len() == records.len() + 1 && steps_for(
            records,
            n,
        ).last() is None,
        steps_for(Seq::empty(), n).last() is None,
{
}

} // verus!
