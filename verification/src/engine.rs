//! Engine: the set of sources in play, and the time-merged walk over them.
//!
//! Each source is taken to be sorted by time; the engine does not re-check
//! that.

pub mod laws;
mod merge;
pub mod window;

pub use crate::position::Cursor;
pub(crate) use merge::{lemma_next_source, lemma_walked_in_all_empty};
pub use merge::{
    all_ready, beats, cursor_of, heads, in_rounds, is_next, next_source, position_in, record_view,
    refilled, settled_in, walked_in, walked_in_all, Stepper, StepperOptions, StepperView,
};
pub use window::{
    at_most, event_view, walked_by, Answer, BatchView, MergeError, MergeRecord, MergeRecordView,
    RecordView, WindowView, BUFFER_LIMIT, FETCH_BATCH_SIZE,
};

use crate::engine::window::share;
use crate::event::Event;
use crate::filter::{accepts_source, Filter, PredicateView};
use crate::position::{offset_after, ByteLen, ByteOffset, LogStreamPosition, SourceId};
use crate::source::{IoFailure, Source};
use std::sync::Arc;
use vstd::prelude::*;

verus! {

/// Records examined at most per fill of a stepper for batched work.
pub const BATCHED_SCAN_LIMIT: usize = 256;

/// An [`Event`] paired with the position that identifies which source it
/// came from and where it stands there.
#[derive(Debug)]
pub struct EngineEvent {
    pub position: LogStreamPosition,
    pub event: Event,
}

/// Tracks the current set of sources and serves event queries.
pub struct Engine<S: Source> {
    sources: Vec<(SourceId, Arc<S>)>,
}

/// The sources that a filter lets take part, in order.
pub open spec fn accepted<S>(
    sources: Seq<(Seq<char>, S)>,
    filter: Seq<PredicateView>,
) -> Seq<(Seq<char>, S)>
    decreases sources.len(),
{
    if sources.len() == 0 {
        Seq::empty()
    } else {
        let rest = accepted(sources.drop_last(), filter);
        if accepts_source(filter, sources.last().0) {
            rest.push(sources.last())
        } else {
            rest
        }
    }
}

/// The ids of sources.
pub open spec fn ids<S>(sources: Seq<(Seq<char>, S)>) -> Seq<Seq<char>> {
    sources.map_values(|s: (Seq<char>, S)| s.0)
}

/// Whether `len` is a length that the source reports: nothing where it
/// fails to.
pub open spec fn reports_len<S: Source>(source: S, len: Option<u64>) -> bool {
    exists|answer: Result<u64, IoFailure>|
        #[trigger] call_ensures(S::byte_len, (&source,), answer) && len == match answer {
            Ok(len) => Some(len),
            Err(_) => None,
        }
}

/// Whether the source reports some length.
pub open spec fn has_len<S: Source>(source: S) -> bool {
    exists|len: u64| reports_len(source, Some(len))
}

/// Whether the length of source `first` is the first that cannot be had, and
/// `failure` says why.
pub open spec fn fails_first<S: Source>(
    sources: Seq<(Seq<char>, S)>,
    failure: IoFailure,
    first: int,
) -> bool {
    &&& 0 <= first < sources.len()
    &&& call_ensures(S::byte_len, (&sources[first].1,), Err(failure))
    &&& forall|i: int|
        0 <= i < first ==> has_len((#[trigger] sources[i]).1)
}

/// Whether the length of some source cannot be had, and `failure` is what the
/// first of them answers.
pub open spec fn lacks_len<S: Source>(sources: Seq<(Seq<char>, S)>, failure: IoFailure) -> bool {
    exists|first: int| fails_first(sources, failure, first)
}

/// Whether `stepper` walks the given sources.
pub open spec fn walks<S: Source>(stepper: Stepper<S>, sources: Seq<(Seq<char>, S)>) -> bool {
    forall|i: int| 0 <= i < sources.len() ==> #[trigger] stepper.source(i) == sources[i].1
}

/// The sum of the lengths, held at the largest; an unknown length counts as
/// nothing.
pub open spec fn total_len(lens: Seq<Option<u64>>) -> int
    decreases lens.len(),
{
    if lens.len() == 0 {
        0
    } else {
        offset_after(
            total_len(lens.drop_last()),
            match lens.last() {
                Some(len) => len as int,
                None => 0,
            },
        )
    }
}

/// Whether `total` is the sum of lengths that the sources report, as far as a
/// filter lets them take part.
pub open spec fn totals<S: Source>(
    sources: Seq<(Seq<char>, S)>,
    filter: Seq<PredicateView>,
    total: u64,
) -> bool {
    exists|lens: Seq<Option<u64>>|
        {
            &&& lens.len() == accepted(sources, filter).len()
            &&& forall|i: int|
                0 <= i < lens.len() ==> reports_len(
                    accepted(sources, filter)[i].1,
                    #[trigger] lens[i],
                )
            &&& total == #[trigger] total_len(lens)
        }
}

/// The cursor at the end of every source, given the sources' lengths.
pub open spec fn end_cursor(ids: Seq<Seq<char>>, lens: Seq<u64>) -> Map<Seq<char>, ByteOffset>
    decreases ids.len(),
{
    if ids.len() == 0 {
        Map::empty()
    } else {
        end_cursor(ids.drop_last(), lens.drop_last()).insert(ids.last(), ByteOffset(lens.last()))
    }
}

/// Attached sources, as mathematical values.
pub open spec fn attached<S: Source>(sources: Seq<(SourceId, Arc<S>)>) -> Seq<(Seq<char>, S)> {
    sources.map_values(|s: (SourceId, Arc<S>)| (s.0@, *s.1))
}

impl<S: Source> View for Engine<S> {
    type V = Seq<(Seq<char>, S)>;

    /// The sources with their ids, in the order in which they were added.
    closed spec fn view(&self) -> Seq<(Seq<char>, S)> {
        attached(self.sources@)
    }
}

impl<S: Source> Engine<S> {
    /// Returns a new engine with no sources.
    pub fn new() -> (engine: Self)
        ensures
            engine@ == Seq::<(Seq<char>, S)>::empty(),
    {
        let engine = Engine { sources: Vec::new() };
        assert(engine@ =~= Seq::<(Seq<char>, S)>::empty());
        engine
    }

    /// Adds a source and returns its id.
    pub fn add_source(&mut self, source: S) -> (id: SourceId)
        ensures
            final(self)@ == old(self)@.push((id@, source)),
            call_ensures(S::id, (&source,), id),
    {
        let id = source.id();
        self.sources.push((id.clone(), Arc::new(source)));
        assert(self@ =~= old(self)@.push((id@, source)));
        id
    }

    /// Constructs a [`Stepper`] over every source that `filter` lets take
    /// part, each at the position that `cursor` gives it or at its start.
    pub fn stepper(&self, filter: Filter, cursor: &Cursor) -> (stepper: Stepper<S>)
        ensures
            stepper@ == StepperView::opened(
                ids(accepted(self@, filter@)),
                filter@,
                cursor@,
                (StepperOptions {
                    batch_size: FETCH_BATCH_SIZE,
                    max_records_to_scan_per_fill: None,
                }),
            ),
            walks(stepper, accepted(self@, filter@)),
    {
        self.stepper_with(filter, cursor, StepperOptions::default())
    }

    /// Like [`Self::stepper`], with a bound on the records examined per
    /// fill, so that each step stays short.
    pub fn stepper_batched(&self, filter: Filter, cursor: &Cursor) -> (stepper: Stepper<S>)
        ensures
            stepper@ == StepperView::opened(
                ids(accepted(self@, filter@)),
                filter@,
                cursor@,
                (StepperOptions {
                    batch_size: FETCH_BATCH_SIZE,
                    max_records_to_scan_per_fill: Some(BATCHED_SCAN_LIMIT),
                }),
            ),
            walks(stepper, accepted(self@, filter@)),
    {
        self.stepper_with(
            filter,
            cursor,
            StepperOptions {
                batch_size: FETCH_BATCH_SIZE,
                max_records_to_scan_per_fill: Some(BATCHED_SCAN_LIMIT),
            },
        )
    }

    /// Like [`Self::stepper`] with the given batch size and scan budget.
    pub fn stepper_with(
        &self,
        filter: Filter,
        cursor: &Cursor,
        options: StepperOptions,
    ) -> (stepper: Stepper<S>)
        ensures
            stepper@ == StepperView::opened(
                ids(accepted(self@, filter@)),
                filter@,
                cursor@,
                options,
            ),
            walks(stepper, accepted(self@, filter@)),
    {
        let mut kept: Vec<(SourceId, Arc<S>)> = Vec::new();
        let mut i: usize = 0;
        assert(attached(kept@) =~= accepted(self@.take(0), filter@));
        while i < self.sources.len()
            invariant
                i <= self.sources@.len(),
                attached(kept@) == accepted(self@.take(i as int), filter@),
            decreases self.sources@.len() - i,
        {
            let ghost before = kept@;
            assert(self@[i as int] == (self.sources@[i as int].0@, *self.sources@[i as int].1));
            assert(self@.take(i + 1).drop_last() =~= self@.take(i as int));
            if filter.matches_source_id(&self.sources[i].0) {
                kept.push((self.sources[i].0.clone(), share(&self.sources[i].1)));
                assert(attached(kept@) =~= attached(before).push(self@[i as int]));
            }
            i = i + 1;
        }
        assert(self@.take(i as int) =~= self@);
        assert(ids(attached(kept@)) =~= kept@.map_values(|s: (SourceId, Arc<S>)| s.0@));
        let stepper = Stepper::with_options(kept, filter, cursor, options);
        assert forall|k: int| 0 <= k < kept@.len() implies #[trigger] stepper.source(k) == attached(
            kept@,
        )[k].1 by {}
        stepper
    }

    /// Sum of the byte lengths of every source that `filter` lets take part,
    /// used as the denominator of a progress bar over a full pass.  A source
    /// whose length cannot be had counts as nothing.
    pub fn filtered_total_bytes(&self, filter: &Filter) -> (total: ByteLen)
        ensures
            totals(self@, filter@, total.0),
    {
        let mut total = ByteLen::zero();
        let mut i: usize = 0;
        let ghost mut lens: Seq<Option<u64>> = Seq::empty();
        while i < self.sources.len()
            invariant
                i <= self.sources@.len(),
                lens.len() == accepted(self@.take(i as int), filter@).len(),
                forall|k: int|
                    0 <= k < lens.len() ==> reports_len(
                        accepted(self@.take(i as int), filter@)[k].1,
                        #[trigger] lens[k],
                    ),
                total.0 == total_len(lens),
            decreases self.sources@.len() - i,
        {
            assert(self@[i as int] == (self.sources@[i as int].0@, *self.sources@[i as int].1));
            assert(self@.take(i + 1).drop_last() =~= self@.take(i as int));
            if filter.matches_source_id(&self.sources[i].0) {
                let answer = self.sources[i].1.byte_len();
                let len: Option<u64> = match answer {
                    Ok(len) => Some(len),
                    Err(_) => None,
                };
                total = total.plus(
                    ByteLen(
                        match len {
                            Some(len) => len,
                            None => 0,
                        },
                    ),
                );
                proof {
                    let before = lens;
                    assert(reports_len(self@[i as int].1, len));
                    lens = lens.push(len);
                    assert(lens.drop_last() =~= before);
                    assert forall|k: int| 0 <= k < lens.len() implies reports_len(
                        accepted(self@.take(i + 1), filter@)[k].1,
                        #[trigger] lens[k],
                    ) by {
                        if k < before.len() {
                            assert(lens[k] == before[k]);
                        }
                    }
                }
            }
            i = i + 1;
        }
        assert(self@.take(i as int) =~= self@);
        total
    }

    /// Returns a cursor at the end of every source, whatever a filter would
    /// say of it, so that the cursor survives filter changes.  Fails as the
    /// first source whose length cannot be had does.
    pub fn cursor_at_end(&self) -> (cursor: Result<Cursor, IoFailure>)
        ensures
            match cursor {
                Ok(cursor) => exists|lens: Seq<u64>|
                    {
                        &&& lens.len() == self@.len()
                        &&& forall|i: int|
                            0 <= i < lens.len() ==> reports_len(
                                self@[i].1,
                                Some(#[trigger] lens[i]),
                            )
                        &&& cursor@ == #[trigger] end_cursor(ids(self@), lens)
                    },
                Err(failure) => lacks_len(self@, failure),
            },
    {
        let mut cursor = Cursor::new();
        let mut i: usize = 0;
        let ghost mut lens: Seq<u64> = Seq::empty();
        let ghost all = ids(self@);
        while i < self.sources.len()
            invariant
                i <= self.sources@.len(),
                lens.len() == i,
                all == ids(self@),
                forall|k: int|
                    0 <= k < lens.len() ==> reports_len(self@[k].1, Some(#[trigger] lens[k])),
                cursor@ == end_cursor(all.take(i as int), lens),
            decreases self.sources@.len() - i,
        {
            assert(self@[i as int] == (self.sources@[i as int].0@, *self.sources@[i as int].1));
            assert(all.take(i + 1).drop_last() =~= all.take(i as int));
            let answer = self.sources[i].1.byte_len();
            assert(call_ensures(S::byte_len, (&self@[i as int].1,), answer));
            let len: u64 = match answer {
                Ok(len) => len,
                Err(failure) => {
                    assert forall|k: int| 0 <= k < i implies has_len(
                        (#[trigger] self@[k]).1,
                    ) by {
                        assert(reports_len(self@[k].1, Some(lens[k])));
                    }
                    assert(fails_first(self@, failure, i as int));
                    assert(lacks_len(self@, failure));
                    return Err(failure);
                },
            };
            cursor.set(self.sources[i].0.clone(), ByteOffset(len));
            proof {
                let before = lens;
                assert(reports_len(self@[i as int].1, Some(len)));
                lens = lens.push(len);
                assert(lens.drop_last() =~= before);
                assert forall|k: int| 0 <= k < lens.len() implies reports_len(
                    self@[k].1,
                    Some(#[trigger] lens[k]),
                ) by {
                    if k < before.len() {
                        assert(lens[k] == before[k]);
                    }
                }
            }
            i = i + 1;
        }
        assert(all.take(i as int) =~= all);
        Ok(cursor)
    }
}

impl<S: Source> Default for Engine<S> {
    fn default() -> (engine: Self)
        ensures
            engine@ == Seq::<(Seq<char>, S)>::empty(),
    {
        Engine::new()
    }
}

/// The sources that a filter's walk goes over are those of the engine that
/// pass it, each in its turn.
pub proof fn law_walks_go_over_the_accepted_sources<S>(
    sources: Seq<(Seq<char>, S)>,
    filter: Seq<PredicateView>,
)
    ensures
        accepted(sources, filter).len() <= sources.len(),
        forall|i: int|
            0 <= i < sources.len() && accepts_source(filter, (#[trigger] sources[i]).0)
                ==> accepted(sources, filter).contains(sources[i]),
        forall|k: int|
            0 <= k < accepted(sources, filter).len() ==> accepts_source(
                filter,
                (#[trigger] accepted(sources, filter)[k]).0,
            ) && sources.contains(accepted(sources, filter)[k]),
        (forall|i: int| 0 <= i < sources.len() ==> accepts_source(filter, (#[trigger] sources[i]).0))
            ==> accepted(sources, filter) == sources,
    decreases sources.len(),
{
    if sources.len() > 0 {
        let shorter = sources.drop_last();
        let last = sources.last();
        law_walks_go_over_the_accepted_sources(shorter, filter);
        let rest = accepted(shorter, filter);
        let all = accepted(sources, filter);
        assert(sources[sources.len() - 1] == last);
        assert forall|s: (Seq<char>, S)| rest.contains(s) implies all.contains(s) by {
            let k = choose|k: int| 0 <= k < rest.len() && rest[k] == s;
            assert(all[k] == s);
        }
        assert forall|s: (Seq<char>, S)| shorter.contains(s) implies sources.contains(s) by {
            let k = choose|k: int| 0 <= k < shorter.len() && shorter[k] == s;
            assert(sources[k] == s);
        }
        assert forall|i: int|
            0 <= i < sources.len() && accepts_source(
                filter,
                (#[trigger] sources[i]).0,
            ) implies all.contains(sources[i]) by {
            if i < shorter.len() {
                assert(shorter[i] == sources[i]);
            } else {
                assert(all[rest.len() as int] == sources[i]);
            }
        }
        assert forall|k: int| 0 <= k < all.len() implies accepts_source(
            filter,
            (#[trigger] all[k]).0,
        ) && sources.contains(all[k]) by {
            if k < rest.len() {
                assert(all[k] == rest[k]);
                assert(shorter.contains(rest[k]));
            }
        }
        if forall|i: int|
            0 <= i < sources.len() ==> accepts_source(filter, (#[trigger] sources[i]).0) {
            assert forall|i: int| 0 <= i < shorter.len() implies accepts_source(
                filter,
                (#[trigger] shorter[i]).0,
            ) by {
                assert(accepts_source(filter, sources[i].0));
            }
            assert(all =~= sources);
        }
    }
}

/// The total length is the sum of the lengths that are told, up to the largest
/// that can be held; one that is not told counts for nothing.
pub proof fn law_total_is_the_sum_of_the_lengths(lens: Seq<Option<u64>>, len: u64)
    ensures
        total_len(Seq::empty()) == 0,
        total_len(lens.push(None)) == total_len(lens),
        total_len(lens.push(Some(len))) == if total_len(lens) + len <= u64::MAX {
            total_len(lens) + len
        } else {
            u64::MAX as int
        },
{
    assert(lens.push(None).drop_last() =~= lens);
    assert(lens.push(Some(len)).drop_last() =~= lens);
    lemma_total_fits(lens);
}

proof fn lemma_total_fits(lens: Seq<Option<u64>>)
    ensures
        0 <= total_len(lens) <= u64::MAX,
    decreases lens.len(),
{
    if lens.len() > 0 {
        lemma_total_fits(lens.drop_last());
    }
}

/// The cursor at the end of every source has each at its length.
pub proof fn law_end_cursor_has_every_length(ids: Seq<Seq<char>>, lens: Seq<u64>, i: int)
    requires
        ids.len() == lens.len(),
        0 <= i < ids.len(),
        forall|j: int, k: int| 0 <= j < k < ids.len() ==> #[trigger] ids[j] != #[trigger] ids[k],
    ensures
        end_cursor(ids, lens).dom().contains(ids[i]),
        end_cursor(ids, lens)[ids[i]].0 == lens[i],
    decreases ids.len(),
{
    let n = ids.len() - 1;
    if i < n {
        let (a, b) = (ids.drop_last(), lens.drop_last());
        assert forall|j: int, k: int| 0 <= j < k < a.len() implies #[trigger] a[j]
            != #[trigger] a[k] by {
            assert(ids[j] != ids[k]);
        }
        law_end_cursor_has_every_length(a, b, i);
        assert(a[i] == ids[i] && ids[i] != ids[n]);
    }
}

/// A further source is walked behind the others where it passes the filter, and
/// not at all where it does not.
pub proof fn law_further_sources_come_behind<S>(
    sources: Seq<(Seq<char>, S)>,
    source: (Seq<char>, S),
    filter: Seq<PredicateView>,
)
    ensures
        accepts_source(filter, source.0) ==> accepted(sources.push(source), filter) == accepted(
            sources,
            filter,
        ).push(source),
        !accepts_source(filter, source.0) ==> accepted(sources.push(source), filter) == accepted(
            sources,
            filter,
        ),
{
    assert(sources.push(source).drop_last() =~= sources);
}

} // verus!
