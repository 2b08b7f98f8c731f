//! Merge stepper: forward and backward k-way merge over the engine's sources
//! with per-source lookahead and lookbehind.
//!
//! The stepper fetches lazily and caches a bounded window of records in each
//! direction, so that small moves need no fresh I/O.

use crate::engine::window::{
    share, walked_by, Answer, MergeRecord, MergeRecordView, RecordView, SourceWindow, WindowView,
    FETCH_BATCH_SIZE,
};
use crate::event::Timestamp;
use crate::filter::{Filter, PredicateView};
use crate::position::{offset_after, offsets_of, ByteLen, ByteOffset, Cursor, SourceId};
use crate::source::{Direction, Source};
use std::sync::Arc;
use vstd::prelude::*;

verus! {

/// Whether head `a` of source `i` is emitted before head `b` of source `j`.
///
/// Errors come before events.  Forward, the earlier event comes first and
/// the lower source index breaks ties; backward, the later event comes first
/// and the higher index does, so that a walk back retraces the walk forward.
pub open spec fn beats(dir: Direction, a: RecordView, i: int, b: RecordView, j: int) -> bool {
    match (a.time(), b.time()) {
        (None, Some(_)) => true,
        (Some(_), None) => false,
        (None, None) => match dir {
            Direction::Forward => i < j,
            Direction::Backward => i > j,
        },
        (Some(s), Some(t)) => match dir {
            Direction::Forward => s.earlier(t) || (s == t && i < j),
            Direction::Backward => t.earlier(s) || (s == t && i > j),
        },
    }
}

/// The next record of every source in a direction, where one is known.
pub open spec fn heads(windows: Seq<WindowView>, dir: Direction) -> Seq<Option<RecordView>> {
    Seq::new(
        windows.len(),
        |i: int|
            if windows[i].buf(dir).len() > 0 {
                Some(windows[i].buf(dir)[0])
            } else {
                None
            },
    )
}

/// Whether the head of source `i` is the one to emit next.
pub open spec fn is_next(heads: Seq<Option<RecordView>>, dir: Direction, i: int) -> bool {
    &&& 0 <= i < heads.len()
    &&& heads[i] is Some
    &&& forall|j: int|
        0 <= j < heads.len() && j != i && (#[trigger] heads[j]) is Some ==> beats(
            dir,
            heads[i]->Some_0,
            i,
            heads[j]->Some_0,
            j,
        )
}

/// The source whose head is to be emitted next.
pub open spec fn next_source(heads: Seq<Option<RecordView>>, dir: Direction) -> Option<int> {
    if exists|i: int| is_next(heads, dir, i) {
        Some(choose|i: int| is_next(heads, dir, i))
    } else {
        None
    }
}

/// Exactly one head comes before all others, where there is a head at all.
pub proof fn lemma_next_source(heads: Seq<Option<RecordView>>, dir: Direction)
    ensures
        forall|i: int| is_next(heads, dir, i) ==> next_source(heads, dir) == Some(i),
        next_source(heads, dir) matches Some(i) ==> is_next(heads, dir, i),
        next_source(heads, dir) is None <==> forall|i: int|
            0 <= i < heads.len() ==> (#[trigger] heads[i]) is None,
{
    assert forall|i: int| is_next(heads, dir, i) implies next_source(heads, dir) == Some(i) by {
        let k = choose|k: int| is_next(heads, dir, k);
        if k != i {
            assert(beats(dir, heads[k]->Some_0, k, heads[i]->Some_0, i));
            assert(beats(dir, heads[i]->Some_0, i, heads[k]->Some_0, k));
        }
    }
    if exists|i: int| 0 <= i < heads.len() && (#[trigger] heads[i]) is Some {
        lemma_some_head_is_next(heads, dir, heads.len() as int);
        assert(heads.take(heads.len() as int) =~= heads);
    }
}

proof fn lemma_some_head_is_next(heads: Seq<Option<RecordView>>, dir: Direction, n: int)
    requires
        0 <= n <= heads.len(),
        exists|i: int| 0 <= i < n && (#[trigger] heads[i]) is Some,
    ensures
        exists|i: int| is_next(heads.take(n), dir, i),
    decreases n,
{
    let shorter = heads.take(n - 1);
    let longer = heads.take(n);
    let last = n - 1;
    assert(forall|j: int| 0 <= j < shorter.len() ==> shorter[j] == longer[j]);
    if exists|i: int| 0 <= i < n - 1 && (#[trigger] heads[i]) is Some {
        lemma_some_head_is_next(heads, dir, n - 1);
        let best = choose|i: int| is_next(shorter, dir, i);
        if longer[last] is Some && beats(
            dir,
            longer[last]->Some_0,
            last,
            longer[best]->Some_0,
            best,
        ) {
            assert forall|j: int|
                0 <= j < longer.len() && j != last && (#[trigger] longer[j]) is Some implies beats(
                dir,
                longer[last]->Some_0,
                last,
                longer[j]->Some_0,
                j,
            ) by {
                if j != best {
                    assert(shorter[j] is Some);
                }
            }
            assert(is_next(longer, dir, last));
        } else {
            assert(is_next(longer, dir, best));
        }
    } else {
        assert(heads[last] is Some);
        assert(is_next(longer, dir, last));
    }
}

/// Whether the next record of every source is known, or known not to exist.
pub open spec fn all_ready(windows: Seq<WindowView>, dir: Direction) -> bool {
    forall|i: int| 0 <= i < windows.len() ==> (#[trigger] windows[i]).ready(dir)
}

/// The window after a run of fills: an answer of the source for each fill
/// that asked it, nothing for one that found the start of the source.
pub open spec fn refilled(
    window: WindowView,
    dir: Direction,
    answers: Seq<Option<Answer>>,
) -> WindowView
    decreases answers.len(),
{
    if answers.len() == 0 {
        window
    } else {
        let before = refilled(window, dir, answers.drop_last());
        match answers.last() {
            Some(answer) => before.absorbed(dir, answer),
            None => before.with_eof(dir, true),
        }
    }
}

/// The bytes walked in a run of fills.
pub open spec fn walked_in(answers: Seq<Option<Answer>>) -> int
    decreases answers.len(),
{
    if answers.len() == 0 {
        0
    } else {
        walked_in(answers.drop_last()) + match answers.last() {
            Some(answer) => walked_by(answer) as int,
            None => 0,
        }
    }
}

/// The bytes walked in the fills of all sources.
pub open spec fn walked_in_all(fills: Seq<Seq<Option<Answer>>>) -> int
    decreases fills.len(),
{
    if fills.len() == 0 {
        0
    } else {
        walked_in_all(fills.drop_last()) + walked_in(fills.last())
    }
}

proof fn lemma_walked_in_all_update(
    fills: Seq<Seq<Option<Answer>>>,
    i: int,
    answer: Option<Answer>,
)
    requires
        0 <= i < fills.len(),
    ensures
        walked_in_all(fills.update(i, fills[i].push(answer))) == walked_in_all(fills) + match answer {
            Some(answer) => walked_by(answer) as int,
            None => 0,
        },
        walked_in_all(fills) >= 0,
    decreases fills.len(),
{
    let longer = fills[i].push(answer);
    let updated = fills.update(i, longer);
    assert(longer.drop_last() =~= fills[i]);
    if i == fills.len() - 1 {
        assert(updated.drop_last() =~= fills.drop_last());
        lemma_walked_in_all_nonnegative(fills);
    } else {
        lemma_walked_in_all_update(fills.drop_last(), i, answer);
        assert(updated.drop_last() =~= fills.drop_last().update(i, longer));
        lemma_walked_in_all_nonnegative(fills);
    }
}

proof fn lemma_walked_in_nonnegative(answers: Seq<Option<Answer>>)
    ensures
        walked_in(answers) >= 0,
    decreases answers.len(),
{
    if answers.len() > 0 {
        lemma_walked_in_nonnegative(answers.drop_last());
    }
}

proof fn lemma_walked_in_all_nonnegative(fills: Seq<Seq<Option<Answer>>>)
    ensures
        walked_in_all(fills) >= 0,
    decreases fills.len(),
{
    if fills.len() > 0 {
        lemma_walked_in_all_nonnegative(fills.drop_last());
        lemma_walked_in_nonnegative(fills.last());
    }
}

pub(crate) proof fn lemma_walked_in_all_empty(fills: Seq<Seq<Option<Answer>>>)
    requires
        forall|i: int| 0 <= i < fills.len() ==> (#[trigger] fills[i]).len() == 0,
    ensures
        walked_in_all(fills) == 0,
    decreases fills.len(),
{
    if fills.len() > 0 {
        lemma_walked_in_all_empty(fills.drop_last());
    }
}

/// Whether the next record of some source became known in round `r`.
pub open spec fn settled_in(
    after: Seq<WindowView>,
    dir: Direction,
    fills: Seq<Seq<Option<Answer>>>,
    r: int,
) -> bool {
    exists|i: int| 0 <= i < after.len() && (#[trigger] fills[i]).len() == r && after[i].ready(dir)
}

/// How the sources take turns: in every round each source whose next record
/// is unknown is filled once, and there is a further round as long as one of
/// them became known.
pub open spec fn in_rounds(
    before: Seq<WindowView>,
    after: Seq<WindowView>,
    dir: Direction,
    fills: Seq<Seq<Option<Answer>>>,
    rounds: int,
) -> bool {
    &&& rounds >= 0
    &&& forall|i: int|
        0 <= i < before.len() ==> {
            &&& (#[trigger] before[i]).ready(dir) ==> fills[i].len() == 0
            &&& !before[i].ready(dir) ==> 1 <= fills[i].len() <= rounds
            &&& !after[i].ready(dir) ==> fills[i].len() == rounds
        }
    &&& forall|r: int| 1 <= r < rounds ==> #[trigger] settled_in(after, dir, fills, r)
    &&& !all_ready(after, dir) ==> forall|i: int|
        0 <= i < before.len() && (#[trigger] fills[i]).len() == rounds ==> !after[i].ready(dir)
}

/// What a [`Stepper`] holds.
#[verifier::ext_equal]
pub struct StepperView {
    pub windows: Seq<WindowView>,
    pub filter: Seq<PredicateView>,
    pub batch_size: usize,
    pub max_records: Option<usize>,
    pub walked: u64,
}

impl StepperView {
    /// The stepper once the sources have been filled.
    pub open spec fn filled(self, dir: Direction, fills: Seq<Seq<Option<Answer>>>) -> StepperView {
        StepperView {
            windows: Seq::new(
                self.windows.len(),
                |i: int| refilled(self.windows[i], dir, fills[i]),
            ),
            walked: offset_after(self.walked as int, walked_in_all(fills)) as u64,
            ..self
        }
    }

    /// The source whose record a step emits, once the sources have been
    /// filled: none while the next record of a source is unknown, since that
    /// record might come first.
    pub open spec fn chosen(self, dir: Direction) -> Option<int> {
        if all_ready(self.windows, dir) {
            next_source(heads(self.windows, dir), dir)
        } else {
            None
        }
    }

    /// The stepper after a step, once the sources have been filled.
    pub open spec fn emitted(self, dir: Direction) -> StepperView {
        match self.chosen(dir) {
            Some(i) => StepperView {
                windows: self.windows.update(i, self.windows[i].popped(dir)),
                ..self
            },
            None => self,
        }
    }

    /// The record that a step emits, once the sources have been filled.
    pub open spec fn record(self, dir: Direction) -> Option<MergeRecordView> {
        match self.chosen(dir) {
            Some(i) => Some(
                MergeRecordView {
                    source: self.windows[i].id,
                    record: self.windows[i].buf(dir)[0],
                },
            ),
            None => None,
        }
    }

}

/// Whether the sequences agree from index `from` on.
spec fn agree_from<T>(a: Seq<T>, b: Seq<T>, from: int) -> bool {
    forall|j: int| from <= j < a.len() ==> #[trigger] a[j] == b[j]
}

/// The number of sources whose next record is unknown.
spec fn unknown_count(windows: Seq<WindowView>, dir: Direction) -> nat
    decreases windows.len(),
{
    if windows.len() == 0 {
        0
    } else {
        unknown_count(windows.drop_last(), dir) + if windows.last().ready(dir) {
            0nat
        } else {
            1nat
        }
    }
}

proof fn lemma_unknown_count(before: Seq<WindowView>, after: Seq<WindowView>, dir: Direction)
    requires
        before.len() == after.len(),
        forall|i: int|
            0 <= i < before.len() && (#[trigger] before[i]).ready(dir) ==> after[i].ready(dir),
    ensures
        unknown_count(after, dir) <= unknown_count(before, dir),
        (exists|i: int|
            0 <= i < before.len() && !(#[trigger] before[i]).ready(dir) && after[i].ready(dir))
            ==> unknown_count(after, dir) < unknown_count(before, dir),
    decreases before.len(),
{
    if before.len() > 0 {
        let b = before.drop_last();
        let a = after.drop_last();
        assert(forall|i: int| 0 <= i < b.len() ==> b[i] == before[i] && a[i] == after[i]);
        lemma_unknown_count(b, a, dir);
        if exists|i: int|
            0 <= i < before.len() && !(#[trigger] before[i]).ready(dir) && after[i].ready(dir) {
            let i = choose|i: int|
                0 <= i < before.len() && !(#[trigger] before[i]).ready(dir) && after[i].ready(dir);
            if i < b.len() {
                assert(!b[i].ready(dir) && a[i].ready(dir));
            }
        }
    }
}

/// Optional knobs for [`Stepper`] construction.
///
/// The default suits common navigation: batches of [`FETCH_BATCH_SIZE`] and
/// no bound on the records examined per fill.
#[derive(Debug, Clone, Copy)]
pub struct StepperOptions {
    /// matching records asked for per fill
    pub batch_size: usize,
    /// when given, each fill examines at most this many records, matching or
    /// not, so that a step under a selective filter stays short
    pub max_records_to_scan_per_fill: Option<usize>,
}

impl Default for StepperOptions {
    fn default() -> (options: Self)
        ensures
            options.batch_size == FETCH_BATCH_SIZE,
            options.max_records_to_scan_per_fill is None,
    {
        StepperOptions { batch_size: FETCH_BATCH_SIZE, max_records_to_scan_per_fill: None }
    }
}

/// Forward and backward k-way merge over a fixed set of sources.
///
/// Each step returns the next record in time order across the sources,
/// asking them only as needed.
pub struct Stepper<S: Source> {
    sources: Vec<SourceWindow<S>>,
    filter: Filter,
    batch_size: usize,
    max_records_to_scan_per_fill: Option<usize>,
    walked_bytes: ByteLen,
}

/// The views of a list of windows.
pub closed spec fn window_views<S: Source>(windows: Seq<SourceWindow<S>>) -> Seq<WindowView> {
    windows.map_values(|w: SourceWindow<S>| w@)
}

impl<S: Source> View for Stepper<S> {
    type V = StepperView;

    closed spec fn view(&self) -> StepperView {
        StepperView {
            windows: window_views(self.sources@),
            filter: self.filter@,
            batch_size: self.batch_size,
            max_records: self.max_records_to_scan_per_fill,
            walked: self.walked_bytes.0,
        }
    }
}

/// Picks the source whose head should be emitted next.
fn pick<S: Source>(sources: &Vec<SourceWindow<S>>, direction: Direction) -> (best: Option<usize>)
    ensures
        match best {
            Some(i) => next_source(heads(window_views(sources@), direction), direction) == Some(
                i as int,
            ),
            None => next_source(heads(window_views(sources@), direction), direction) is None,
        },
{
    let ghost all = heads(window_views(sources@), direction);
    let mut best: Option<usize> = None;
    let mut best_is_err: bool = false;
    let mut best_time: Option<Timestamp> = None;
    let mut i: usize = 0;
    while i < sources.len()
        invariant
            i <= sources@.len(),
            all == heads(window_views(sources@), direction),
            match best {
                None => {
                    &&& forall|j: int| 0 <= j < i ==> (#[trigger] all[j]) is None
                    &&& !best_is_err
                    &&& best_time is None
                },
                Some(b) => {
                    &&& b < i
                    &&& is_next(all.take(i as int), direction, b as int)
                    &&& best_is_err == (all[b as int]->Some_0.time() is None)
                    &&& !best_is_err ==> best_time == all[b as int]->Some_0.time()
                },
            },
        decreases sources@.len() - i,
    {
        let ghost shorter = all.take(i as int);
        let ghost longer = all.take(i + 1);
        assert(forall|j: int| 0 <= j < i ==> shorter[j] == longer[j]);
        assert(all[i as int] == longer[i as int]);
        assert(window_views(sources@)[i as int] == sources@[i as int]@);
        let ghost previous = best;
        let window = &sources[i];
        let head = match direction {
            Direction::Forward => if window.forward_buf.len() > 0 {
                Some(&window.forward_buf[0])
            } else {
                None
            },
            Direction::Backward => if window.backward_buf.len() > 0 {
                Some(&window.backward_buf[0])
            } else {
                None
            },
        };
        if let Some(head) = head {
            assert(all[i as int] == Some(head@));
            match &head.event {
                Err(_) => {
                    if !best_is_err || direction == Direction::Backward {
                        best = Some(i);
                        best_is_err = true;
                    }
                },
                Ok(event) => {
                    if !best_is_err {
                        let t = event.time;
                        let take = match best_time {
                            None => true,
                            Some(bt) => match direction {
                                Direction::Forward => t.is_before(bt),
                                Direction::Backward => !t.is_before(bt),
                            },
                        };
                        if take {
                            best = Some(i);
                            best_time = Some(t);
                        }
                    }
                },
            }
            proof {
                let b = best->Some_0 as int;
                assert(is_next(longer, direction, b)) by {
                    assert forall|j: int|
                        0 <= j < longer.len() && j != b && (#[trigger] longer[j]) is Some implies beats(
                        direction,
                        longer[b]->Some_0,
                        b,
                        longer[j]->Some_0,
                        j,
                    ) by {
                        if j < i {
                            assert(all[j] is Some);
                            assert(shorter[j] is Some);
                        }
                    }
                }
            }
        } else {
            proof {
                assert(all[i as int] is None);
                if best is Some {
                    assert(is_next(longer, direction, best->Some_0 as int));
                }
            }
        }
        i = i + 1;
    }
    proof {
        assert(all.take(i as int) =~= all);
        lemma_next_source(all, direction);
    }
    best
}

/// The record of a step, as a mathematical value.
pub open spec fn record_view(record: Option<MergeRecord>) -> Option<MergeRecordView> {
    match record {
        Some(record) => Some(record@),
        None => None,
    }
}

impl<S: Source> Stepper<S> {
    /// Whether `answer` is an answer that source `i` gives when it is asked
    /// for records from `position` with this stepper's filter and limits.
    pub closed spec fn asks(
        self,
        i: int,
        position: u64,
        dir: Direction,
        answer: Answer,
    ) -> bool {
        call_ensures(
            S::query_bounded,
            (
                &*self.sources@[i].source,
                ByteOffset(position),
                dir,
                self.batch_size,
                self.max_records_to_scan_per_fill,
                &self.filter,
            ),
            answer,
        )
    }

    /// Whether `fills` are runs of fills of this stepper's sources: each
    /// fill meets a window whose next record is unknown, and its answer is
    /// the source's own, asked from the window's position.
    pub open spec fn answered(self, dir: Direction, fills: Seq<Seq<Option<Answer>>>) -> bool {
        &&& fills.len() == self@.windows.len()
        &&& forall|i: int, k: int|
            0 <= i < fills.len() && 0 <= k < fills[i].len() ==> #[trigger] self.answered_at(
                dir,
                fills[i],
                i,
                k,
            )
    }

    /// Whether fill `k` of source `i` is answered as [`Self::answered`] says.
    pub open spec fn answered_at(
        self,
        dir: Direction,
        answers: Seq<Option<Answer>>,
        i: int,
        k: int,
    ) -> bool {
        let window = refilled(self@.windows[i], dir, answers.take(k));
        &&& !window.ready(dir)
        &&& answers[k] is Some <==> window.must_query(dir)
        &&& answers[k] matches Some(answer) ==> self.asks(i, window.position, dir, answer)
    }

    /// Whether a step from this stepper, with these fills in this many
    /// rounds, emits `record` and leaves `after`.
    pub open spec fn steps_to(
        self,
        dir: Direction,
        fills: Seq<Seq<Option<Answer>>>,
        rounds: int,
        after: StepperView,
        record: Option<MergeRecordView>,
    ) -> bool {
        let filled = self@.filled(dir, fills);
        &&& self.answered(dir, fills)
        &&& in_rounds(self@.windows, filled.windows, dir, fills, rounds)
        &&& after == filled.emitted(dir)
        &&& record == filled.record(dir)
    }

    /// Whether `now` is this stepper after the given fills, none of whose
    /// runs is longer than `rounds`.
    closed spec fn tracks(
        self,
        now: Stepper<S>,
        dir: Direction,
        fills: Seq<Seq<Option<Answer>>>,
        rounds: int,
    ) -> bool {
        &&& now.filter == self.filter
        &&& now.batch_size == self.batch_size
        &&& now.max_records_to_scan_per_fill == self.max_records_to_scan_per_fill
        &&& now.sources@.len() == self.sources@.len()
        &&& forall|i: int|
            0 <= i < self.sources@.len() ==> (#[trigger] now.sources@[i]).source
                == self.sources@[i].source
        &&& self.answered(dir, fills)
        &&& now@ == self@.filled(dir, fills)
        &&& rounds >= 0
        &&& forall|i: int| 0 <= i < fills.len() ==> (#[trigger] fills[i]).len() <= rounds
        &&& forall|i: int|
            0 <= i < fills.len() && self@.windows[i].ready(dir) ==> (#[trigger] fills[i]).len() == 0
    }

    proof fn lemma_tracks_fill(
        self,
        before: Stepper<S>,
        after: Stepper<S>,
        dir: Direction,
        fills: Seq<Seq<Option<Answer>>>,
        rounds: int,
        i: int,
        answer: Option<Answer>,
    )
        requires
            self.tracks(before, dir, fills, rounds),
            0 <= i < self.sources@.len(),
            fills[i].len() < rounds,
            !before@.windows[i].ready(dir),
            answer is Some <==> before@.windows[i].must_query(dir),
            answer matches Some(a) ==> before.asks(i, before@.windows[i].position, dir, a),
            after.filter == before.filter,
            after.batch_size == before.batch_size,
            after.max_records_to_scan_per_fill == before.max_records_to_scan_per_fill,
            after.sources@.len() == before.sources@.len(),
            forall|j: int|
                0 <= j < before.sources@.len() ==> (#[trigger] after.sources@[j]).source
                    == before.sources@[j].source,
            forall|j: int|
                0 <= j < before.sources@.len() && j != i ==> #[trigger] after@.windows[j]
                    == before@.windows[j],
            after@.windows[i] == match answer {
                Some(a) => before@.windows[i].absorbed(dir, a),
                None => before@.windows[i].with_eof(dir, true),
            },
            after@.walked == offset_after(
                before@.walked as int,
                match answer {
                    Some(a) => walked_by(a) as int,
                    None => 0,
                },
            ),
        ensures
            self.tracks(after, dir, fills.update(i, fills[i].push(answer)), rounds),
    {
        let longer = fills[i].push(answer);
        let updated = fills.update(i, longer);
        assert(longer.drop_last() =~= fills[i]);
        lemma_walked_in_all_update(fills, i, answer);
        assert forall|a: int, k: int|
            0 <= a < updated.len() && 0 <= k < updated[a].len() implies #[trigger] self.answered_at(
            dir,
            updated[a],
            a,
            k,
        ) by {
            if a != i {
                assert(self.answered_at(dir, fills[a], a, k));
            } else if k < fills[i].len() {
                assert(self.answered_at(dir, fills[i], i, k));
                assert(longer.take(k) =~= fills[i].take(k));
            } else {
                assert(longer.take(k) =~= fills[i]);
            }
        }
        let filled = self@.filled(dir, updated);
        assert forall|j: int| 0 <= j < self.sources@.len() implies after@.windows[j]
            == filled.windows[j] by {
            if j != i {
                assert(after@.windows[j] == before@.windows[j]);
            }
        }
        assert(after@.windows =~= filled.windows);
    }

    /// Fills, in rounds, every source whose next record in `dir` is unknown.
    #[verifier::rlimit(40)]
    fn fill_all(&mut self, dir: Direction)
        ensures
            exists|fills: Seq<Seq<Option<Answer>>>, rounds: int|
                {
                    &&& old(self).answered(dir, fills)
                    &&& #[trigger] in_rounds(
                        old(self)@.windows,
                        old(self)@.filled(dir, fills).windows,
                        dir,
                        fills,
                        rounds,
                    )
                    &&& final(self)@ == old(self)@.filled(dir, fills)
                },
            final(self).same_sources(*old(self)),
            final(self).asks_as(*old(self)),
    {
        let ghost start = *self;
        let ghost n = self.sources@.len();
        let ghost mut fills: Seq<Seq<Option<Answer>>> = Seq::new(n, |i: int| Seq::empty());
        let ghost mut rounds: int = 0;
        proof {
            lemma_walked_in_all_empty(fills);
            assert(start@.filled(dir, fills).windows =~= start@.windows);
        }
        loop
            invariant_except_break
                forall|i: int|
                    0 <= i < n && !(#[trigger] self@.windows[i]).ready(dir) ==> fills[i].len()
                        == rounds,
                forall|r: int|
                    1 <= r <= rounds ==> #[trigger] settled_in(self@.windows, dir, fills, r),
            invariant
                n == start.sources@.len(),
                start.tracks(*self, dir, fills, rounds),
            ensures
                start.tracks(*self, dir, fills, rounds),
                in_rounds(start@.windows, self@.windows, dir, fills, rounds),
            decreases unknown_count(self@.windows, dir),
        {
            let mut progressed: bool = false;
            let ghost round_start = *self;
            let ghost round_fills = fills;
            let mut i: usize = 0;
            while i < self.sources.len()
                invariant
                    n == start.sources@.len(),
                    i <= n,
                    start.tracks(round_start, dir, round_fills, rounds),
                    start.tracks(*self, dir, fills, rounds + 1),
                    forall|j: int|
                        0 <= j < n && !(#[trigger] round_start@.windows[j]).ready(dir)
                            ==> round_fills[j].len() == rounds,
                    agree_from(self@.windows, round_start@.windows, i as int),
                    agree_from(fills, round_fills, i as int),
                    forall|j: int|
                        0 <= j < i && (#[trigger] round_start@.windows[j]).ready(dir)
                            ==> self@.windows[j] == round_start@.windows[j] && fills[j]
                            == round_fills[j],
                    forall|j: int|
                        0 <= j < i && !(#[trigger] round_start@.windows[j]).ready(dir)
                            ==> fills[j].len() == rounds + 1,
                    progressed == exists|j: int|
                        0 <= j < i && !(#[trigger] round_start@.windows[j]).ready(dir)
                            && self@.windows[j].ready(dir),
                decreases n - i,
            {
                let ghost before = *self;
                let ghost before_fills = fills;
                assert(self@.windows[i as int] == self.sources@[i as int]@);
                assert(self@.windows[i as int] == round_start@.windows[i as int]);
                if !self.sources[i].ready(dir) {
                    let walked = self.sources[i].fill(
                        dir,
                        &self.filter,
                        self.batch_size,
                        self.max_records_to_scan_per_fill,
                    );
                    self.walked_bytes = self.walked_bytes.plus(walked);
                    proof {
                        let answer: Option<Answer> = if before@.windows[i as int].must_query(dir) {
                            Some(
                                choose|answer: Answer|
                                    {
                                        &&& #[trigger] call_ensures(
                                            S::query_bounded,
                                            (
                                                &*before.sources@[i as int].source,
                                                ByteOffset(before@.windows[i as int].position),
                                                dir,
                                                before.batch_size,
                                                before.max_records_to_scan_per_fill,
                                                &before.filter,
                                            ),
                                            answer,
                                        )
                                        &&& self.sources@[i as int]@
                                            == before@.windows[i as int].absorbed(dir, answer)
                                        &&& walked.0 == walked_by(answer)
                                    },
                            )
                        } else {
                            None
                        };
                        assert(self@.windows[i as int] == self.sources@[i as int]@);
                        assert forall|j: int| 0 <= j < n && j != i implies #[trigger] self@.windows[j]
                            == before@.windows[j] by {
                            assert(self.sources@[j] == before.sources@[j]);
                        }
                        start.lemma_tracks_fill(
                            before,
                            *self,
                            dir,
                            before_fills,
                            rounds + 1,
                            i as int,
                            answer,
                        );
                        fills = fills.update(i as int, fills[i as int].push(answer));
                    }
                    if self.sources[i].ready(dir) {
                        progressed = true;
                    }
                }
                assert forall|j: int| i < j < n implies #[trigger] self@.windows[j]
                    == round_start@.windows[j] by {
                    assert(before@.windows[j] == round_start@.windows[j]);
                    assert(self.sources@[j] == before.sources@[j]);
                    assert(self@.windows[j] == self.sources@[j]@);
                }
                assert(agree_from(self@.windows, round_start@.windows, i + 1));
                assert(agree_from(fills, round_fills, i + 1));
                i = i + 1;
            }
            proof {
                lemma_unknown_count(round_start@.windows, self@.windows, dir);
                assert forall|r: int| 1 <= r <= rounds implies #[trigger] settled_in(
                    self@.windows,
                    dir,
                    fills,
                    r,
                ) by {
                    assert(settled_in(round_start@.windows, dir, round_fills, r));
                    let j = choose|j: int|
                        0 <= j < n && (#[trigger] round_fills[j]).len() == r
                            && round_start@.windows[j].ready(dir);
                    assert(fills[j].len() == r && self@.windows[j].ready(dir));
                }
            }
            if !progressed {
                proof {
                    if all_ready(round_start@.windows, dir) {
                        assert forall|j: int| 0 <= j < n implies self@.windows[j]
                            == round_start@.windows[j] && #[trigger] fills[j] == round_fills[j] by {
                            assert(round_start@.windows[j].ready(dir));
                        }
                        assert(self@.windows =~= round_start@.windows);
                        assert(fills =~= round_fills);
                    } else {
                        rounds = rounds + 1;
                        assert forall|k: int|
                            0 <= k < n && !(#[trigger] self@.windows[k]).ready(
                                dir,
                            ) implies fills[k].len() == rounds by {
                            assert(!round_start@.windows[k].ready(dir));
                        }
                        assert forall|k: int|
                            0 <= k < n && (#[trigger] fills[k]).len()
                                == rounds implies !self@.windows[k].ready(dir) by {
                            assert(round_fills[k].len() <= rounds - 1);
                            assert(!round_start@.windows[k].ready(dir));
                        }
                    }
                    assert forall|k: int|
                        0 <= k < n && !(#[trigger] start@.windows[k]).ready(dir) implies 1
                        <= fills[k].len() <= rounds by {
                        assert(self@.windows[k] == refilled(start@.windows[k], dir, fills[k]));
                        if fills[k].len() == 0 {
                            assert(!self@.windows[k].ready(dir));
                        }
                    }
                }
                break;
            }
            proof {
                let j = choose|j: int|
                    0 <= j < n && !(#[trigger] round_start@.windows[j]).ready(dir)
                        && self@.windows[j].ready(dir);
                assert(fills[j].len() == rounds + 1);
                assert(settled_in(self@.windows, dir, fills, rounds + 1));
                assert forall|k: int|
                    0 <= k < n && !(#[trigger] self@.windows[k]).ready(dir) implies fills[k].len()
                    == rounds + 1 by {
                    assert(!round_start@.windows[k].ready(dir));
                }
                rounds = rounds + 1;
            }
        }
    }

    /// The source behind window `i`.
    pub closed spec fn source(self, i: int) -> S {
        *self.sources@[i].source
    }

    /// Whether this stepper asks its sources what the other asks them: what
    /// they answer to it, they answer to the other.
    pub open spec fn asks_as(self, other: Stepper<S>) -> bool {
        forall|i: int, position: u64, dir: Direction, answer: Answer|
            0 <= i < self@.windows.len() && #[trigger] self.asks(i, position, dir, answer)
                ==> other.asks(i, position, dir, answer)
    }

    /// Whether the two steppers walk the same sources.
    pub open spec fn same_sources(self, other: Stepper<S>) -> bool {
        &&& self@.windows.len() == other@.windows.len()
        &&& forall|i: int|
            0 <= i < self@.windows.len() ==> #[trigger] self.source(i) == other.source(i)
    }

    /// A stepper over the given sources, each at the position that `cursor`
    /// gives it or at its start.
    pub fn with_options(
        sources: Vec<(SourceId, Arc<S>)>,
        filter: Filter,
        cursor: &Cursor,
        options: StepperOptions,
    ) -> (stepper: Self)
        ensures
            stepper@ == StepperView::opened(
                sources@.map_values(|s: (SourceId, Arc<S>)| s.0@),
                filter@,
                cursor@,
                options,
            ),
            forall|i: int|
                0 <= i < sources@.len() ==> #[trigger] stepper.source(i) == *sources@[i].1,
    {
        let mut windows: Vec<SourceWindow<S>> = Vec::new();
        let mut i: usize = 0;
        while i < sources.len()
            invariant
                i <= sources@.len(),
                windows@.len() == i,
                forall|k: int|
                    0 <= k < i ==> (#[trigger] windows@[k])@ == WindowView::fresh(
                        sources@[k].0@,
                        position_in(cursor@, sources@[k].0@),
                    ) && windows@[k].source == sources@[k].1,
            decreases sources@.len() - i,
        {
            let position = match cursor.get(&sources[i].0) {
                Some(offset) => offset,
                None => ByteOffset::zero(),
            };
            windows.push(SourceWindow::new(share(&sources[i].1), sources[i].0.clone(), position));
            i = i + 1;
        }
        let stepper = Stepper {
            sources: windows,
            filter,
            batch_size: options.batch_size,
            max_records_to_scan_per_fill: options.max_records_to_scan_per_fill,
            walked_bytes: ByteLen::zero(),
        };
        assert(stepper@.windows =~= StepperView::opened(
            sources@.map_values(|s: (SourceId, Arc<S>)| s.0@),
            filter@,
            cursor@,
            options,
        ).windows);
        stepper
    }

    /// Total bytes walked since construction, those of rejected records
    /// among them.
    pub fn walked_bytes(&self) -> (walked: ByteLen)
        ensures
            walked.0 == self@.walked,
    {
        self.walked_bytes
    }

    /// Whether every source is known to have no record beyond those cached
    /// in `dir`.  Tells a step that found nothing because the sources are
    /// exhausted from one that ran out of its scan budget.
    pub fn is_exhausted(&self, dir: Direction) -> (yes: bool)
        ensures
            yes == self@.exhausted(dir),
    {
        let mut i: usize = 0;
        while i < self.sources.len()
            invariant
                i <= self.sources@.len(),
                forall|k: int| 0 <= k < i ==> (#[trigger] self@.windows[k]).eof(dir),
            decreases self.sources@.len() - i,
        {
            assert(self@.windows[i as int] == self.sources@[i as int]@);
            if !self.sources[i].eof(dir) {
                return false;
            }
            i = i + 1;
        }
        true
    }

    /// Returns the active filter.
    pub fn filter(&self) -> (filter: &Filter)
        ensures
            filter@ == self@.filter,
    {
        &self.filter
    }

    /// Replaces the active filter.  Cached records are dropped, since they
    /// passed the previous filter; the position of every source stays.
    pub fn set_filter(&mut self, filter: Filter)
        ensures
            final(self)@ == old(self)@.refiltered(filter@),
            final(self).same_sources(*old(self)),
    {
        self.filter = filter;
        let ghost start = *self;
        let mut i: usize = 0;
        while i < self.sources.len()
            invariant
                i <= self.sources@.len(),
                self.sources@.len() == start.sources@.len(),
                self.filter == start.filter,
                self.batch_size == start.batch_size,
                self.max_records_to_scan_per_fill == start.max_records_to_scan_per_fill,
                self.walked_bytes == start.walked_bytes,
                forall|k: int|
                    0 <= k < i ==> (#[trigger] self.sources@[k])@ == start.sources@[k]@.cleared()
                        && self.sources@[k].source == start.sources@[k].source,
                forall|k: int|
                    i <= k < self.sources@.len() ==> (#[trigger] self.sources@[k])
                        == start.sources@[k],
            decreases self.sources@.len() - i,
        {
            self.sources[i].clear_buffers();
            i = i + 1;
        }
        assert(self@.windows =~= old(self)@.refiltered(filter@).windows);
    }

    /// Returns the current position of every source.
    pub fn cursor(&self) -> (cursor: Cursor)
        ensures
            cursor@ == cursor_of(self@.windows),
    {
        let mut entries: Vec<(SourceId, ByteOffset)> = Vec::new();
        let mut i: usize = 0;
        while i < self.sources.len()
            invariant
                i <= self.sources@.len(),
                entries@.len() == i,
                offsets_of(entries@) == cursor_of(self@.windows.take(i as int)),
            decreases self.sources@.len() - i,
        {
            let ghost before = entries@;
            assert(self@.windows[i as int] == self.sources@[i as int]@);
            entries.push((self.sources[i].id.clone(), self.sources[i].position));
            i = i + 1;
            assert(entries@.drop_last() =~= before);
            assert(self@.windows.take(i as int).drop_last() =~= self@.windows.take(i - 1));
        }
        assert(self@.windows.take(i as int) =~= self@.windows);
        Cursor::with(entries)
    }

    /// Returns the next record in time order.  There is none when every
    /// source is exhausted, or when the scan budget ran out first.
    pub fn step_forward(&mut self) -> (record: Option<MergeRecord>)
        ensures
            exists|fills: Seq<Seq<Option<Answer>>>, rounds: int|
                #[trigger] old(self).steps_to(
                    Direction::Forward,
                    fills,
                    rounds,
                    final(self)@,
                    record_view(record),
                ),
            final(self).same_sources(*old(self)),
            final(self).asks_as(*old(self)),
    {
        self.step(Direction::Forward)
    }

    /// Returns the previous record in reverse time order.  There is none
    /// when every source is exhausted, or when the scan budget ran out
    /// first.
    pub fn step_backward(&mut self) -> (record: Option<MergeRecord>)
        ensures
            exists|fills: Seq<Seq<Option<Answer>>>, rounds: int|
                #[trigger] old(self).steps_to(
                    Direction::Backward,
                    fills,
                    rounds,
                    final(self)@,
                    record_view(record),
                ),
            final(self).same_sources(*old(self)),
            final(self).asks_as(*old(self)),
    {
        self.step(Direction::Backward)
    }

    /// Returns the next record in a direction.  There is none when every
    /// source is exhausted, or when the scan budget ran out first.
    pub fn step(&mut self, dir: Direction) -> (record: Option<MergeRecord>)
        ensures
            exists|fills: Seq<Seq<Option<Answer>>>, rounds: int|
                #[trigger] old(self).steps_to(
                    dir,
                    fills,
                    rounds,
                    final(self)@,
                    record_view(record),
                ),
            final(self).same_sources(*old(self)),
            final(self).asks_as(*old(self)),
    {
        let ghost start = *self;
        self.fill_all(dir);
        let ghost (fills, rounds) = choose|fills: Seq<Seq<Option<Answer>>>, rounds: int|
            {
                &&& start.answered(dir, fills)
                &&& #[trigger] in_rounds(
                    start@.windows,
                    start@.filled(dir, fills).windows,
                    dir,
                    fills,
                    rounds,
                )
                &&& self@ == start@.filled(dir, fills)
            };
        let ghost filled = self@;
        let mut i: usize = 0;
        while i < self.sources.len()
            invariant
                i <= self.sources@.len(),
                self@ == filled,
                self.same_sources(start),
                self.asks_as(start),
                filled == start@.filled(dir, fills),
                start.answered(dir, fills),
                in_rounds(start@.windows, filled.windows, dir, fills, rounds),
                start == *old(self),
                forall|k: int| 0 <= k < i ==> (#[trigger] filled.windows[k]).ready(dir),
            decreases self.sources@.len() - i,
        {
            assert(self@.windows[i as int] == self.sources@[i as int]@);
            if !self.sources[i].ready(dir) {
                assert(!all_ready(filled.windows, dir));
                assert(start.steps_to(dir, fills, rounds, self@, None));
                return None;
            }
            i = i + 1;
        }
        assert(all_ready(filled.windows, dir));
        proof {
            lemma_next_source(heads(filled.windows, dir), dir);
        }
        match pick(&self.sources, dir) {
            None => {
                assert(start.steps_to(dir, fills, rounds, self@, None));
                None
            },
            Some(idx) => {
                assert(self@.windows[idx as int] == self.sources@[idx as int]@);
                let ghost before = *self;
                let record = self.sources[idx].pop(dir);
                assert forall|k: int| 0 <= k < self@.windows.len() implies #[trigger] self.source(k)
                    == start.source(k) by {
                    assert(before.source(k) == start.source(k));
                }
                assert forall|k: int, position: u64, d: Direction, answer: Answer|
                    0 <= k < self@.windows.len() && #[trigger] self.asks(
                        k,
                        position,
                        d,
                        answer,
                    ) implies start.asks(k, position, d, answer) by {
                    assert(self.sources@[k].source == before.sources@[k].source);
                    assert(before.asks(k, position, d, answer));
                }
                assert(self@.windows =~= filled.emitted(dir).windows);
                assert(start.steps_to(dir, fills, rounds, self@, Some(record@)));
                Some(record)
            },
        }
    }
}

/// The position that a cursor gives a source.
pub open spec fn position_in(cursor: Map<Seq<char>, ByteOffset>, id: Seq<char>) -> u64 {
    if cursor.dom().contains(id) {
        cursor[id].0
    } else {
        0
    }
}

/// The positions of the windows, as a cursor.
pub open spec fn cursor_of(windows: Seq<WindowView>) -> Map<Seq<char>, ByteOffset>
    decreases windows.len(),
{
    if windows.len() == 0 {
        Map::empty()
    } else {
        cursor_of(windows.drop_last()).insert(
            windows.last().id,
            ByteOffset(windows.last().position),
        )
    }
}

impl StepperView {
    /// A stepper over the sources `ids`, at the positions of `cursor`.
    pub open spec fn opened(
        ids: Seq<Seq<char>>,
        filter: Seq<PredicateView>,
        cursor: Map<Seq<char>, ByteOffset>,
        options: StepperOptions,
    ) -> StepperView {
        StepperView {
            windows: Seq::new(
                ids.len(),
                |i: int| WindowView::fresh(ids[i], position_in(cursor, ids[i])),
            ),
            filter,
            batch_size: options.batch_size,
            max_records: options.max_records_to_scan_per_fill,
            walked: 0,
        }
    }

    /// Whether every source has its end mark in a direction.
    pub open spec fn exhausted(self, dir: Direction) -> bool {
        forall|i: int| 0 <= i < self.windows.len() ==> (#[trigger] self.windows[i]).eof(dir)
    }

    /// The stepper under another filter.
    pub open spec fn refiltered(self, filter: Seq<PredicateView>) -> StepperView {
        StepperView {
            windows: self.windows.map_values(|w: WindowView| w.cleared()),
            filter,
            ..self
        }
    }
}

/// What was walked is what the answers say was walked; an answer that failed,
/// and a start of a source that needs no asking, add nothing.
pub proof fn law_walked_is_what_the_answers_walked(
    answers: Seq<Option<Answer>>,
    batch: crate::source::QueryBatch,
    failure: crate::source::IoFailure,
    view: StepperView,
    dir: Direction,
    fills: Seq<Seq<Option<Answer>>>,
)
    ensures
        walked_in(Seq::empty()) == 0,
        walked_in(answers.push(Some(Ok(batch)))) == walked_in(answers) + batch.walked_bytes.0,
        walked_in(answers.push(Some(Err(failure)))) == walked_in(answers),
        walked_in(answers.push(None)) == walked_in(answers),
        walked_in_all(fills.push(answers)) == walked_in_all(fills) + walked_in(answers),
        view.walked + walked_in_all(fills) <= u64::MAX ==> view.filled(dir, fills).walked
            == view.walked + walked_in_all(fills),
        view.filled(dir, fills).filter == view.filter,
        view.filled(dir, fills).batch_size == view.batch_size,
        view.filled(dir, fills).max_records == view.max_records,
{
    assert(answers.push(Some(Ok(batch))).drop_last() =~= answers);
    assert(answers.push(Some(Err(failure))).drop_last() =~= answers);
    assert(answers.push(None).drop_last() =~= answers);
    assert(fills.push(answers).drop_last() =~= fills);
    lemma_walked_in_all_counts_up(fills);
}

proof fn lemma_walked_in_counts_up(answers: Seq<Option<Answer>>)
    ensures
        walked_in(answers) >= 0,
    decreases answers.len(),
{
    if answers.len() > 0 {
        lemma_walked_in_counts_up(answers.drop_last());
    }
}

proof fn lemma_walked_in_all_counts_up(fills: Seq<Seq<Option<Answer>>>)
    ensures
        walked_in_all(fills) >= 0,
    decreases fills.len(),
{
    if fills.len() > 0 {
        lemma_walked_in_counts_up(fills.last());
        lemma_walked_in_all_counts_up(fills.drop_last());
    }
}

/// A walk opens at the cursor: every source at its own offset there, one that
/// the cursor does not name at its start, with nothing fetched.
pub proof fn law_walks_open_at_the_cursor(
    ids: Seq<Seq<char>>,
    filter: Seq<PredicateView>,
    cursor: Map<Seq<char>, ByteOffset>,
    options: StepperOptions,
    i: int,
)
    requires
        0 <= i < ids.len(),
    ensures
        ({
            let view = StepperView::opened(ids, filter, cursor, options);
            &&& view.windows.len() == ids.len()
            &&& view.windows[i].id == ids[i]
            &&& cursor.dom().contains(ids[i]) ==> view.windows[i].position == cursor[ids[i]].0
            &&& !cursor.dom().contains(ids[i]) ==> view.windows[i].position == 0
            &&& view.windows[i].forward.len() == 0 && view.windows[i].backward.len() == 0
            &&& !view.windows[i].forward_eof && !view.windows[i].backward_eof
            &&& view.filter == filter && view.walked == 0
            &&& view.batch_size == options.batch_size
            &&& view.max_records == options.max_records_to_scan_per_fill
        }),
{
}

} // verus!
