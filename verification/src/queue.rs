//! Long operations: the one in flight, and the summaries that wait for it.

use crate::engine::{totals, Engine};
use crate::filter::{Filter, PredicateView};
use crate::long_op::{LongOp, SearchOp, SeekOp, SummaryOp, SummaryView, TabIdx};
use crate::source::Source;
use vstd::prelude::*;

verus! {

/// A summary that is to be built.
#[derive(Debug)]
pub struct SummaryRequest {
    /// tab that the summary is for
    pub tab_idx: TabIdx,
    pub filter: Filter,
}

/// What a [`SummaryRequest`] says.
#[verifier::ext_equal]
pub struct RequestView {
    pub tab_idx: TabIdx,
    pub filter: Seq<PredicateView>,
}

impl View for SummaryRequest {
    type V = RequestView;

    open spec fn view(&self) -> RequestView {
        RequestView { tab_idx: self.tab_idx, filter: self.filter@ }
    }
}

/// The views of requests.
pub open spec fn request_views(requests: Seq<SummaryRequest>) -> Seq<RequestView> {
    requests.map_values(|r: SummaryRequest| r@)
}

/// The requests but those for a tab.
pub open spec fn without_tab(requests: Seq<RequestView>, tab_idx: TabIdx) -> Seq<RequestView>
    decreases requests.len(),
{
    if requests.len() == 0 {
        Seq::empty()
    } else {
        let rest = without_tab(requests.drop_last(), tab_idx);
        if requests.last().tab_idx == tab_idx {
            rest
        } else {
            rest.push(requests.last())
        }
    }
}

/// The requests with a further one at the end, which supersedes what was
/// asked for its tab before.
pub open spec fn queued(
    requests: Seq<RequestView>,
    tab_idx: TabIdx,
    filter: Seq<PredicateView>,
) -> Seq<RequestView> {
    without_tab(requests, tab_idx).push(RequestView { tab_idx, filter })
}

/// A tab's position once the tab at `closed` is gone.
pub open spec fn shifted(tab_idx: TabIdx, closed: TabIdx) -> TabIdx {
    if tab_idx.0 > closed.0 {
        TabIdx((tab_idx.0 - 1) as usize)
    } else {
        tab_idx
    }
}

/// The requests once the tab at `closed` is gone: its own are dropped, and
/// the others follow their tabs.
pub open spec fn without_closed(requests: Seq<RequestView>, closed: TabIdx) -> Seq<RequestView> {
    without_tab(requests, closed).map_values(
        |r: RequestView| RequestView { tab_idx: shifted(r.tab_idx, closed), ..r },
    )
}

/// The operation with another tab.
pub open spec fn retargeted(op: LongOp, tab_idx: TabIdx) -> LongOp {
    match op {
        LongOp::BuildSummary(op) => LongOp::BuildSummary(SummaryOp { tab_idx, ..op }),
        LongOp::Search(op) => LongOp::Search(SearchOp { tab_idx, ..op }),
        LongOp::Seek(op) => LongOp::Seek(SeekOp { tab_idx, ..op }),
    }
}

/// Whether the operation is a summary of the sources, at its beginning.
pub open spec fn begun<S: Source>(
    op: Option<LongOp>,
    sources: Seq<(Seq<char>, S)>,
    request: RequestView,
) -> bool {
    op matches Some(LongOp::BuildSummary(op)) && totals(sources, request.filter, op@.total_bytes)
        && op@ == SummaryView::begun(request.tab_idx, request.filter, op@.total_bytes)
}

/// What was stopped.
#[derive(Debug)]
pub enum Cancelled {
    /// nothing was in flight
    Nothing,
    /// a summary, with all that waited
    Summary(TabIdx),
    /// a search
    Search,
    /// a seek, named by its label
    Seek(String),
}

/// What a [`Cancelled`] says.
#[verifier::ext_equal]
pub enum CancelledView {
    Nothing,
    Summary(TabIdx),
    Search,
    Seek(Seq<char>),
}

impl View for Cancelled {
    type V = CancelledView;

    open spec fn view(&self) -> CancelledView {
        match self {
            Cancelled::Nothing => CancelledView::Nothing,
            Cancelled::Summary(tab_idx) => CancelledView::Summary(*tab_idx),
            Cancelled::Search => CancelledView::Search,
            Cancelled::Seek(label) => CancelledView::Seek(label@),
        }
    }
}

/// What stopping an operation stops.
pub open spec fn stopping(op: Option<LongOp>) -> CancelledView {
    match op {
        None => CancelledView::Nothing,
        Some(LongOp::BuildSummary(op)) => CancelledView::Summary(op.tab_idx),
        Some(LongOp::Search(_)) => CancelledView::Search,
        Some(LongOp::Seek(op)) => CancelledView::Seek(op.label@),
    }
}

/// The operation in flight, and the summaries that wait for their turn.
#[derive(Debug)]
pub struct LongOps {
    pub long_op: Option<LongOp>,
    /// first come, first served
    pub pending_summary_builds: Vec<SummaryRequest>,
}

impl LongOps {
    /// The requests that wait.
    pub open spec fn pending(self) -> Seq<RequestView> {
        request_views(self.pending_summary_builds@)
    }

    /// Nothing in flight, and nothing that waits.
    pub fn new() -> (ops: Self)
        ensures
            ops.long_op is None,
            ops.pending() == Seq::<RequestView>::empty(),
    {
        let ops = LongOps { long_op: None, pending_summary_builds: Vec::new() };
        assert(ops.pending() =~= Seq::<RequestView>::empty());
        ops
    }

    /// Drops the requests for a tab.
    fn drop_requests(&mut self, tab_idx: TabIdx)
        ensures
            final(self).pending() == without_tab(old(self).pending(), tab_idx),
            final(self).long_op == old(self).long_op,
    {
        let ghost all = self.pending();
        let mut kept: Vec<SummaryRequest> = Vec::new();
        let ghost mut taken: int = 0;
        assert(all.skip(0) =~= all);
        assert(request_views(kept@) =~= without_tab(all.take(0), tab_idx));
        while self.pending_summary_builds.len() > 0
            invariant
                0 <= taken <= all.len(),
                self.pending() == all.skip(taken),
                self.long_op == old(self).long_op,
                request_views(kept@) == without_tab(all.take(taken), tab_idx),
            decreases self.pending_summary_builds@.len(),
        {
            let ghost rest = self.pending();
            let ghost before = kept@;
            assert(rest.len() == self.pending_summary_builds@.len());
            let request = self.pending_summary_builds.remove(0);
            proof {
                assert(request@ == rest[0] && rest[0] == all[taken]);
                assert(self.pending() =~= rest.skip(1));
                assert(all.skip(taken).skip(1) =~= all.skip(taken + 1));
                assert(all.take(taken + 1).drop_last() =~= all.take(taken));
            }
            if request.tab_idx != tab_idx {
                kept.push(request);
                assert(request_views(kept@) =~= request_views(before).push(all[taken]));
            }
            proof {
                taken = taken + 1;
            }
        }
        assert(self.pending().len() == 0);
        assert(all.take(taken) =~= all);
        self.pending_summary_builds = kept;
    }

    /// Puts a summary in flight.
    fn start_summary_build<S: Source>(&mut self, engine: &Engine<S>, request: SummaryRequest)
        ensures
            begun(final(self).long_op, engine@, request@),
            final(self).pending() == old(self).pending(),
    {
        let SummaryRequest { tab_idx, filter } = request;
        let total_bytes = engine.filtered_total_bytes(&filter);
        self.long_op = Some(LongOp::BuildSummary(SummaryOp::new(tab_idx, filter, total_bytes)));
    }

    /// Asks for a summary of a tab.  It starts at once where nothing is in
    /// flight, and waits otherwise.  An earlier request for the same tab that
    /// still waits is dropped: it would compute what is no longer asked for.
    ///
    /// Says whether it started.
    pub fn enqueue_summary_build<S: Source>(
        &mut self,
        engine: &Engine<S>,
        tab_idx: TabIdx,
        filter: Filter,
    ) -> (started: bool)
        ensures
            started == (old(self).long_op is None),
            started ==> {
                &&& begun(
                    final(self).long_op,
                    engine@,
                    (RequestView { tab_idx, filter: filter@ }),
                )
                &&& final(self).pending() == without_tab(old(self).pending(), tab_idx)
            },
            !started ==> {
                &&& final(self).long_op == old(self).long_op
                &&& final(self).pending() == queued(old(self).pending(), tab_idx, filter@)
            },
    {
        self.drop_requests(tab_idx);
        let request = SummaryRequest { tab_idx, filter };
        if self.long_op.is_none() {
            self.start_summary_build(engine, request);
            true
        } else {
            let ghost before = self.pending();
            self.pending_summary_builds.push(request);
            assert(self.pending() =~= before.push(request@));
            false
        }
    }

    /// Puts the summary that has waited longest in flight, unless something
    /// is, and returns its tab.
    pub fn drain_pending_summary_builds<S: Source>(&mut self, engine: &Engine<S>) -> (tab_idx:
        Option<TabIdx>)
        ensures
            old(self).long_op is Some || old(self).pending().len() == 0 ==> {
                &&& tab_idx is None
                &&& *final(self) == *old(self)
            },
            old(self).long_op is None && old(self).pending().len() > 0 ==> {
                &&& tab_idx == Some(old(self).pending()[0].tab_idx)
                &&& begun(final(self).long_op, engine@, old(self).pending()[0])
                &&& final(self).pending() == old(self).pending().drop_first()
            },
    {
        if self.long_op.is_some() || self.pending_summary_builds.len() == 0 {
            return None;
        }
        let ghost before = self.pending();
        let request = self.pending_summary_builds.remove(0);
        let tab_idx = request.tab_idx;
        assert(request@ == before[0]);
        assert(self.pending() =~= before.drop_first());
        self.start_summary_build(engine, request);
        Some(tab_idx)
    }

    /// The summary in flight, once all of it has been scanned.
    pub fn take_finished(&mut self) -> (op: Option<SummaryOp>)
        ensures
            final(self).pending() == old(self).pending(),
            match op {
                Some(op) => old(self).long_op == Some(LongOp::BuildSummary(op)) && op.eof
                    && final(self).long_op is None,
                None => final(self).long_op == old(self).long_op && !(old(
                    self,
                ).long_op matches Some(LongOp::BuildSummary(op)) && op.eof),
            },
    {
        match self.long_op.take() {
            Some(LongOp::BuildSummary(op)) => if op.eof {
                Some(op)
            } else {
                self.long_op = Some(LongOp::BuildSummary(op));
                None
            },
            other => {
                self.long_op = other;
                None
            },
        }
    }

    /// Stops the operation in flight.  With a summary go all that wait: the
    /// user asked to stop, not to skip ahead.
    pub fn cancel_long_op(&mut self) -> (stopped: Cancelled)
        ensures
            stopped@ == stopping(old(self).long_op),
            final(self).long_op is None,
            final(self).pending() == if stopped is Summary {
                Seq::empty()
            } else {
                old(self).pending()
            },
    {
        match self.long_op.take() {
            None => Cancelled::Nothing,
            Some(LongOp::BuildSummary(op)) => {
                self.pending_summary_builds = Vec::new();
                assert(self.pending() =~= Seq::<RequestView>::empty());
                Cancelled::Summary(op.tab_idx)
            },
            Some(LongOp::Search(_)) => Cancelled::Search,
            Some(LongOp::Seek(op)) => Cancelled::Seek(op.label),
        }
    }

    /// Follows a tab that was closed: what was for it is dropped, and what is
    /// for a later tab follows that tab to its new position.
    pub fn adjust_for_closed_tab(&mut self, closed: TabIdx)
        ensures
            final(self).pending() == without_closed(old(self).pending(), closed),
            final(self).long_op == match old(self).long_op {
                Some(op) => if op.tab() == closed {
                    None
                } else {
                    Some(retargeted(op, shifted(op.tab(), closed)))
                },
                None => None,
            },
    {
        self.long_op = match self.long_op.take() {
            Some(op) => if op.targets_tab(closed) {
                None
            } else {
                Some(shift_op(op, closed))
            },
            None => None,
        };
        self.drop_requests(closed);
        let ghost left = self.pending();
        let ghost moved = left.map_values(
            |r: RequestView| RequestView { tab_idx: shifted(r.tab_idx, closed), ..r },
        );
        let ghost op = self.long_op;
        let mut i: usize = 0;
        while i < self.pending_summary_builds.len()
            invariant
                i <= left.len(),
                left.len() == self.pending_summary_builds@.len(),
                moved == left.map_values(
                    |r: RequestView| RequestView { tab_idx: shifted(r.tab_idx, closed), ..r },
                ),
                self.pending() == moved.take(i as int) + left.skip(i as int),
                self.long_op == op,
            decreases left.len() - i,
        {
            let ghost before = self.pending();
            assert(before[i as int] == left[i as int]);
            assert(before[i as int] == self.pending_summary_builds@[i as int]@);
            let tab_idx = shift_tab(self.pending_summary_builds[i].tab_idx, closed);
            self.pending_summary_builds[i].tab_idx = tab_idx;
            assert(self.pending() =~= before.update(i as int, moved[i as int]));
            assert(self.pending() =~= moved.take(i + 1) + left.skip(i + 1));
            i = i + 1;
        }
        assert(self.pending() =~= moved);
    }
}

fn shift_tab(tab_idx: TabIdx, closed: TabIdx) -> (moved: TabIdx)
    ensures
        moved == shifted(tab_idx, closed),
{
    if tab_idx.0 > closed.0 {
        tab_idx.prev()
    } else {
        tab_idx
    }
}

fn shift_op(op: LongOp, closed: TabIdx) -> (moved: LongOp)
    ensures
        moved == retargeted(op, shifted(op.tab(), closed)),
{
    match op {
        LongOp::BuildSummary(mut op) => {
            op.tab_idx = shift_tab(op.tab_idx, closed);
            LongOp::BuildSummary(op)
        },
        LongOp::Search(mut op) => {
            op.tab_idx = shift_tab(op.tab_idx, closed);
            LongOp::Search(op)
        },
        LongOp::Seek(mut op) => {
            op.tab_idx = shift_tab(op.tab_idx, closed);
            LongOp::Seek(op)
        },
    }
}

/// Whether no two requests are for the same tab.
pub open spec fn one_per_tab(requests: Seq<RequestView>) -> bool {
    forall|i: int, j: int|
        0 <= i < j < requests.len() ==> (#[trigger] requests[i]).tab_idx != (
        #[trigger] requests[j]).tab_idx
}

proof fn lemma_without_tab(requests: Seq<RequestView>, tab_idx: TabIdx)
    ensures
        forall|i: int|
            0 <= i < without_tab(requests, tab_idx).len() ==> {
                &&& (#[trigger] without_tab(requests, tab_idx)[i]).tab_idx != tab_idx
                &&& requests.contains(without_tab(requests, tab_idx)[i])
            },
        one_per_tab(requests) ==> one_per_tab(without_tab(requests, tab_idx)),
        (forall|i: int| 0 <= i < requests.len() ==> (#[trigger] requests[i]).tab_idx != tab_idx)
            ==> without_tab(requests, tab_idx) == requests,
    decreases requests.len(),
{
    if requests.len() > 0 {
        let shorter = requests.drop_last();
        let last = requests.last();
        lemma_without_tab(shorter, tab_idx);
        let rest = without_tab(shorter, tab_idx);
        assert(requests[requests.len() - 1] == last);
        assert forall|r: RequestView| shorter.contains(r) implies requests.contains(r) by {
            let i = choose|i: int| 0 <= i < shorter.len() && shorter[i] == r;
            assert(requests[i] == r);
        }
        assert(requests.contains(last));
        if one_per_tab(requests) {
            assert forall|i: int, j: int| 0 <= i < j < shorter.len() implies (
            #[trigger] shorter[i]).tab_idx != (#[trigger] shorter[j]).tab_idx by {
                assert(requests[i].tab_idx != requests[j].tab_idx);
            }
            assert forall|i: int| 0 <= i < rest.len() implies (#[trigger] rest[i]).tab_idx
                != last.tab_idx by {
                let k = choose|k: int| 0 <= k < shorter.len() && shorter[k] == rest[i];
                assert(requests[k].tab_idx != requests[requests.len() - 1].tab_idx);
            }
        }
        if forall|i: int| 0 <= i < requests.len() ==> (#[trigger] requests[i]).tab_idx != tab_idx {
            assert forall|i: int| 0 <= i < shorter.len() implies (#[trigger] shorter[i]).tab_idx
                != tab_idx by {
                assert(requests[i].tab_idx != tab_idx);
            }
            assert(requests =~= shorter.push(last));
        }
    }
}

/// The newest request for a tab supersedes the older ones: it alone waits for
/// the tab, the requests for other tabs wait as before, and no two requests
/// come to wait for the same tab.
pub proof fn law_newest_request_wins(
    requests: Seq<RequestView>,
    tab_idx: TabIdx,
    filter: Seq<PredicateView>,
)
    ensures
        queued(requests, tab_idx, filter).last() == (RequestView { tab_idx, filter }),
        forall|i: int|
            0 <= i < queued(requests, tab_idx, filter).len() - 1 ==> (#[trigger] queued(
                requests,
                tab_idx,
                filter,
            )[i]).tab_idx != tab_idx,
        without_tab(queued(requests, tab_idx, filter), tab_idx) == without_tab(requests, tab_idx),
        one_per_tab(requests) ==> one_per_tab(queued(requests, tab_idx, filter)),
{
    lemma_without_tab(requests, tab_idx);
    let rest = without_tab(requests, tab_idx);
    lemma_without_tab(rest, tab_idx);
    assert(queued(requests, tab_idx, filter).drop_last() =~= rest);
}

/// Closing a tab keeps the requests of different tabs apart.
pub proof fn law_closing_keeps_requests_apart(requests: Seq<RequestView>, closed: TabIdx)
    requires
        one_per_tab(requests),
    ensures
        one_per_tab(without_closed(requests, closed)),
{
    lemma_without_tab(requests, closed);
    let rest = without_tab(requests, closed);
    assert forall|i: int, j: int| 0 <= i < j < rest.len() implies (#[trigger] without_closed(
        requests,
        closed,
    )[i]).tab_idx != (#[trigger] without_closed(requests, closed)[j]).tab_idx by {
        assert(rest[i].tab_idx != closed && rest[j].tab_idx != closed);
        assert(rest[i].tab_idx != rest[j].tab_idx);
    }
}

proof fn lemma_others_wait_on(requests: Seq<RequestView>, tab_idx: TabIdx)
    ensures
        forall|i: int|
            0 <= i < requests.len() && (#[trigger] requests[i]).tab_idx != tab_idx
                ==> without_tab(requests, tab_idx).contains(requests[i]),
    decreases requests.len(),
{
    if requests.len() > 0 {
        let shorter = requests.drop_last();
        lemma_others_wait_on(shorter, tab_idx);
        let rest = without_tab(shorter, tab_idx);
        let left = without_tab(requests, tab_idx);
        assert forall|r: RequestView| rest.contains(r) implies left.contains(r) by {
            let k = choose|k: int| 0 <= k < rest.len() && rest[k] == r;
            assert(left[k] == r);
        }
        assert forall|i: int|
            0 <= i < requests.len() && (#[trigger] requests[i]).tab_idx
                != tab_idx implies left.contains(requests[i]) by {
            if i < shorter.len() {
                assert(shorter[i] == requests[i]);
            } else {
                assert(left.last() == requests[i]);
                assert(left[left.len() - 1] == requests[i]);
            }
        }
    }
}

/// Asking for a summary keeps every request of another tab waiting.
pub proof fn law_asking_keeps_the_other_requests(
    requests: Seq<RequestView>,
    tab_idx: TabIdx,
    filter: Seq<PredicateView>,
    i: int,
)
    requires
        0 <= i < requests.len(),
        requests[i].tab_idx != tab_idx,
    ensures
        queued(requests, tab_idx, filter).contains(requests[i]),
{
    lemma_others_wait_on(requests, tab_idx);
    let rest = without_tab(requests, tab_idx);
    let k = choose|k: int| 0 <= k < rest.len() && rest[k] == requests[i];
    assert(queued(requests, tab_idx, filter)[k] == requests[i]);
}

/// Whether a tab other than the one being closed has a request with this
/// filter.
pub open spec fn another_asks(
    requests: Seq<RequestView>,
    closed: TabIdx,
    filter: Seq<PredicateView>,
) -> bool {
    exists|i: int|
        0 <= i < requests.len() && (#[trigger] requests[i]).tab_idx.0 != closed.0
            && requests[i].filter == filter
}

/// Closing a tab drops its own request; every other waits on with its filter,
/// for the tab's new number: one less where it stood behind the closed tab.
#[verifier::spinoff_prover]
pub proof fn law_requests_follow_their_tabs(requests: Seq<RequestView>, closed: TabIdx)
    ensures
        forall|i: int|
            0 <= i < requests.len() && (#[trigger] requests[i]).tab_idx.0 != closed.0
                ==> without_closed(requests, closed).contains(
                RequestView {
                    tab_idx: TabIdx(
                        (if requests[i].tab_idx.0 > closed.0 {
                            requests[i].tab_idx.0 - 1
                        } else {
                            requests[i].tab_idx.0 as int
                        }) as usize,
                    ),
                    filter: requests[i].filter,
                },
            ),
        forall|k: int|
            0 <= k < without_closed(requests, closed).len() ==> another_asks(
                requests,
                closed,
                (#[trigger] without_closed(requests, closed)[k]).filter,
            ),
{
    lemma_others_wait_on(requests, closed);
    lemma_without_tab(requests, closed);
    let left = without_tab(requests, closed);
    let after = without_closed(requests, closed);
    assert forall|i: int|
        0 <= i < requests.len() && (#[trigger] requests[i]).tab_idx.0
            != closed.0 implies after.contains(
        RequestView {
            tab_idx: TabIdx(
                (if requests[i].tab_idx.0 > closed.0 {
                    requests[i].tab_idx.0 - 1
                } else {
                    requests[i].tab_idx.0 as int
                }) as usize,
            ),
            filter: requests[i].filter,
        },
    ) by {
        let k = choose|k: int| 0 <= k < left.len() && left[k] == requests[i];
        assert(after[k] == (RequestView {
            tab_idx: shifted(left[k].tab_idx, closed),
            ..left[k]
        }));
    }
    assert forall|k: int| 0 <= k < after.len() implies another_asks(
        requests,
        closed,
        (#[trigger] after[k]).filter,
    ) by {
        assert(left[k].tab_idx != closed && requests.contains(left[k]));
        let i = choose|i: int| 0 <= i < requests.len() && requests[i] == left[k];
        assert(requests[i].filter == after[k].filter);
        assert(requests[i].tab_idx.0 != closed.0);
    }
}

/// Running work follows its tab when another one closes, and goes on as it
/// was.
pub proof fn law_running_work_follows_its_tab(op: LongOp, closed: TabIdx)
    requires
        op.tab() != closed,
    ensures
        ({
            let after = retargeted(op, shifted(op.tab(), closed));
            &&& op.tab().0 > closed.0 ==> after.tab().0 == op.tab().0 - 1
            &&& op.tab().0 < closed.0 ==> after == op
            &&& after.label_text() == op.label_text()
            &&& after.done() == op.done() && after.total() == op.total()
            &&& after.record_count() == op.record_count()
            &&& after is Search == op is Search && after is Seek == op is Seek
        }),
{
}

/// What is told to have been stopped is what was running.
pub proof fn law_what_stops_is_what_ran(
    summary: SummaryOp,
    search: SearchOp,
    seek: SeekOp,
)
    ensures
        stopping(None) == CancelledView::Nothing,
        stopping(Some(LongOp::BuildSummary(summary))) == CancelledView::Summary(summary.tab_idx),
        stopping(Some(LongOp::Search(search))) == CancelledView::Search,
        stopping(Some(LongOp::Seek(seek))) == CancelledView::Seek(seek.label@),
{
}

/// Requests wait in the order in which they were made.
pub proof fn law_requests_wait_in_order(
    requests: Seq<RequestView>,
    request: RequestView,
    tab_idx: TabIdx,
)
    ensures
        request.tab_idx != tab_idx ==> without_tab(requests.push(request), tab_idx) == without_tab(
            requests,
            tab_idx,
        ).push(request),
        request.tab_idx == tab_idx ==> without_tab(requests.push(request), tab_idx) == without_tab(
            requests,
            tab_idx,
        ),
        request.tab_idx.0 > tab_idx.0 ==> without_closed(requests.push(request), tab_idx)
            == without_closed(requests, tab_idx).push(
            RequestView { tab_idx: TabIdx((request.tab_idx.0 - 1) as usize), ..request },
        ),
        request.tab_idx.0 < tab_idx.0 ==> without_closed(requests.push(request), tab_idx)
            == without_closed(requests, tab_idx).push(request),
{
    assert(requests.push(request).drop_last() =~= requests);
    if request.tab_idx != tab_idx {
        assert(without_closed(requests.push(request), tab_idx) =~= without_closed(
            requests,
            tab_idx,
        ).push(RequestView { tab_idx: shifted(request.tab_idx, tab_idx), ..request }));
    }
}

/// A summary that is begun is the one that was asked for: of its tab, with its
/// filter, and with nothing read yet.
pub proof fn law_what_begins_is_what_was_asked<S: Source>(
    op: Option<LongOp>,
    sources: Seq<(Seq<char>, S)>,
    request: RequestView,
)
    requires
        begun(op, sources, request),
    ensures
        op matches Some(LongOp::BuildSummary(op)) && {
            &&& op.tab_idx == request.tab_idx
            &&& op.filter@ == request.filter
            &&& op.bytes_read.0 == 0 && op.records == 0 && !op.eof
            &&& totals(sources, request.filter, op.total_bytes.0)
        },
{
}

} // verus!
