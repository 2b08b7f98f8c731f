//! Work done in chunks between frames, and how far it has come.

use crate::engine::{cursor_of, record_view, Engine, MergeRecordView, Stepper};
use crate::event::{Event, EventView};
use crate::filter::{Filter, PredicateView};
use crate::format::{format_progress, progress_line};
use crate::pattern::Pattern;
use crate::position::{offset_after, ByteLen, ByteOffset, Cursor};
use crate::rows::{ContentView, Materialized, ParseStats};
use crate::search::{SearchAnchor, SearchDirection};
use crate::source::{Direction, Source};
use crate::text::views;
use crate::walk::{emitted, is_walk, lemma_walk_on, opened_at, steps_for, stepped};
use vstd::prelude::*;

verus! {

/// Position of a tab among the open ones.
#[derive(Debug, Clone, Copy, PartialEq, Eq, Structural, PartialOrd, Ord, Hash)]
pub struct TabIdx(pub usize);

impl TabIdx {
    /// The position as a number.
    pub fn get(self) -> (n: usize)
        ensures
            n == self.0,
    {
        self.0
    }

    /// The position before this one, for a tab that moved up when another
    /// closed.
    pub fn prev(self) -> (before: TabIdx)
        requires
            self.0 > 0,
        ensures
            before.0 == self.0 - 1,
    {
        TabIdx(self.0 - 1)
    }
}

/// Records processed per chunk.
pub const LONG_OP_CHUNK_RECORDS: usize = 4_000;

/// A summary in the making.
#[derive(Debug)]
pub struct SummaryOp {
    /// tab that the summary is for
    pub tab_idx: TabIdx,
    pub filter: Filter,
    /// where the next chunk begins
    pub cursor: Cursor,
    pub bytes_read: ByteLen,
    /// events observed so far
    pub records: u64,
    pub total_bytes: ByteLen,
    pub eof: bool,
}

/// What a [`SummaryOp`] has come to.
#[verifier::ext_equal]
pub struct SummaryView {
    pub tab_idx: TabIdx,
    pub filter: Seq<PredicateView>,
    pub cursor: Map<Seq<char>, ByteOffset>,
    pub bytes_read: u64,
    pub records: u64,
    pub total_bytes: u64,
    pub eof: bool,
}

impl View for SummaryOp {
    type V = SummaryView;

    open spec fn view(&self) -> SummaryView {
        SummaryView {
            tab_idx: self.tab_idx,
            filter: self.filter@,
            cursor: self.cursor@,
            bytes_read: self.bytes_read.0,
            records: self.records,
            total_bytes: self.total_bytes.0,
            eof: self.eof,
        }
    }
}

/// The bytes of a run of records, counted on from `start`.
pub open spec fn bytes_of(records: Seq<MergeRecordView>, start: u64) -> u64
    decreases records.len(),
{
    if records.len() == 0 {
        start
    } else {
        offset_after(
            bytes_of(records.drop_last(), start) as int,
            records.last().record.length as int,
        ) as u64
    }
}

/// The events among a run of records.
pub open spec fn observed(records: Seq<MergeRecordView>) -> Seq<EventView>
    decreases records.len(),
{
    if records.len() == 0 {
        Seq::empty()
    } else {
        let before = observed(records.drop_last());
        match records.last().record.event {
            Ok(event) => before.push(event),
            Err(_) => before,
        }
    }
}

/// The views of events.
pub open spec fn event_views(events: Seq<Event>) -> Seq<EventView> {
    events.map_values(|e: Event| e@)
}

impl SummaryView {
    /// Before the first chunk.
    pub open spec fn begun(
        tab_idx: TabIdx,
        filter: Seq<PredicateView>,
        total_bytes: u64,
    ) -> SummaryView {
        SummaryView {
            tab_idx,
            filter,
            cursor: Map::empty(),
            bytes_read: 0,
            records: 0,
            total_bytes,
            eof: false,
        }
    }

    /// After a chunk of records that ends at the cursor.
    pub open spec fn scanned(
        self,
        records: Seq<MergeRecordView>,
        cursor: Map<Seq<char>, ByteOffset>,
    ) -> SummaryView {
        SummaryView {
            cursor,
            bytes_read: bytes_of(records, self.bytes_read),
            records: offset_after(self.records as int, observed(records).len() as int) as u64,
            eof: records.len() < LONG_OP_CHUNK_RECORDS,
            ..self
        }
    }
}

impl SummaryOp {
    /// A summary that has not been begun.
    pub fn new(tab_idx: TabIdx, filter: Filter, total_bytes: ByteLen) -> (op: Self)
        ensures
            op@ == SummaryView::begun(tab_idx, filter@, total_bytes.0),
    {
        SummaryOp {
            tab_idx,
            filter,
            cursor: Cursor::new(),
            bytes_read: ByteLen::zero(),
            records: 0,
            total_bytes,
            eof: false,
        }
    }

    /// Scans a chunk more and returns the events in it, for the summary to
    /// observe.  The scan is over once a chunk comes up short.
    pub fn advance<S: Source>(&mut self, engine: &Engine<S>) -> (events: Vec<Event>)
        ensures
            old(self)@.eof ==> final(self)@ == old(self)@ && events@.len() == 0,
            !old(self)@.eof ==> exists|steppers: Seq<Stepper<S>>, records: Seq<MergeRecordView>|
                {
                    &&& #[trigger] is_walk(
                        steppers,
                        Direction::Forward,
                        steps_for(records, LONG_OP_CHUNK_RECORDS as int),
                    )
                    &&& records.len() <= LONG_OP_CHUNK_RECORDS
                    &&& opened_at(
                        steppers.first(),
                        engine@,
                        old(self)@.filter,
                        old(self)@.cursor,
                    )
                    &&& final(self)@ == old(self)@.scanned(
                        records,
                        cursor_of(steppers.last()@.windows),
                    )
                    &&& event_views(events@) == observed(records)
                },
    {
        let mut events: Vec<Event> = Vec::new();
        if self.eof {
            return events;
        }
        let ghost start = self@;
        let mut stepper = engine.stepper(self.filter.clone(), &self.cursor);
        let ghost mut steppers = seq![stepper];
        let ghost mut records = Seq::<MergeRecordView>::empty();
        let ghost mut steps = Seq::<Option<MergeRecordView>>::empty();
        let mut count: usize = 0;
        assert(event_views(events@) =~= observed(records));
        assert(emitted(records) =~= steps);
        while count < LONG_OP_CHUNK_RECORDS && !self.eof
            invariant
                count <= LONG_OP_CHUNK_RECORDS,
                count == records.len(),
                is_walk(steppers, Direction::Forward, steps),
                opened_at(steppers.first(), engine@, start.filter, start.cursor),
                steppers.last() == stepper,
                steps == if self.eof {
                    emitted(records).push(None)
                } else {
                    emitted(records)
                },
                self.eof ==> count < LONG_OP_CHUNK_RECORDS,
                event_views(events@) == observed(records),
                self@ == (SummaryView {
                    bytes_read: bytes_of(records, start.bytes_read),
                    records: offset_after(
                        start.records as int,
                        observed(records).len() as int,
                    ) as u64,
                    eof: self.eof,
                    ..start
                }),
            decreases
                    LONG_OP_CHUNK_RECORDS - count,
                    if self.eof {
                        0int
                    } else {
                        1
                    },
        {
            let ghost before = stepper;
            let ghost walked = records;
            let step = stepper.step_forward();
            let ghost seen = record_view(step);
            proof {
                assert(stepped(before, Direction::Forward, stepper, seen));
                lemma_walk_on(steppers, Direction::Forward, steps, stepper, seen);
                steppers = steppers.push(stepper);
                steps = steps.push(seen);
            }
            match step {
                None => {
                    self.eof = true;
                },
                Some(record) => {
                    proof {
                        records = records.push(record@);
                        assert(records.drop_last() =~= walked);
                        assert(emitted(records) =~= emitted(walked).push(seen));
                    }
                    self.bytes_read = self.bytes_read.plus(record.length());
                    if let Ok(event) = record.event() {
                        let ghost noted = events@;
                        let copy = event.clone();
                        events.push(copy);
                        self.records = self.records.saturating_add(1);
                        assert(event_views(events@) =~= event_views(noted).push(copy@));
                    }
                    count = count + 1;
                },
            }
        }
        self.cursor = stepper.cursor();
        proof {
            assert(steps == steps_for(records, LONG_OP_CHUNK_RECORDS as int));
            assert(is_walk(
                steppers,
                Direction::Forward,
                steps_for(records, LONG_OP_CHUNK_RECORDS as int),
            ));
        }
        events
    }
}

impl SummaryOp {
    /// The summary's lines as a tab's content, with what it took to make
    /// them.
    pub fn finalize(self, lines: Vec<String>, elapsed_nanos: u64) -> (content: Materialized)
        ensures
            content@ == (ContentView {
                formatted: views(lines@),
                parse_stats: ParseStats {
                    records: self@.records,
                    walked_bytes: ByteLen(self@.bytes_read),
                    elapsed_nanos,
                },
                ..ContentView::empty()
            }),
            content@.wf(),
    {
        let content = Materialized {
            events: Vec::new(),
            formatted: lines,
            event_for_line: Vec::new(),
            first_line_for_event: Vec::new(),
            parse_stats: ParseStats {
                records: self.records,
                walked_bytes: self.bytes_read,
                elapsed_nanos,
            },
        };
        assert(content@.events =~= Seq::empty());
        assert(content@.event_for_line =~= Seq::empty());
        assert(content@.first_line_for_event =~= Seq::empty());
        content
    }
}

/// A search in progress.
#[derive(Debug)]
pub struct SearchOp {
    pub tab_idx: TabIdx,
    pub pattern: Pattern,
    pub direction: SearchDirection,
    pub anchor: SearchAnchor,
    /// the view's counters when the search began
    pub walked_bytes_at_start: ByteLen,
    pub records_at_start: u64,
    pub total_bytes: ByteLen,
    pub bytes_done: ByteLen,
    pub records: u64,
}

/// A seek in progress.
#[derive(Debug)]
pub struct SeekOp {
    pub tab_idx: TabIdx,
    /// what the seek is for
    pub label: String,
    /// the view's counters when the seek began
    pub walked_bytes_at_start: ByteLen,
    pub records_at_start: u64,
    pub total_bytes: ByteLen,
    pub bytes_done: ByteLen,
    pub records: u64,
}

/// The amount beyond `start`, if any.
pub open spec fn beyond(now: u64, start: u64) -> u64 {
    if now >= start {
        (now - start) as u64
    } else {
        0
    }
}

impl SearchOp {
    /// A search that has not been begun.
    pub fn new(
        tab_idx: TabIdx,
        pattern: Pattern,
        direction: SearchDirection,
        anchor: SearchAnchor,
        walked_bytes_at_start: ByteLen,
        records_at_start: u64,
        total_bytes: ByteLen,
    ) -> (op: Self)
        ensures
            op.tab_idx == tab_idx,
            op.pattern@ == pattern@,
            op.direction == direction,
            op.anchor == anchor,
            op.walked_bytes_at_start == walked_bytes_at_start,
            op.records_at_start == records_at_start,
            op.total_bytes == total_bytes,
            op.bytes_done.0 == 0,
            op.records == 0,
    {
        SearchOp {
            tab_idx,
            pattern,
            direction,
            anchor,
            walked_bytes_at_start,
            records_at_start,
            total_bytes,
            bytes_done: ByteLen::zero(),
            records: 0,
        }
    }

    /// Takes note of the view's counters after a chunk.  Later chunks no
    /// longer skip the line at which the search began.
    pub fn note(&mut self, walked_bytes: ByteLen, records: u64)
        ensures
            final(self).bytes_done.0 == beyond(walked_bytes.0, old(self).walked_bytes_at_start.0),
            final(self).records == beyond(records, old(self).records_at_start),
            final(self).anchor == SearchAnchor::Include,
            *final(self) == (SearchOp {
                bytes_done: final(self).bytes_done,
                records: final(self).records,
                anchor: final(self).anchor,
                ..*old(self)
            }),
    {
        self.bytes_done = ByteLen(walked_bytes.0.saturating_sub(self.walked_bytes_at_start.0));
        self.records = records.saturating_sub(self.records_at_start);
        self.anchor = SearchAnchor::Include;
    }
}

impl SeekOp {
    /// A seek that has not been begun.
    pub fn new(
        tab_idx: TabIdx,
        label: String,
        walked_bytes_at_start: ByteLen,
        records_at_start: u64,
        total_bytes: ByteLen,
    ) -> (op: Self)
        ensures
            op.tab_idx == tab_idx,
            op.label@ == label@,
            op.walked_bytes_at_start == walked_bytes_at_start,
            op.records_at_start == records_at_start,
            op.total_bytes == total_bytes,
            op.bytes_done.0 == 0,
            op.records == 0,
    {
        SeekOp {
            tab_idx,
            label,
            walked_bytes_at_start,
            records_at_start,
            total_bytes,
            bytes_done: ByteLen::zero(),
            records: 0,
        }
    }

    /// Takes note of the view's counters after a chunk.
    pub fn note(&mut self, walked_bytes: ByteLen, records: u64)
        ensures
            final(self).bytes_done.0 == beyond(walked_bytes.0, old(self).walked_bytes_at_start.0),
            final(self).records == beyond(records, old(self).records_at_start),
            *final(self) == (SeekOp {
                bytes_done: final(self).bytes_done,
                records: final(self).records,
                ..*old(self)
            }),
    {
        self.bytes_done = ByteLen(walked_bytes.0.saturating_sub(self.walked_bytes_at_start.0));
        self.records = records.saturating_sub(self.records_at_start);
    }
}

/// An operation that runs over many frames.  While one runs for the tab on
/// show, its progress stands in place of the status line.
#[derive(Debug)]
pub enum LongOp {
    BuildSummary(SummaryOp),
    Search(SearchOp),
    Seek(SeekOp),
}

impl LongOp {
    /// What the progress bar says of the operation.
    pub open spec fn label_text(self) -> Seq<char> {
        match self {
            LongOp::BuildSummary(_) => "Computing summary"@,
            LongOp::Search(_) => "Searching"@,
            LongOp::Seek(op) => op.label@,
        }
    }

    /// Bytes processed so far.
    pub open spec fn done(self) -> ByteLen {
        match self {
            LongOp::BuildSummary(op) => op.bytes_read,
            LongOp::Search(op) => op.bytes_done,
            LongOp::Seek(op) => op.bytes_done,
        }
    }

    /// Bytes to process in all.
    pub open spec fn total(self) -> ByteLen {
        match self {
            LongOp::BuildSummary(op) => op.total_bytes,
            LongOp::Search(op) => op.total_bytes,
            LongOp::Seek(op) => op.total_bytes,
        }
    }

    /// Records so far.
    pub open spec fn record_count(self) -> u64 {
        match self {
            LongOp::BuildSummary(op) => op.records,
            LongOp::Search(op) => op.records,
            LongOp::Seek(op) => op.records,
        }
    }

    /// The tab that the operation is for.
    pub open spec fn tab(self) -> TabIdx {
        match self {
            LongOp::BuildSummary(op) => op.tab_idx,
            LongOp::Search(op) => op.tab_idx,
            LongOp::Seek(op) => op.tab_idx,
        }
    }

    /// Bytes processed so far.
    pub fn bytes_done(&self) -> (bytes: ByteLen)
        ensures
            bytes == self.done(),
    {
        match self {
            LongOp::BuildSummary(op) => op.bytes_read,
            LongOp::Search(op) => op.bytes_done,
            LongOp::Seek(op) => op.bytes_done,
        }
    }

    /// Bytes to process in all.
    pub fn total_bytes(&self) -> (bytes: ByteLen)
        ensures
            bytes == self.total(),
    {
        match self {
            LongOp::BuildSummary(op) => op.total_bytes,
            LongOp::Search(op) => op.total_bytes,
            LongOp::Seek(op) => op.total_bytes,
        }
    }

    /// Records so far.
    pub fn records(&self) -> (count: u64)
        ensures
            count == self.record_count(),
    {
        match self {
            LongOp::BuildSummary(op) => op.records,
            LongOp::Search(op) => op.records,
            LongOp::Seek(op) => op.records,
        }
    }

    /// What the progress bar says of the operation.
    pub fn label(&self) -> (label: &str)
        ensures
            label@ == self.label_text(),
    {
        match self {
            LongOp::BuildSummary(_) => "Computing summary",
            LongOp::Search(_) => "Searching",
            LongOp::Seek(op) => op.label.as_str(),
        }
    }

    /// Whether the operation is for the tab.
    pub fn targets_tab(&self, tab_idx: TabIdx) -> (yes: bool)
        ensures
            yes == (self.tab() == tab_idx),
    {
        match self {
            LongOp::BuildSummary(op) => op.tab_idx == tab_idx,
            LongOp::Search(op) => op.tab_idx == tab_idx,
            LongOp::Seek(op) => op.tab_idx == tab_idx,
        }
    }
}

/// The operation's progress as a line of `width` columns.
pub fn format_long_op_progress(op: &LongOp, width: usize) -> (line: String)
    ensures
        line@ == progress_line(
            op.label_text(),
            op.done().0,
            op.total().0,
            op.record_count(),
            width as int,
        ),
{
    format_progress(op.label(), op.bytes_done().0, op.total_bytes().0, op.records(), width)
}

/// A summary counts what it reads: every record's bytes, and every record
/// that could be read as one more; it is at the end once a chunk comes short.
pub proof fn law_summary_counts_what_it_reads(
    before: SummaryView,
    records: Seq<MergeRecordView>,
    record: MergeRecordView,
    cursor: Map<Seq<char>, ByteOffset>,
)
    ensures
        ({
            let less = before.scanned(records, cursor);
            let more = before.scanned(records.push(record), cursor);
            &&& more.bytes_read == if less.bytes_read + record.record.length <= u64::MAX {
                less.bytes_read + record.record.length
            } else {
                u64::MAX as int
            }
            &&& record.record.event is Err ==> more.records == less.records
                && observed(records.push(record)) == observed(records)
            &&& record.record.event matches Ok(event) ==> observed(records.push(record))
                == observed(records).push(event)
            &&& record.record.event is Ok && before.records + records.len() < u64::MAX
                ==> more.records == less.records + 1
            &&& more.total_bytes == before.total_bytes && more.filter == before.filter
            &&& more.tab_idx == before.tab_idx && more.cursor == cursor
        }),
        before.scanned(Seq::empty(), cursor).bytes_read == before.bytes_read,
        before.scanned(Seq::empty(), cursor).records == before.records,
{
    assert(records.push(record).drop_last() =~= records);
    lemma_observed_len(records);
}

proof fn lemma_observed_len(records: Seq<MergeRecordView>)
    ensures
        observed(records).len() <= records.len(),
    decreases records.len(),
{
    if records.len() > 0 {
        lemma_observed_len(records.drop_last());
    }
}

/// How far work has come is what was walked since it began.
pub proof fn law_progress_counts_from_the_start(now: u64, start: u64)
    ensures
        now >= start ==> beyond(now, start) + start == now,
        now < start ==> beyond(now, start) == 0,
{
}

/// What long work is called and how far it has come is told of the work
/// itself.
pub proof fn law_work_tells_of_itself(summary: SummaryOp, search: SearchOp, seek: SeekOp)
    ensures
        LongOp::BuildSummary(summary).label_text() == "Computing summary"@,
        LongOp::Search(search).label_text() == "Searching"@,
        LongOp::Seek(seek).label_text() == seek.label@,
        LongOp::BuildSummary(summary).done() == summary.bytes_read,
        LongOp::Search(search).done() == search.bytes_done,
        LongOp::Seek(seek).done() == seek.bytes_done,
        LongOp::BuildSummary(summary).total() == summary.total_bytes,
        LongOp::Search(search).total() == search.total_bytes,
        LongOp::Seek(seek).total() == seek.total_bytes,
        LongOp::BuildSummary(summary).record_count() == summary.records,
        LongOp::Search(search).record_count() == search.records,
        LongOp::Seek(seek).record_count() == seek.records,
        LongOp::BuildSummary(summary).tab() == summary.tab_idx,
        LongOp::Search(search).tab() == search.tab_idx,
        LongOp::Seek(seek).tab() == seek.tab_idx,
{
}

/// A summary begins at the start of everything, with nothing read, and is at
/// the end exactly once it has read fewer records than it asked for.
pub proof fn law_summaries_begin_at_the_start(
    tab_idx: TabIdx,
    filter: Seq<PredicateView>,
    total_bytes: u64,
    records: Seq<MergeRecordView>,
    cursor: Map<Seq<char>, ByteOffset>,
)
    ensures
        ({
            let begun = SummaryView::begun(tab_idx, filter, total_bytes);
            &&& begun.tab_idx == tab_idx && begun.filter == filter
            &&& begun.total_bytes == total_bytes
            &&& begun.cursor.dom() == Set::<Seq<char>>::empty()
            &&& begun.bytes_read == 0 && begun.records == 0 && !begun.eof
            &&& begun.scanned(records, cursor).eof <==> records.len() < LONG_OP_CHUNK_RECORDS
        }),
{
}

} // verus!
