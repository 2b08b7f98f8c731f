//! The lines that a tab shows, and the records that they come from.

use crate::engine::EngineEvent;
use crate::event::{EventView, Timestamp};
use crate::position::ByteLen;
use crate::text::views;
use vstd::prelude::*;

verus! {

/// A record of a tab, or the error that stands in its place.
#[derive(Debug)]
pub enum Row {
    Event(EngineEvent),
    Error(String),
}

/// What a [`Row`] says.
#[verifier::ext_equal]
pub enum RowView {
    Event { source: Seq<char>, time: Timestamp, tiebreaker: u64, event: EventView },
    Error(Seq<char>),
}

impl View for Row {
    type V = RowView;

    open spec fn view(&self) -> RowView {
        match self {
            Row::Event(event) => RowView::Event {
                source: event.position.source@,
                time: event.position.time,
                tiebreaker: event.position.tiebreaker,
                event: event.event@,
            },
            Row::Error(text) => RowView::Error(text@),
        }
    }
}

/// What it took to fetch the records.
#[derive(Debug, Clone, Copy, PartialEq, Eq, Structural)]
pub struct ParseStats {
    pub records: u64,
    pub walked_bytes: ByteLen,
    pub elapsed_nanos: u64,
}

/// A tab's content: its records and the lines that show them.
#[derive(Debug)]
pub struct Materialized {
    pub events: Vec<Row>,
    /// display lines
    pub formatted: Vec<String>,
    /// for each line, the record that it belongs to
    pub event_for_line: Vec<usize>,
    /// for each record, its first line
    pub first_line_for_event: Vec<usize>,
    pub parse_stats: ParseStats,
}

/// What a [`Materialized`] holds.
#[verifier::ext_equal]
pub struct ContentView {
    pub events: Seq<RowView>,
    pub formatted: Seq<Seq<char>>,
    pub event_for_line: Seq<usize>,
    pub first_line_for_event: Seq<usize>,
    pub parse_stats: ParseStats,
}

impl View for Materialized {
    type V = ContentView;

    open spec fn view(&self) -> ContentView {
        ContentView {
            events: self.events@.map_values(|r: Row| r@),
            formatted: views(self.formatted@),
            event_for_line: self.event_for_line@,
            first_line_for_event: self.first_line_for_event@,
            parse_stats: self.parse_stats,
        }
    }
}

impl ContentView {
    /// Every record has its first line on record, and a line at least; lines
    /// follow the order of their records.
    pub open spec fn wf(self) -> bool {
        &&& self.first_line_for_event.len() >= self.events.len()
        &&& forall|i: int|
            0 <= i < self.events.len() ==> #[trigger] self.first_line_for_event[i]
                < self.formatted.len()
        &&& forall|i: int, j: int|
            0 <= i < j < self.events.len() ==> #[trigger] self.first_line_for_event[i]
                < #[trigger] self.first_line_for_event[j]
        &&& self.first_line_for_event.len() > self.events.len() ==> self.events.len() == 0
        &&& forall|i: int, j: int|
            0 <= i <= j < self.event_for_line.len() ==> #[trigger] self.event_for_line[i]
                <= #[trigger] self.event_for_line[j]
        &&& forall|i: int|
            0 <= i < self.event_for_line.len() ==> #[trigger] self.event_for_line[i] < usize::MAX
                && (self.event_for_line[i] == 0 || self.event_for_line[i] < self.events.len())
    }

    /// No record and no line.
    pub open spec fn empty() -> ContentView {
        ContentView {
            events: Seq::empty(),
            formatted: Seq::empty(),
            event_for_line: Seq::empty(),
            first_line_for_event: Seq::empty(),
            parse_stats: no_stats(),
        }
    }

    /// A single line that stands for no record.
    pub open spec fn line(text: Seq<char>) -> ContentView {
        ContentView {
            events: Seq::empty(),
            formatted: seq![text],
            event_for_line: seq![0usize],
            first_line_for_event: seq![0usize],
            parse_stats: no_stats(),
        }
    }

    /// What a summary shows until it has been computed.
    pub open spec fn placeholder() -> ContentView {
        ContentView::line("Computing summary..."@)
    }

    /// What a summary shows once its computation has been stopped.
    pub open spec fn cancelled() -> ContentView {
        ContentView::line("summary cancelled — rerun with `f<enter>`"@)
    }
}

/// The statistics of no work at all.
pub open spec fn no_stats() -> ParseStats {
    ParseStats { records: 0, walked_bytes: ByteLen(0), elapsed_nanos: 0 }
}

impl Default for ParseStats {
    fn default() -> (stats: Self)
        ensures
            stats == no_stats(),
    {
        ParseStats { records: 0, walked_bytes: ByteLen(0), elapsed_nanos: 0 }
    }
}

impl Default for Materialized {
    fn default() -> (content: Self)
        ensures
            content@ == ContentView::empty(),
            content@.wf(),
    {
        let content = Materialized {
            events: Vec::new(),
            formatted: Vec::new(),
            event_for_line: Vec::new(),
            first_line_for_event: Vec::new(),
            parse_stats: ParseStats::default(),
        };
        assert(content@ =~= ContentView::empty());
        content
    }
}

/// Placeholder rows for a summary tab whose content has not been computed.
pub fn summary_placeholder_rows() -> (content: Materialized)
    ensures
        content@ == ContentView::placeholder(),
        content@.wf(),
{
    single_line("Computing summary...")
}

/// The rows of a summary tab whose computation has been stopped.
pub fn summary_cancelled_rows() -> (content: Materialized)
    ensures
        content@ == ContentView::cancelled(),
        content@.wf(),
{
    single_line("summary cancelled — rerun with `f<enter>`")
}

fn single_line(text: &str) -> (content: Materialized)
    ensures
        content@ == ContentView::line(text@),
        content@.wf(),
{
    let mut formatted: Vec<String> = Vec::new();
    formatted.push(text.to_owned());
    let mut event_for_line: Vec<usize> = Vec::new();
    event_for_line.push(0);
    let mut first_line_for_event: Vec<usize> = Vec::new();
    first_line_for_event.push(0);
    let content = Materialized {
        events: Vec::new(),
        formatted,
        event_for_line,
        first_line_for_event,
        parse_stats: ParseStats::default(),
    };
    assert(content@ =~= ContentView::line(text@));
    content
}

} // verus!
