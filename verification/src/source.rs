//! Sources of log records, and what they answer.

use crate::event::{Event, Timestamp};
use crate::filter::Filter;
use crate::position::{ByteLen, ByteOffset, SourceId};
use vstd::prelude::*;

verus! {

/// Direction of a walk over a source.
#[derive(Debug, Clone, Copy, PartialEq, Eq, Structural)]
pub enum Direction {
    /// towards later records
    Forward,
    /// towards earlier records
    Backward,
}

impl Direction {
    /// The other direction.
    pub open spec fn reversed(self) -> Direction {
        match self {
            Direction::Forward => Direction::Backward,
            Direction::Backward => Direction::Forward,
        }
    }
}

/// Returns the opposite direction.
pub fn opposite(d: Direction) -> (o: Direction)
    ensures
        o == d.reversed(),
{
    match d {
        Direction::Forward => Direction::Backward,
        Direction::Backward => Direction::Forward,
    }
}

/// A source could not be read; the text says why.
#[derive(Debug)]
pub struct IoFailure(pub String);

/// An error met while reading a source.
#[derive(Debug)]
pub enum SourceError {
    /// the source could not be read
    Io(IoFailure),
    /// a line is not a record
    Parse(String),
    /// a record is dated before the one that precedes it
    OutOfOrder { source_id: SourceId, seen: Timestamp, last_seen: Timestamp },
}

impl SourceError {
    /// The error as a line of text.
    pub open spec fn text(self) -> Seq<char> {
        match self {
            SourceError::Io(failure) => failure.0@,
            SourceError::Parse(text) => text@,
            SourceError::OutOfOrder { source_id, .. } => "warning: "@ + source_id@
                + ": record is out of order"@,
        }
    }

    /// The error as a line of text.
    pub fn describe(&self) -> (text: String)
        ensures
            text@ == self.text(),
    {
        match self {
            SourceError::Io(failure) => failure.0.clone(),
            SourceError::Parse(text) => text.clone(),
            SourceError::OutOfOrder { source_id, .. } => {
                let mut text = "warning: ".to_owned();
                text.append(source_id.as_str());
                text.append(": record is out of order");
                text
            },
        }
    }
}

/// A record as a source returns it.
#[derive(Debug)]
pub struct QueryRecord {
    /// byte offset at which the record begins
    pub offset: ByteOffset,
    /// length in bytes, with the trailing newline if there is one
    pub length: ByteLen,
    /// the parsed event, or what is wrong with the line
    pub event: Result<Event, SourceError>,
    /// the record's bytes without the line terminator
    pub raw: String,
}

/// What a source answers to a query.
#[derive(Debug)]
pub struct QueryBatch {
    /// the matching records, nearest first
    pub records: Vec<QueryRecord>,
    /// no record lies beyond those that were examined
    pub eof: bool,
    /// bytes of all the records that were examined, matching or not
    pub walked_bytes: ByteLen,
}

/// A store of records in time order.
pub trait Source {
    /// The source's id.
    fn id(&self) -> SourceId;

    /// The length of the source in bytes.
    fn byte_len(&self) -> Result<u64, IoFailure>;

    /// Up to `count` records that pass `filter`, walking from `position` in
    /// `direction` and examining at most `max_records` records where that is
    /// given.
    fn query_bounded(
        &self,
        position: ByteOffset,
        direction: Direction,
        count: usize,
        max_records: Option<usize>,
        filter: &Filter,
    ) -> Result<QueryBatch, IoFailure>;
}

/// The directions are each other's reverse.
pub proof fn law_directions_are_reversed(dir: Direction)
    ensures
        dir.reversed() != dir,
        dir.reversed().reversed() == dir,
{
}

/// What an error says: what failed, what could not be read, or whose record is
/// out of order.
pub proof fn law_errors_say_what_is_wrong(
    failure: IoFailure,
    text: String,
    source_id: SourceId,
    seen: Timestamp,
    last_seen: Timestamp,
)
    ensures
        SourceError::Io(failure).text() == failure.0@,
        SourceError::Parse(text).text() == text@,
        (SourceError::OutOfOrder { source_id, seen, last_seen }).text() == "warning: "@
            + source_id@ + ": record is out of order"@,
{
}

} // verus!
