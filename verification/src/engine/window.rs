//! Per-source state of the merge: a position and a window of records on
//! either side of it.

use crate::event::{Event, EventView, Timestamp};
use crate::filter::Filter;
use crate::position::{offset_after, offset_before, ByteLen, ByteOffset, SourceId};
use crate::source::{opposite, Direction, IoFailure, QueryBatch, QueryRecord, Source, SourceError};
use std::collections::VecDeque;
use std::sync::Arc;
use vstd::prelude::*;

verus! {

/// Default per-fetch batch size for the merge stepper: each refill asks the
/// source for up to this many matching records.  Larger batches amortize
/// seek cost; smaller ones keep the work per step bounded when the active
/// filter rejects most records.
pub const FETCH_BATCH_SIZE: usize = 64;

/// Maximum records kept behind the position of a single source.  When a step
/// would keep more, the farthest are dropped, to be fetched again if needed.
pub const BUFFER_LIMIT: usize = 256;

/// Per-line error surfaced by the merge.
///
/// Shares the underlying error so that buffered records can be copied.
#[derive(Debug)]
pub struct MergeError(pub Arc<SourceError>);

/// Another handle to the same value, by `std::sync::Arc`'s `Clone`: the
/// handle points to what `shared` points to.
#[verifier::external_body]
pub(crate) fn share<T>(shared: &Arc<T>) -> (copy: Arc<T>)
    ensures
        copy == *shared,
{
    Arc::clone(shared)
}

impl Clone for MergeError {
    fn clone(&self) -> (copy: Self)
        ensures
            copy == *self,
    {
        MergeError(share(&self.0))
    }
}

impl MergeError {
    /// The error as a line of text.
    pub fn describe(&self) -> (text: String)
        ensures
            text@ == self.0.text(),
    {
        self.0.describe()
    }
}

/// What a record says, whichever source it came from.
#[verifier::ext_equal]
pub struct RecordView {
    pub offset: u64,
    pub length: u64,
    pub event: Result<EventView, SourceError>,
    pub raw: Seq<char>,
}

impl RecordView {
    /// The offset just past the record.
    pub open spec fn end(self) -> int {
        offset_after(self.offset as int, self.length as int)
    }

    /// The record's time, if its line could be read.
    pub open spec fn time(self) -> Option<Timestamp> {
        match self.event {
            Ok(event) => Some(event.time),
            Err(_) => None,
        }
    }
}

/// What an event result says.
pub open spec fn event_view(event: Result<Event, MergeError>) -> Result<EventView, SourceError> {
    match event {
        Ok(event) => Ok(event@),
        Err(error) => Err(*error.0),
    }
}

/// A record in a window.
#[derive(Debug)]
pub struct BufferedRecord {
    pub offset: ByteOffset,
    pub length: ByteLen,
    pub event: Result<Event, MergeError>,
    pub raw: String,
}

impl View for BufferedRecord {
    type V = RecordView;

    open spec fn view(&self) -> RecordView {
        RecordView {
            offset: self.offset.0,
            length: self.length.0,
            event: event_view(self.event),
            raw: self.raw@,
        }
    }
}

impl Clone for BufferedRecord {
    fn clone(&self) -> (copy: Self)
        ensures
            copy@ == self@,
    {
        BufferedRecord {
            offset: self.offset,
            length: self.length,
            event: match &self.event {
                Ok(event) => Ok(event.clone()),
                Err(error) => Err(error.clone()),
            },
            raw: self.raw.clone(),
        }
    }
}

impl View for QueryRecord {
    type V = RecordView;

    open spec fn view(&self) -> RecordView {
        RecordView {
            offset: self.offset.0,
            length: self.length.0,
            event: match self.event {
                Ok(event) => Ok(event@),
                Err(error) => Err(error),
            },
            raw: self.raw@,
        }
    }
}

impl BufferedRecord {
    fn from_query(record: QueryRecord) -> (buffered: Self)
        ensures
            buffered@ == record@,
    {
        let QueryRecord { offset, length, event, raw } = record;
        BufferedRecord {
            offset,
            length,
            event: match event {
                Ok(event) => Ok(event),
                Err(error) => Err(MergeError(Arc::new(error))),
            },
            raw,
        }
    }
}

/// What a source answered to a query.
#[verifier::ext_equal]
pub struct BatchView {
    pub records: Seq<RecordView>,
    pub eof: bool,
    pub walked: u64,
}

impl View for QueryBatch {
    type V = BatchView;

    open spec fn view(&self) -> BatchView {
        BatchView {
            records: self.records@.map_values(|r: QueryRecord| r@),
            eof: self.eof,
            walked: self.walked_bytes.0,
        }
    }
}

/// A source's answer: a batch, or why it could not be read.
pub type Answer = Result<QueryBatch, IoFailure>;

/// The bytes that an answer says were walked.
pub open spec fn walked_by(answer: Answer) -> u64 {
    match answer {
        Ok(batch) => batch.walked_bytes.0,
        Err(_) => 0,
    }
}

/// State of one source in the merge.
///
/// `forward` holds records at or after `position`, nearest first;
/// `backward` those that end at or before it, nearest first.  An end mark
/// says that no record lies beyond the cached ones.
#[verifier::ext_equal]
pub struct WindowView {
    pub id: Seq<char>,
    pub position: u64,
    pub forward: Seq<RecordView>,
    pub backward: Seq<RecordView>,
    pub forward_eof: bool,
    pub backward_eof: bool,
}

/// At most the first `n` items.
pub open spec fn at_most<T>(s: Seq<T>, n: int) -> Seq<T> {
    if s.len() <= n {
        s
    } else {
        s.take(n)
    }
}

impl WindowView {
    /// The window of a source at `position`, with nothing cached.
    pub open spec fn fresh(id: Seq<char>, position: u64) -> WindowView {
        WindowView {
            id,
            position,
            forward: Seq::empty(),
            backward: Seq::empty(),
            forward_eof: false,
            backward_eof: false,
        }
    }

    /// The records cached in a direction, nearest first.
    pub open spec fn buf(self, dir: Direction) -> Seq<RecordView> {
        match dir {
            Direction::Forward => self.forward,
            Direction::Backward => self.backward,
        }
    }

    /// The end mark of a direction.
    pub open spec fn eof(self, dir: Direction) -> bool {
        match dir {
            Direction::Forward => self.forward_eof,
            Direction::Backward => self.backward_eof,
        }
    }

    /// The window with other records cached in a direction.
    pub open spec fn with_buf(self, dir: Direction, records: Seq<RecordView>) -> WindowView {
        match dir {
            Direction::Forward => WindowView { forward: records, ..self },
            Direction::Backward => WindowView { backward: records, ..self },
        }
    }

    /// The window with another end mark in a direction.
    pub open spec fn with_eof(self, dir: Direction, eof: bool) -> WindowView {
        match dir {
            Direction::Forward => WindowView { forward_eof: eof, ..self },
            Direction::Backward => WindowView { backward_eof: eof, ..self },
        }
    }

    /// Whether the next record of a direction is known, or known not to
    /// exist.
    pub open spec fn ready(self, dir: Direction) -> bool {
        self.buf(dir).len() > 0 || self.eof(dir)
    }

    /// Whether a fill in this direction asks the source.  A backward walk
    /// from the start of the source has nothing to find.
    pub open spec fn must_query(self, dir: Direction) -> bool {
        !self.ready(dir) && !(dir == Direction::Backward && self.position == 0)
    }

    /// The position after a walk over `walked` bytes that found nothing.
    pub open spec fn walked_on(self, dir: Direction, walked: u64) -> u64 {
        match dir {
            Direction::Forward => offset_after(self.position as int, walked as int) as u64,
            Direction::Backward => offset_before(self.position as int, walked as int) as u64,
        }
    }

    /// The window once the source has answered.
    ///
    /// A batch is cached, with its end mark.  One without a match moves the
    /// position to where the walk ended, so that the same stretch is not
    /// walked again.  A failure becomes an error record of no length at the
    /// position, and ends the direction.
    pub open spec fn absorbed(self, dir: Direction, answer: Answer) -> WindowView {
        match answer {
            Ok(batch) => {
                let moved = WindowView {
                    position: if batch@.records.len() == 0 {
                        self.walked_on(dir, batch@.walked)
                    } else {
                        self.position
                    },
                    ..self
                };
                moved.with_buf(dir, self.buf(dir) + batch@.records).with_eof(
                    dir,
                    self.eof(dir) || batch@.eof,
                )
            },
            Err(failure) => {
                let error = RecordView {
                    offset: self.position,
                    length: 0,
                    event: Err(SourceError::Io(failure)),
                    raw: Seq::empty(),
                };
                self.with_buf(dir, self.buf(dir).push(error)).with_eof(dir, true)
            },
        }
    }

    /// The window without its nearest record in a direction, which moves to
    /// the other side of the position.
    pub open spec fn popped(self, dir: Direction) -> WindowView {
        let head = self.buf(dir)[0];
        let back = dir.reversed();
        let moved = WindowView {
            position: match dir {
                Direction::Forward => head.end() as u64,
                Direction::Backward => head.offset,
            },
            ..self
        };
        moved.with_buf(dir, self.buf(dir).drop_first()).with_buf(
            back,
            at_most(seq![head] + self.buf(back), BUFFER_LIMIT as int),
        ).with_eof(back, false)
    }

    /// The window at the same position with nothing cached.
    pub open spec fn cleared(self) -> WindowView {
        WindowView::fresh(self.id, self.position)
    }
}

/// What a [`MergeRecord`] says.
#[verifier::ext_equal]
pub struct MergeRecordView {
    pub source: Seq<char>,
    pub record: RecordView,
}

/// A single record produced by the merge: a parsed event, or the error met
/// while reading its line.  Where a source fails to answer, a record of no
/// length stands for the failure; a record on disk has some length.
#[derive(Debug)]
pub struct MergeRecord {
    /// source the record came from
    pub source_id: SourceId,
    /// byte offset at which the record begins
    pub offset: ByteOffset,
    /// length of the record in bytes
    pub length: ByteLen,
    /// the parsed event, or what is wrong with the line
    pub event: Result<Event, MergeError>,
    /// the record's bytes without the line terminator
    pub raw: String,
}

impl View for MergeRecord {
    type V = MergeRecordView;

    open spec fn view(&self) -> MergeRecordView {
        MergeRecordView {
            source: self.source_id@,
            record: RecordView {
                offset: self.offset.0,
                length: self.length.0,
                event: event_view(self.event),
                raw: self.raw@,
            },
        }
    }
}

impl MergeRecord {
    /// The parsed event, or what is wrong with the line.
    pub fn event(&self) -> (event: &Result<Event, MergeError>)
        ensures
            *event == self.event,
    {
        &self.event
    }

    /// The record's length in bytes.
    pub fn length(&self) -> (length: ByteLen)
        ensures
            length == self.length,
    {
        self.length
    }
}

/// Per-source state of the merge.
pub struct SourceWindow<S: Source> {
    pub source: Arc<S>,
    pub id: SourceId,
    pub position: ByteOffset,
    pub forward_buf: VecDeque<BufferedRecord>,
    pub backward_buf: VecDeque<BufferedRecord>,
    pub forward_eof: bool,
    pub backward_eof: bool,
}

pub open spec fn records_view(buf: VecDeque<BufferedRecord>) -> Seq<RecordView> {
    buf@.map_values(|r: BufferedRecord| r@)
}

impl<S: Source> View for SourceWindow<S> {
    type V = WindowView;

    open spec fn view(&self) -> WindowView {
        WindowView {
            id: self.id@,
            position: self.position.0,
            forward: records_view(self.forward_buf),
            backward: records_view(self.backward_buf),
            forward_eof: self.forward_eof,
            backward_eof: self.backward_eof,
        }
    }
}

impl<S: Source> SourceWindow<S> {
    pub fn new(source: Arc<S>, id: SourceId, position: ByteOffset) -> (window: Self)
        ensures
            window@ == WindowView::fresh(id@, position.0),
            window.source == source,
    {
        let window = SourceWindow {
            source,
            id,
            position,
            forward_buf: VecDeque::new(),
            backward_buf: VecDeque::new(),
            forward_eof: false,
            backward_eof: false,
        };
        assert(window@.forward =~= Seq::<RecordView>::empty());
        assert(window@.backward =~= Seq::<RecordView>::empty());
        window
    }

    /// Whether the next record of a direction is known, or known not to
    /// exist.
    pub fn ready(&self, dir: Direction) -> (yes: bool)
        ensures
            yes == self@.ready(dir),
    {
        match dir {
            Direction::Forward => self.forward_buf.len() > 0 || self.forward_eof,
            Direction::Backward => self.backward_buf.len() > 0 || self.backward_eof,
        }
    }

    pub fn eof(&self, dir: Direction) -> (mark: bool)
        ensures
            mark == self@.eof(dir),
    {
        match dir {
            Direction::Forward => self.forward_eof,
            Direction::Backward => self.backward_eof,
        }
    }

    fn set_eof(&mut self, dir: Direction, mark: bool)
        ensures
            final(self)@ == old(self)@.with_eof(dir, mark),
            final(self).source == old(self).source,
    {
        match dir {
            Direction::Forward => {
                self.forward_eof = mark;
            },
            Direction::Backward => {
                self.backward_eof = mark;
            },
        }
    }

    fn push_back(&mut self, dir: Direction, record: BufferedRecord)
        ensures
            final(self)@ == old(self)@.with_buf(dir, old(self)@.buf(dir).push(record@)),
            final(self).source == old(self).source,
    {
        match dir {
            Direction::Forward => {
                self.forward_buf.push_back(record);
                assert(self@.forward =~= old(self)@.forward.push(record@));
            },
            Direction::Backward => {
                self.backward_buf.push_back(record);
                assert(self@.backward =~= old(self)@.backward.push(record@));
            },
        }
    }

    /// Takes in what the source answered, and returns the bytes walked.
    pub fn absorb(&mut self, dir: Direction, answer: Answer) -> (walked: ByteLen)
        ensures
            final(self)@ == old(self)@.absorbed(dir, answer),
            final(self).source == old(self).source,
            walked.0 == walked_by(answer),
    {
        let ghost start = self@;
        match answer {
            Ok(batch) => {
                let QueryBatch { records, eof, walked_bytes } = batch;
                if eof {
                    self.set_eof(dir, true);
                }
                if records.len() == 0 {
                    self.position = match dir {
                        Direction::Forward => self.position.advance(walked_bytes),
                        Direction::Backward => self.position.retreat(walked_bytes),
                    };
                }
                let ghost moved = self@;
                let ghost views = batch@.records;
                assert(moved.with_buf(dir, moved.buf(dir) + views.take(0)) =~= moved) by {
                    assert(moved.buf(dir) + views.take(0) =~= moved.buf(dir));
                }
                for record in records_iter: records
                    invariant
                        records_iter.seq() == batch.records@,
                        views == batch.records@.map_values(|r: QueryRecord| r@),
                        self.source == old(self).source,
                        self@ == moved.with_buf(
                            dir,
                            moved.buf(dir) + views.take(records_iter.index()),
                        ),
                {
                    let ghost k = records_iter.index();
                    assert(views[k] == record@);
                    self.push_back(dir, BufferedRecord::from_query(record));
                    assert((moved.buf(dir) + views.take(k)).push(record@) =~= moved.buf(dir)
                        + views.take(k + 1));
                }
                assert(views.take(views.len() as int) =~= views);
                assert(self@ =~= start.absorbed(dir, Ok(batch)));
                walked_bytes
            },
            Err(failure) => {
                let error = BufferedRecord {
                    offset: self.position,
                    length: ByteLen(0),
                    event: Err(MergeError(Arc::new(SourceError::Io(failure)))),
                    raw: String::new(),
                };
                self.push_back(dir, error);
                self.set_eof(dir, true);
                ByteLen(0)
            },
        }
    }

    /// Makes the next record of a direction known where it is not, asking
    /// the source if need be.  Returns the bytes walked, those of rejected
    /// records among them.
    pub fn fill(
        &mut self,
        dir: Direction,
        filter: &Filter,
        batch_size: usize,
        max_records_to_scan: Option<usize>,
    ) -> (walked: ByteLen)
        ensures
            final(self).source == old(self).source,
            old(self)@.ready(dir) ==> final(self)@ == old(self)@ && walked.0 == 0,
            !old(self)@.ready(dir) && !old(self)@.must_query(dir) ==> final(self)@ == old(
                self,
            )@.with_eof(dir, true) && walked.0 == 0,
            old(self)@.must_query(dir) ==> exists|answer: Answer|
                {
                    &&& #[trigger] call_ensures(
                        S::query_bounded,
                        (
                            &*old(self).source,
                            ByteOffset(old(self)@.position),
                            dir,
                            batch_size,
                            max_records_to_scan,
                            filter,
                        ),
                        answer,
                    )
                    &&& final(self)@ == old(self)@.absorbed(dir, answer)
                    &&& walked.0 == walked_by(answer)
                },
    {
        if self.ready(dir) {
            return ByteLen(0);
        }
        if dir == Direction::Backward && self.position.get() == 0 {
            self.set_eof(dir, true);
            return ByteLen(0);
        }
        let answer = self.source.query_bounded(
            self.position,
            dir,
            batch_size,
            max_records_to_scan,
            filter,
        );
        self.absorb(dir, answer)
    }

    /// Takes the nearest record of a direction and keeps a copy on the other
    /// side of the position, so that a step back replays it.
    pub fn pop(&mut self, dir: Direction) -> (record: MergeRecord)
        requires
            old(self)@.buf(dir).len() > 0,
        ensures
            final(self)@ == old(self)@.popped(dir),
            final(self).source == old(self).source,
            record@ == (MergeRecordView {
                source: old(self)@.id,
                record: old(self)@.buf(dir)[0],
            }),
    {
        let ghost start = self@;
        let head = match dir {
            Direction::Forward => self.forward_buf.pop_front().unwrap(),
            Direction::Backward => self.backward_buf.pop_front().unwrap(),
        };
        assert(head@ == start.buf(dir)[0]);
        assert(self@.buf(dir) =~= start.buf(dir).drop_first());
        self.position = match dir {
            Direction::Forward => head.offset.advance(head.length),
            Direction::Backward => head.offset,
        };
        let ghost other = start.buf(dir.reversed());
        match dir {
            Direction::Forward => {
                self.backward_buf.push_front(head.clone());
                self.backward_buf.truncate(BUFFER_LIMIT);
                assert(self@.backward =~= at_most(seq![head@] + other, BUFFER_LIMIT as int));
            },
            Direction::Backward => {
                self.forward_buf.push_front(head.clone());
                self.forward_buf.truncate(BUFFER_LIMIT);
                assert(self@.forward =~= at_most(seq![head@] + other, BUFFER_LIMIT as int));
            },
        }
        self.set_eof(opposite(dir), false);
        MergeRecord {
            source_id: self.id.clone(),
            offset: head.offset,
            length: head.length,
            event: head.event,
            raw: head.raw,
        }
    }

    /// Drops what is cached.  Used on filter changes: the cached records
    /// passed the previous filter.
    pub fn clear_buffers(&mut self)
        ensures
            final(self)@ == old(self)@.cleared(),
            final(self).source == old(self).source,
    {
        self.forward_buf.clear();
        self.backward_buf.clear();
        self.forward_eof = false;
        self.backward_eof = false;
        assert(self@.forward =~= Seq::<RecordView>::empty());
        assert(self@.backward =~= Seq::<RecordView>::empty());
    }
}

/// What an answer adds: its records behind those that wait, and the end where
/// it is told.  One without records moves the place by what was walked, and one
/// that failed is an error at the place, the last of that direction.
pub proof fn law_answers_are_taken_up(
    window: WindowView,
    batch: QueryBatch,
    failure: IoFailure,
)
    ensures
        ({
            let forward = window.absorbed(Direction::Forward, Ok(batch));
            let backward = window.absorbed(Direction::Backward, Ok(batch));
            let walked = batch.walked_bytes.0;
            let empty = batch@.records.len() == 0;
            &&& forward.forward == window.forward + batch@.records
            &&& forward.backward == window.backward
            &&& backward.backward == window.backward + batch@.records
            &&& backward.forward == window.forward
            &&& forward.forward_eof == (window.forward_eof || batch.eof)
            &&& forward.backward_eof == window.backward_eof
            &&& backward.backward_eof == (window.backward_eof || batch.eof)
            &&& backward.forward_eof == window.forward_eof
            &&& !empty ==> forward.position == window.position && backward.position
                == window.position
            &&& empty && window.position + walked <= u64::MAX ==> forward.position
                == window.position + walked
            &&& empty && walked <= window.position ==> backward.position == window.position
                - walked
            &&& empty && walked > window.position ==> backward.position == 0
            &&& forward.id == window.id && backward.id == window.id
        }),
        ({
            let failed = window.absorbed(Direction::Forward, Err(failure));
            &&& failed.forward.len() == window.forward.len() + 1
            &&& failed.forward.last().offset == window.position
            &&& failed.forward.last().length == 0
            &&& failed.forward.last().event == Err::<EventView, SourceError>(
                SourceError::Io(failure),
            )
            &&& failed.forward_eof && failed.position == window.position
        }),
        ({
            let failed = window.absorbed(Direction::Backward, Err(failure));
            &&& failed.backward.len() == window.backward.len() + 1
            &&& failed.backward.last().offset == window.position
            &&& failed.backward.last().length == 0
            &&& failed.backward.last().event == Err::<EventView, SourceError>(
                SourceError::Io(failure),
            )
            &&& failed.backward_eof && failed.position == window.position
        }),
{
}

/// Taking the next record forward moves the place past its end, back to its
/// start; the record then waits first the other way.
pub proof fn law_taking_a_record_moves_past_it(window: WindowView, dir: Direction)
    requires
        window.buf(dir).len() > 0,
    ensures
        ({
            let head = window.buf(dir)[0];
            let after = window.popped(dir);
            &&& dir == Direction::Forward && head.offset + head.length <= u64::MAX
                ==> after.position == head.offset + head.length
            &&& dir == Direction::Backward ==> after.position == head.offset
            &&& dir == Direction::Forward ==> after.forward == window.forward.drop_first()
                && after.backward.len() > 0 && after.backward[0] == head
            &&& dir == Direction::Backward ==> after.backward == window.backward.drop_first()
                && after.forward.len() > 0 && after.forward[0] == head
            &&& after.id == window.id
        }),
{
}

} // verus!
