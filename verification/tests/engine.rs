//! The merge over sources that live in memory.

use seer::engine::{
    Engine, MergeRecord, Stepper, StepperOptions, BATCHED_SCAN_LIMIT, BUFFER_LIMIT,
    FETCH_BATCH_SIZE,
};
use seer::engine::window::SourceWindow;
use seer::event::{Event, Hostname, Level, LoggerName, Pid, Timestamp};
use seer::filter::{EventPredicate, FieldName, Filter, Form, Predicate};
use seer::long_op::{LongOp, SummaryOp, TabIdx, LONG_OP_CHUNK_RECORDS};
use seer::pattern::compile_pattern;
use seer::position::{ByteLen, ByteOffset, Cursor, LogStreamPosition, SourceId};
use seer::source::{
    opposite, Direction, IoFailure, QueryBatch, QueryRecord, Source, SourceError,
};
use seer::walk::{step_backward_n, Emitter};
use std::sync::atomic::{AtomicUsize, Ordering};
use std::sync::Arc;

fn t(secs: i64) -> Timestamp {
    Timestamp { secs, nanos: 0 }
}

fn event_at(time: Timestamp, level: Level, msg: &str) -> Event {
    Event {
        time,
        level,
        name: LoggerName("x".to_string()),
        hostname: Hostname("h".to_string()),
        pid: Pid(1),
        msg: msg.to_string(),
        v: 0,
        extra: Vec::new(),
    }
}

/// A line of a log: an event, or text that is none.
enum Entry {
    Event(Timestamp, Level, String),
    Junk(String),
}

impl Entry {
    fn raw(&self) -> String {
        match self {
            Entry::Event(time, _, msg) => format!("{}:{}", time.secs, msg),
            Entry::Junk(text) => text.clone(),
        }
    }

    fn event(&self) -> Result<Event, SourceError> {
        match self {
            Entry::Event(time, level, msg) => Ok(event_at(*time, *level, msg)),
            Entry::Junk(text) => Err(SourceError::Parse(text.clone())),
        }
    }
}

/// A log in memory, one line per entry, that counts its queries.
struct MemSource {
    name: String,
    entries: Vec<Entry>,
    gone: bool,
    queries: AtomicUsize,
}

impl MemSource {
    fn new(name: &str) -> Self {
        MemSource {
            name: name.to_string(),
            entries: Vec::new(),
            gone: false,
            queries: AtomicUsize::new(0),
        }
    }

    fn with(name: &str, secs: &[i64]) -> Self {
        let mut source = MemSource::new(name);
        for s in secs {
            source.add(*s, &format!("m{s}"));
        }
        source
    }

    fn add(&mut self, secs: i64, msg: &str) {
        self.add_at(secs, Level::Info, msg);
    }

    fn add_at(&mut self, secs: i64, level: Level, msg: &str) {
        self.entries.push(Entry::Event(t(secs), level, msg.to_string()));
    }

    fn junk(&mut self, text: &str) {
        self.entries.push(Entry::Junk(text.to_string()));
    }

    fn len(&self) -> u64 {
        self.entries.iter().map(|e| e.raw().len() as u64 + 1).sum()
    }

    fn passes(entry: &Entry, filter: &Filter) -> bool {
        let (level, msg) = match entry {
            Entry::Event(_, level, msg) => (*level, msg),
            Entry::Junk(_) => return true,
        };
        filter.predicates().iter().all(|p| match p {
            Predicate::SourceIdMatches { .. } => true,
            Predicate::Event(EventPredicate::FieldEquals { value, form, .. }) => {
                (value == msg) == (*form == Form::Affirmed)
            }
            Predicate::Event(EventPredicate::MsgMatches { .. }) => true,
            Predicate::Event(EventPredicate::Other(text)) => {
                text == "level>=warn" && level >= Level::Warn
            }
        })
    }
}

impl Source for MemSource {
    fn id(&self) -> SourceId {
        SourceId::new(self.name.clone())
    }

    fn byte_len(&self) -> Result<u64, IoFailure> {
        if self.gone {
            return Err(IoFailure("gone".to_string()));
        }
        Ok(self.len())
    }

    fn query_bounded(
        &self,
        position: ByteOffset,
        direction: Direction,
        count: usize,
        max_records: Option<usize>,
        filter: &Filter,
    ) -> Result<QueryBatch, IoFailure> {
        self.queries.fetch_add(1, Ordering::SeqCst);
        if self.gone {
            return Err(IoFailure("gone".to_string()));
        }
        let mut placed: Vec<(u64, &Entry)> = Vec::new();
        let mut at = 0;
        for entry in &self.entries {
            placed.push((at, entry));
            at += entry.raw().len() as u64 + 1;
        }
        let wanted: Vec<&(u64, &Entry)> = match direction {
            Direction::Forward => placed.iter().filter(|p| p.0 >= position.0).collect(),
            Direction::Backward => {
                placed.iter().rev().filter(|p| p.0 < position.0).collect()
            }
        };
        let mut batch =
            QueryBatch { records: Vec::new(), eof: true, walked_bytes: ByteLen(0) };
        for (examined, (offset, entry)) in wanted.iter().enumerate() {
            if batch.records.len() == count || max_records == Some(examined) {
                batch.eof = false;
                break;
            }
            let length = entry.raw().len() as u64 + 1;
            batch.walked_bytes = ByteLen(batch.walked_bytes.0 + length);
            if MemSource::passes(entry, filter) {
                batch.records.push(QueryRecord {
                    offset: ByteOffset(*offset),
                    length: ByteLen(length),
                    event: entry.event(),
                    raw: entry.raw(),
                });
            }
        }
        Ok(batch)
    }
}

fn named(sources: &[Arc<MemSource>]) -> Vec<(SourceId, Arc<MemSource>)> {
    sources.iter().map(|s| (s.id(), Arc::clone(s))).collect()
}

fn make_stepper(sources: &[Arc<MemSource>]) -> Stepper<MemSource> {
    stepper_from(sources, Filter::default(), &Cursor::new())
}

fn stepper_from(
    sources: &[Arc<MemSource>],
    filter: Filter,
    cursor: &Cursor,
) -> Stepper<MemSource> {
    Stepper::with_options(named(sources), filter, cursor, StepperOptions::default())
}

fn engine_over(sources: Vec<MemSource>) -> Engine<MemSource> {
    let mut engine = Engine::new();
    for source in sources {
        engine.add_source(source);
    }
    engine
}

fn msg_of(record: &MergeRecord) -> String {
    record.event().as_ref().unwrap().msg.clone()
}

fn forward_msgs(stepper: &mut Stepper<MemSource>) -> Vec<String> {
    let mut out = Vec::new();
    while let Some(r) = stepper.step_forward() {
        out.push(msg_of(&r));
    }
    out
}

fn backward_msgs(stepper: &mut Stepper<MemSource>) -> Vec<String> {
    let mut out = Vec::new();
    while let Some(r) = stepper.step_backward() {
        out.push(msg_of(&r));
    }
    out
}

fn source_filter(pattern: &str, form: Form) -> Filter {
    Filter::new(vec![Predicate::SourceIdMatches {
        pattern: compile_pattern(pattern).unwrap(),
        form,
    }])
}

fn msg_filter(value: &str, form: Form) -> Filter {
    Filter::new(vec![Predicate::Event(EventPredicate::FieldEquals {
        field: FieldName::Msg,
        value: value.to_string(),
        form,
    })])
}

#[test]
fn empty_engine_yields_no_steps() {
    let mut stepper = make_stepper(&[]);
    assert!(stepper.step_forward().is_none());
    assert!(stepper.step_backward().is_none());
    assert!(stepper.cursor().is_empty());
}

#[test]
fn empty_source_yields_no_steps() {
    let sources = [Arc::new(MemSource::new("empty.log"))];
    let mut stepper = make_stepper(&sources);
    assert!(stepper.step_forward().is_none());
    assert!(stepper.step_backward().is_none());
    // the cursor still records the source, at its first byte
    assert_eq!(stepper.cursor().entries().len(), 1);
    assert_eq!(stepper.cursor().get(&sources[0].id()), Some(ByteOffset(0)));
}

#[test]
fn single_source_forward_yields_records_in_order() {
    let sources = [Arc::new(MemSource::with("a.log", &[10, 20, 30]))];
    let mut stepper = make_stepper(&sources);
    assert_eq!(forward_msgs(&mut stepper), vec!["m10", "m20", "m30"]);
    assert!(stepper.step_forward().is_none());
}

#[test]
fn single_source_backward_from_default_cursor_is_empty() {
    let sources = [Arc::new(MemSource::with("a.log", &[10, 20]))];
    let mut stepper = make_stepper(&sources);
    assert!(stepper.step_backward().is_none());
}

#[test]
fn forward_then_backward_round_trips() {
    let sources = [Arc::new(MemSource::with("a.log", &[10, 20, 30, 40]))];
    let mut stepper = make_stepper(&sources);
    let mut fwd = Vec::new();
    for _ in 0..4 {
        fwd.push(msg_of(&stepper.step_forward().unwrap()));
    }
    let mut bwd = Vec::new();
    for _ in 0..4 {
        bwd.push(msg_of(&stepper.step_backward().unwrap()));
    }
    let mut fwd_rev = fwd.clone();
    fwd_rev.reverse();
    assert_eq!(bwd, fwd_rev);
    assert!(stepper.step_backward().is_none());
    assert_eq!(forward_msgs(&mut stepper), fwd);
}

#[test]
fn multi_source_forward_merges_by_time() {
    let sources = [
        Arc::new(MemSource::with("a.log", &[10, 30])),
        Arc::new(MemSource::with("b.log", &[20, 40])),
    ];
    let mut stepper = make_stepper(&sources);
    assert_eq!(forward_msgs(&mut stepper), vec!["m10", "m20", "m30", "m40"]);
}

#[test]
fn multi_source_backward_is_reverse_of_forward() {
    let sources = [
        Arc::new(MemSource::with("a.log", &[10, 30])),
        Arc::new(MemSource::with("b.log", &[20, 40])),
    ];
    let mut stepper = make_stepper(&sources);
    let fwd = forward_msgs(&mut stepper);
    let bwd = backward_msgs(&mut stepper);
    let mut expected = fwd.clone();
    expected.reverse();
    assert_eq!(bwd, expected);
}

#[test]
fn forward_breaks_ties_by_source_add_order() {
    let mut a = MemSource::new("a.log");
    a.add(50, "a-tie");
    let mut b = MemSource::new("b.log");
    b.add(50, "b-tie");
    let mut stepper = make_stepper(&[Arc::new(a), Arc::new(b)]);
    assert_eq!(forward_msgs(&mut stepper), vec!["a-tie", "b-tie"]);
}

#[test]
fn backward_ties_emit_in_reverse_of_forward_ties() {
    let mut a = MemSource::new("a.log");
    a.add(50, "tie-a");
    let mut b = MemSource::new("b.log");
    b.add(50, "tie-b");
    let mut c = MemSource::new("c.log");
    c.add(50, "tie-c");
    let mut stepper = make_stepper(&[Arc::new(a), Arc::new(b), Arc::new(c)]);
    assert_eq!(forward_msgs(&mut stepper), vec!["tie-a", "tie-b", "tie-c"]);
    assert_eq!(backward_msgs(&mut stepper), vec!["tie-c", "tie-b", "tie-a"]);
}

#[test]
fn cursor_round_trips_across_steppers() {
    let sources = [
        Arc::new(MemSource::with("a.log", &[10, 30, 50])),
        Arc::new(MemSource::with("b.log", &[20, 40, 60])),
    ];
    let mut stepper = make_stepper(&sources);
    for _ in 0..3 {
        stepper.step_forward().unwrap();
    }
    let snapshot = stepper.cursor();
    let mut resumed = stepper_from(&sources, Filter::default(), &snapshot);
    assert_eq!(forward_msgs(&mut resumed), vec!["m40", "m50", "m60"]);
}

#[test]
fn cursor_default_starts_at_byte_zero() {
    let sources = [Arc::new(MemSource::with("a.log", &[10, 20]))];
    let mut stepper = stepper_from(&sources, Filter::default(), &Cursor::new());
    assert_eq!(forward_msgs(&mut stepper), vec!["m10", "m20"]);
}

#[test]
fn cursor_at_eof_walks_backward_only() {
    let source = Arc::new(MemSource::with("a.log", &[10, 20, 30]));
    let cursor = Cursor::with(vec![(source.id(), ByteOffset(source.len()))]);
    let mut stepper = stepper_from(&[source], Filter::default(), &cursor);
    assert!(stepper.step_forward().is_none());
    assert_eq!(backward_msgs(&mut stepper), vec!["m30", "m20", "m10"]);
}

#[test]
fn set_filter_drops_buffers_but_keeps_position() {
    let sources = [Arc::new(MemSource::with("a.log", &[10, 20, 30, 40]))];
    let mut stepper = make_stepper(&sources);
    assert_eq!(msg_of(&stepper.step_forward().unwrap()), "m10");
    assert_eq!(msg_of(&stepper.step_forward().unwrap()), "m20");
    stepper.set_filter(msg_filter("m30", Form::Negated));
    assert_eq!(msg_of(&stepper.step_forward().unwrap()), "m40");
    assert!(stepper.step_forward().is_none());
}

#[test]
fn source_id_filter_excludes_whole_source() {
    let sources = [
        Arc::new(MemSource::with("a.log", &[10, 30])),
        Arc::new(MemSource::with("b.log", &[20, 40])),
    ];
    let filter = source_filter(&regex::escape("b.log"), Form::Negated);
    let selected: Vec<Arc<MemSource>> = sources
        .iter()
        .filter(|s| filter.matches_source_id(&s.id()))
        .map(Arc::clone)
        .collect();
    let mut stepper = stepper_from(&selected, filter, &Cursor::new());
    assert_eq!(forward_msgs(&mut stepper), vec!["m10", "m30"]);
}

fn log_with_junk() -> [Arc<MemSource>; 1] {
    let mut a = MemSource::new("a.log");
    a.add(10, "m10");
    a.junk("not json");
    a.add(20, "m20");
    [Arc::new(a)]
}

#[test]
fn parse_errors_emit_inline() {
    let mut stepper = make_stepper(&log_with_junk());
    assert_eq!(msg_of(&stepper.step_forward().unwrap()), "m10");
    let broken = stepper.step_forward().unwrap();
    assert!(broken.event.is_err());
    assert_eq!(broken.event().as_ref().unwrap_err().describe(), "not json");
    assert_eq!(msg_of(&stepper.step_forward().unwrap()), "m20");
    assert!(stepper.step_forward().is_none());
}

#[test]
fn parse_errors_replay_on_backward_step() {
    let mut stepper = make_stepper(&log_with_junk());
    for _ in 0..3 {
        stepper.step_forward().unwrap();
    }
    assert_eq!(msg_of(&stepper.step_backward().unwrap()), "m20");
    assert!(stepper.step_backward().unwrap().event.is_err());
    assert_eq!(msg_of(&stepper.step_backward().unwrap()), "m10");
    assert!(stepper.step_backward().is_none());
}

#[test]
fn many_records_force_multiple_batch_fetches() {
    let n = (FETCH_BATCH_SIZE * 3 + 5) as i64;
    let secs: Vec<i64> = (0..n).collect();
    let source = Arc::new(MemSource::with("a.log", &secs));
    let mut stepper = make_stepper(&[Arc::clone(&source)]);
    assert_eq!(forward_msgs(&mut stepper).len(), n as usize);
    let calls = source.queries.load(Ordering::SeqCst);
    let expected_min = (n as usize).div_ceil(FETCH_BATCH_SIZE);
    assert!(calls >= expected_min, "expected at least {expected_min} fetches, got {calls}");
}

#[test]
fn buffer_trim_preserves_navigation_correctness() {
    let n = (BUFFER_LIMIT + 10) as i64;
    let secs: Vec<i64> = (0..n).collect();
    let mut stepper = make_stepper(&[Arc::new(MemSource::with("a.log", &secs))]);
    let fwd = forward_msgs(&mut stepper);
    assert_eq!(fwd.len(), n as usize);
    let bwd = backward_msgs(&mut stepper);
    let mut fwd_rev = fwd.clone();
    fwd_rev.reverse();
    assert_eq!(bwd, fwd_rev);
}

#[test]
fn step_backward_after_eof_works() {
    let mut stepper = make_stepper(&[Arc::new(MemSource::with("a.log", &[10, 20]))]);
    forward_msgs(&mut stepper);
    assert!(stepper.step_forward().is_none());
    assert_eq!(msg_of(&stepper.step_backward().unwrap()), "m20");
}

#[test]
fn merge_record_carries_offset_and_length() {
    let source = Arc::new(MemSource::with("a.log", &[10, 20, 30]));
    let mut stepper = make_stepper(&[Arc::clone(&source)]);
    let mut expected = ByteOffset::zero();
    while let Some(r) = stepper.step_forward() {
        assert_eq!(r.offset, expected);
        assert!(r.source_id.same(&source.id()));
        expected = expected.advance(r.length());
    }
    assert_eq!(expected.get(), source.len());
    assert_eq!(expected.retreat(ByteLen(source.len())), ByteOffset::zero());
}

#[test]
fn budgeted_step_preserves_time_order_with_mid_scan_sibling() {
    let mut a = MemSource::new("a.log");
    a.add(200, "match-a");
    let mut b = MemSource::new("b.log");
    for i in 1..=20 {
        b.add(i, "noise");
    }
    b.add(21, "match-b");
    let mut stepper = Stepper::with_options(
        named(&[Arc::new(a), Arc::new(b)]),
        msg_filter("noise", Form::Negated),
        &Cursor::new(),
        StepperOptions {
            batch_size: FETCH_BATCH_SIZE,
            max_records_to_scan_per_fill: Some(5),
        },
    );
    let mut msgs = Vec::new();
    loop {
        match stepper.step_forward() {
            Some(r) => msgs.push(msg_of(&r)),
            None => {
                if stepper.is_exhausted(Direction::Forward) {
                    break;
                }
            }
        }
    }
    assert_eq!(msgs, vec!["match-b", "match-a"]);
}

#[test]
fn filtered_total_bytes_sums_byte_lens_of_matching_sources() {
    let mut a = MemSource::new("a.log");
    a.add(10, "a1");
    let mut b = MemSource::new("b.log");
    b.add(20, "b1");
    let (a_size, b_size) = (a.len(), b.len());
    let engine = engine_over(vec![a, b]);
    assert_eq!(
        engine.filtered_total_bytes(&Filter::default()),
        ByteLen(a_size + b_size)
    );
    let path_filter = source_filter("b\\.log", Form::Negated);
    assert_eq!(engine.filtered_total_bytes(&path_filter), ByteLen(a_size));
}

#[test]
fn unreadable_source_counts_for_nothing() {
    let mut a = MemSource::with("a.log", &[10]);
    a.gone = true;
    let b = MemSource::with("b.log", &[20]);
    let b_size = b.len();
    let engine = engine_over(vec![a, b]);
    assert_eq!(engine.filtered_total_bytes(&Filter::default()), ByteLen(b_size));
    assert_eq!(engine.cursor_at_end().unwrap_err().0, "gone");
}

#[test]
fn filtered_total_bytes_empty_engine_is_zero() {
    let engine: Engine<MemSource> = Engine::new();
    assert_eq!(engine.filtered_total_bytes(&Filter::default()), ByteLen::zero());
}

#[test]
fn out_of_order_display_includes_source_id() {
    let err = SourceError::OutOfOrder {
        source_id: SourceId::new("x.log".to_string()),
        seen: t(20),
        last_seen: t(30),
    };
    let s = err.describe();
    assert!(s.starts_with("warning:"), "{s}");
    assert!(s.contains("x.log"), "{s}");
}

#[test]
fn source_errors_say_what_is_wrong() {
    assert_eq!(SourceError::Parse("no json".to_string()).describe(), "no json");
    assert_eq!(SourceError::Io(IoFailure("disk".to_string())).describe(), "disk");
}

fn engine_msgs(engine: &Engine<MemSource>, filter: &Filter) -> Vec<String> {
    let mut stepper = engine.stepper(filter.clone(), &Cursor::new());
    forward_msgs(&mut stepper)
}

#[test]
fn stepper_filters_by_source_id_regex() {
    let mut nexus = MemSource::new("/logs/nexus.log");
    nexus.add(10, "n1");
    nexus.add(20, "n2");
    let mut sled = MemSource::new("/logs/sled-agent.log");
    sled.add(15, "s1");
    let engine = engine_over(vec![nexus, sled]);
    let filter = source_filter("nexus", Form::Affirmed);
    assert_eq!(engine_msgs(&engine, &filter), vec!["n1", "n2"]);
    let filter = source_filter("nexus", Form::Negated);
    assert_eq!(engine_msgs(&engine, &filter), vec!["s1"]);
}

#[test]
fn source_id_filter_skips_sources_without_iterating() {
    let mut nexus = MemSource::new("/logs/nexus.log");
    nexus.add(10, "n1");
    let mut agent = MemSource::new("/logs/agent.log");
    agent.add(20, "a1");
    agent.gone = true;
    let engine = engine_over(vec![nexus, agent]);
    let mut stepper =
        engine.stepper(source_filter("nexus", Form::Affirmed), &Cursor::new());
    let mut records = Vec::new();
    while let Some(r) = stepper.step_forward() {
        records.push(r);
    }
    assert_eq!(records.len(), 1);
    assert_eq!(records[0].event().as_ref().unwrap().msg, "n1");
}

#[test]
fn unreadable_source_yields_its_error_once() {
    let mut agent = MemSource::with("agent.log", &[20]);
    agent.gone = true;
    let engine = engine_over(vec![agent, MemSource::with("b.log", &[5])]);
    let mut stepper = engine.stepper(Filter::default(), &Cursor::new());
    let first = stepper.step_forward().unwrap();
    assert_eq!(first.event().as_ref().unwrap_err().describe(), "gone");
    assert_eq!(msg_of(&stepper.step_forward().unwrap()), "m5");
    assert!(stepper.step_forward().is_none());
}

#[test]
fn source_id_filter_combines_with_event_filter() {
    let mut nexus = MemSource::new("nexus.log");
    nexus.add_at(1, Level::Info, "n-info");
    nexus.add_at(2, Level::Error, "n-error");
    let mut sled = MemSource::new("sled.log");
    sled.add_at(3, Level::Error, "s-error");
    let engine = engine_over(vec![nexus, sled]);
    let mut filter = source_filter("nexus", Form::Affirmed);
    filter.add_predicate(Predicate::Event(EventPredicate::Other("level>=warn".to_string())));
    assert_eq!(engine_msgs(&engine, &filter), vec!["n-error"]);
}

#[test]
fn cursor_at_end_positions_past_eof_for_every_source() {
    let mut a = MemSource::new("a.log");
    a.add(10, "a1");
    let mut b = MemSource::new("b.log");
    b.add(20, "b1");
    let (len_a, len_b) = (a.len(), b.len());
    let mut engine = Engine::new();
    let id_a = engine.add_source(a);
    let id_b = engine.add_source(b);
    let cursor = engine.cursor_at_end().unwrap();
    assert_eq!(cursor.get(&id_a), Some(ByteOffset(len_a)));
    assert_eq!(cursor.get(&id_b), Some(ByteOffset(len_b)));
    assert_eq!(cursor.byte_offset(), ByteOffset(len_a + len_b));

    let mut stepper = engine.stepper(Filter::default(), &cursor);
    assert!(stepper.step_forward().is_none());
    assert_eq!(msg_of(&stepper.step_backward().unwrap()), "b1");
    assert_eq!(msg_of(&stepper.step_backward().unwrap()), "a1");
    assert!(stepper.step_backward().is_none());
}

// what the merge keeps

#[test]
fn error_heads_come_before_events() {
    let mut a = MemSource::new("a.log");
    a.add(1, "early");
    let mut b = MemSource::new("b.log");
    b.junk("broken");
    let mut stepper = make_stepper(&[Arc::new(a), Arc::new(b)]);
    assert!(stepper.step_forward().unwrap().event.is_err());
    assert_eq!(msg_of(&stepper.step_forward().unwrap()), "early");
}

#[test]
fn walking_counts_every_examined_byte() {
    let source = Arc::new(MemSource::with("a.log", &[10, 20, 30]));
    let len = source.len();
    let mut stepper =
        stepper_from(&[source], msg_filter("m30", Form::Affirmed), &Cursor::new());
    assert_eq!(stepper.walked_bytes(), ByteLen(0));
    assert_eq!(forward_msgs(&mut stepper), vec!["m30"]);
    assert_eq!(stepper.walked_bytes(), ByteLen(len));
    assert_eq!(stepper.filter().predicates().len(), 1);
}

#[test]
fn filter_change_keeps_the_cursor() {
    let sources = [
        Arc::new(MemSource::with("a.log", &[10, 30])),
        Arc::new(MemSource::with("b.log", &[20, 40])),
    ];
    let mut stepper = make_stepper(&sources);
    stepper.step_forward().unwrap();
    stepper.step_forward().unwrap();
    let before = stepper.cursor();
    stepper.set_filter(msg_filter("m10", Form::Negated));
    let after = stepper.cursor();
    for source in &sources {
        assert_eq!(before.get(&source.id()), after.get(&source.id()));
    }
    assert_eq!(before.byte_offset(), after.byte_offset());
}

#[test]
fn exhausted_walk_is_over() {
    let mut stepper = make_stepper(&[Arc::new(MemSource::with("a.log", &[10]))]);
    assert!(!stepper.is_exhausted(Direction::Forward));
    forward_msgs(&mut stepper);
    assert!(stepper.is_exhausted(Direction::Forward));
    assert!(!stepper.is_exhausted(Direction::Backward));
    assert!(stepper.step_forward().is_none());
}

#[test]
fn batched_stepper_examines_a_bounded_number_at_a_time() {
    let mut source = MemSource::new("a.log");
    for i in 0..(BATCHED_SCAN_LIMIT as i64 + 1) {
        source.add(i, "noise");
    }
    source.add(1000, "match");
    let engine = engine_over(vec![source]);
    let filter = msg_filter("noise", Form::Negated);
    let mut stepper = engine.stepper_batched(filter.clone(), &Cursor::new());
    assert!(stepper.step_forward().is_none());
    assert!(!stepper.is_exhausted(Direction::Forward));
    assert_eq!(msg_of(&stepper.step_forward().unwrap()), "match");

    let mut at_once = engine.stepper_with(filter, &Cursor::new(), StepperOptions::default());
    assert_eq!(msg_of(&at_once.step_forward().unwrap()), "match");
}

#[test]
fn walking_back_gathers_in_forward_order() {
    let sources = [
        Arc::new(MemSource::with("a.log", &[10, 30])),
        Arc::new(MemSource::with("b.log", &[20, 40])),
    ];
    let mut stepper = make_stepper(&sources);
    forward_msgs(&mut stepper);
    let back: Vec<String> = step_backward_n(&mut stepper, 3).iter().map(msg_of).collect();
    assert_eq!(back, vec!["m20", "m30", "m40"]);
    let rest: Vec<String> = step_backward_n(&mut stepper, 3).iter().map(msg_of).collect();
    assert_eq!(rest, vec!["m10"]);
}

#[test]
fn emission_stops_at_the_limit() {
    let engine = engine_over(vec![MemSource::with("a.log", &[10, 20, 30])]);
    let mut limited = Emitter::new(&engine, Filter::default(), &Cursor::new(), Some(2));
    assert_eq!(msg_of(&limited.next_record().unwrap()), "m10");
    assert_eq!(msg_of(&limited.next_record().unwrap()), "m20");
    assert!(limited.next_record().is_none());
    assert!(limited.next_record().is_none());

    let mut none = Emitter::new(&engine, Filter::default(), &Cursor::new(), Some(0));
    assert!(none.next_record().is_none());

    let mut all = Emitter::new(&engine, Filter::default(), &Cursor::new(), None);
    let mut count = 0;
    while all.next_record().is_some() {
        count += 1;
    }
    assert_eq!(count, 3);
}

#[test]
fn exhausted_steppers_stay_where_they_are() {
    let engine = engine_over(vec![MemSource::with("a.log", &[10, 20])]);
    let mut stepper = engine.stepper(Filter::default(), &Cursor::new());
    while stepper.step_forward().is_some() {}
    assert!(stepper.is_exhausted(Direction::Forward));
    let (cursor, walked) = (stepper.cursor(), stepper.walked_bytes());
    for _ in 0..3 {
        assert!(stepper.step_forward().is_none());
        assert_eq!(stepper.cursor().byte_offset(), cursor.byte_offset());
        assert_eq!(stepper.walked_bytes(), walked);
    }
}

#[test]
fn the_end_cursor_fails_as_the_first_source_does() {
    let mut gone = MemSource::with("b.log", &[20]);
    gone.gone = true;
    let engine = engine_over(vec![MemSource::with("a.log", &[10]), gone]);
    let Err(failure) = engine.cursor_at_end() else { panic!("a source is gone") };
    assert_eq!(failure.0, "gone");
}

#[test]
fn directions_oppose_each_other() {
    assert_eq!(opposite(Direction::Forward), Direction::Backward);
    assert_eq!(opposite(Direction::Backward), Direction::Forward);
}

#[test]
fn later_cursor_entries_replace_earlier_ones() {
    let id = SourceId::new("a.log".to_string());
    let mut cursor = Cursor::with(vec![
        (id.clone(), ByteOffset(3)),
        (SourceId::new("b.log".to_string()), ByteOffset(4)),
        (id.clone(), ByteOffset(7)),
    ]);
    assert_eq!(cursor.get(&id), Some(ByteOffset(7)));
    cursor.set(id.clone(), ByteOffset(9));
    assert_eq!(cursor.get(&id), Some(ByteOffset(9)));
    assert_eq!(cursor.entries().len(), 2);
    assert_eq!(cursor.byte_offset(), ByteOffset(13));
    assert_eq!(ByteLen(2).plus(ByteLen(3)).get(), 5);
}

#[test]
fn stream_positions_keep_what_they_are_given() {
    let position = LogStreamPosition::new(SourceId::new("a.log".to_string()), t(5), 7);
    assert_eq!(position.source.as_str(), "a.log");
    assert_eq!(position.time, t(5));
    assert_eq!(position.tiebreaker, 7);
}

#[test]
fn single_source_with_errors_is_retraced() {
    let mut a = MemSource::new("a.log");
    a.junk("first");
    a.add(30, "m30");
    a.junk("second");
    a.add(10, "m10");
    let mut stepper = make_stepper(&[Arc::new(a)]);
    let mut forward = Vec::new();
    while let Some(r) = stepper.step_forward() {
        forward.push(r.raw);
    }
    let mut backward = Vec::new();
    while let Some(r) = stepper.step_backward() {
        backward.push(r.raw);
    }
    backward.reverse();
    assert_eq!(forward, backward);
    assert_eq!(forward.len(), 4);
}

#[test]
fn errors_come_first_on_the_way_back_too() {
    let mut a = MemSource::new("a.log");
    a.add(10, "m10");
    a.junk("broken");
    let mut b = MemSource::new("b.log");
    b.add(20, "m20");
    let mut stepper = make_stepper(&[Arc::new(a), Arc::new(b)]);
    let mut forward = Vec::new();
    while let Some(r) = stepper.step_forward() {
        forward.push(r.raw);
    }
    assert_eq!(forward, vec!["10:m10", "broken", "20:m20"]);
    let mut backward = Vec::new();
    while let Some(r) = stepper.step_backward() {
        backward.push(r.raw);
    }
    assert_eq!(backward, vec!["broken", "20:m20", "10:m10"]);
}

#[test]
fn summaries_read_the_log_in_chunks() {
    let mut source = MemSource::new("a.log");
    let n = LONG_OP_CHUNK_RECORDS as i64 + 10;
    for i in 0..n {
        source.add(i, if i % 2 == 0 { "even" } else { "odd" });
    }
    source.junk("broken");
    let engine = engine_over(vec![source]);
    let filter = msg_filter("even", Form::Affirmed);
    let total = engine.filtered_total_bytes(&filter);
    let mut op = SummaryOp::new(TabIdx(2), filter, total);
    assert!(!op.eof);
    let mut events = Vec::new();
    let mut chunks = 0;
    while !op.eof {
        events.extend(op.advance(&engine));
        chunks += 1;
    }
    assert!(chunks >= 1);
    assert_eq!(events.len() as i64, n / 2);
    assert!(events.iter().all(|e| e.msg == "even"));
    let op = LongOp::BuildSummary(op);
    assert_eq!(op.total_bytes(), total);
    assert!(op.targets_tab(TabIdx(2)));
    assert_eq!(op.label(), "Computing summary");
    let LongOp::BuildSummary(op) = op else { unreachable!() };
    let content = op.finalize(vec!["a line".to_string()], 7);
    assert_eq!(content.formatted, vec!["a line".to_string()]);
    assert_eq!(content.parse_stats.elapsed_nanos, 7);
}

#[test]
fn draining_gives_every_record_once_in_order() {
    let sources = [
        Arc::new(MemSource::with("a.log", &[10, 20, 20, 40])),
        Arc::new(MemSource::with("b.log", &[5, 20, 30])),
        Arc::new(MemSource::with("c.log", &[])),
    ];
    let mut stepper = make_stepper(&sources);
    let mut seen = Vec::new();
    while let Some(record) = stepper.step(Direction::Forward) {
        let secs = record.event().as_ref().unwrap().time.secs;
        seen.push((secs, record.source_id.as_str().to_string()));
    }
    let expected: Vec<(i64, String)> = [
        (5, "b.log"),
        (10, "a.log"),
        (20, "a.log"),
        (20, "a.log"),
        (20, "b.log"),
        (30, "b.log"),
        (40, "a.log"),
    ]
    .iter()
    .map(|(secs, id)| (*secs, id.to_string()))
    .collect();
    assert_eq!(seen, expected);
    assert!(stepper.is_exhausted(Direction::Forward));
}

#[test]
fn going_back_and_on_again_gives_the_same_records() {
    let even: Vec<i64> = (0..400).map(|i| i * 2).collect();
    let third: Vec<i64> = (0..300).map(|i| i * 3).collect();
    let sources =
        [Arc::new(MemSource::with("a.log", &even)), Arc::new(MemSource::with("b.log", &third))];
    let mut stepper = make_stepper(&sources);
    let key = |r: MergeRecord| (r.source_id.as_str().to_string(), r.offset, r.length, r.raw);
    let n = 600;
    let forward: Vec<_> = (0..n).map(|_| key(stepper.step_forward().unwrap())).collect();
    let mut backward: Vec<_> = (0..n).map(|_| key(stepper.step_backward().unwrap())).collect();
    assert!(stepper.step_backward().is_none());
    backward.reverse();
    assert_eq!(backward, forward);
    let again: Vec<_> = (0..n).map(|_| key(stepper.step_forward().unwrap())).collect();
    assert_eq!(again, forward);
}

#[test]
fn a_new_filter_holds_both_ways() {
    let sources = [Arc::new(MemSource::with("a.log", &[10, 20, 30, 40, 50]))];
    let mut stepper = make_stepper(&sources);
    for _ in 0..3 {
        stepper.step_forward().unwrap();
    }
    let (cursor, walked) = (stepper.cursor().byte_offset(), stepper.walked_bytes());
    stepper.set_filter(msg_filter("m20", Form::Negated));
    assert_eq!(stepper.cursor().byte_offset(), cursor);
    assert_eq!(stepper.walked_bytes(), walked);
    assert!(!stepper.is_exhausted(Direction::Forward));
    assert!(!stepper.is_exhausted(Direction::Backward));
    assert_eq!(backward_msgs(&mut stepper), vec!["m30", "m10"]);
    assert_eq!(forward_msgs(&mut stepper), vec!["m10", "m30", "m40", "m50"]);
}

#[test]
fn a_window_replays_what_it_gave() {
    let source = Arc::new(MemSource::with("a.log", &[10, 20]));
    let id = source.id();
    let mut window = SourceWindow::new(source, id, ByteOffset(0));
    window.fill(Direction::Forward, &Filter::default(), 64, None);
    let first = window.pop(Direction::Forward);
    assert_eq!(window.position.get(), first.offset.get() + first.length.0);
    assert!(window.ready(Direction::Backward));
    let replayed = window.pop(Direction::Backward);
    assert_eq!(
        (replayed.offset, replayed.length, replayed.raw),
        (first.offset, first.length, first.raw)
    );
    assert_eq!(window.position, first.offset);
}
