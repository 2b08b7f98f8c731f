//! In-memory representation of a single log record.
//!
//! This models a bunyan record: a fixed core (time, level, name, hostname,
//! pid, msg, v) plus arbitrary further structured fields.

use crate::text::{
    law_text_order_is_transitive, law_texts_are_ordered, precedes, same_text, sorts_before,
};
use std::cmp::Ordering;
use vstd::prelude::*;

verus! {

/// An instant in UTC: whole seconds since the Unix epoch and the nanoseconds
/// past that second.  Inside a leap second `nanos` reaches past a billion.
#[derive(Debug, Clone, Copy, PartialEq, Eq, Structural, Hash, PartialOrd, Ord)]
pub struct Timestamp {
    pub secs: i64,
    pub nanos: u32,
}

impl Timestamp {
    /// Chronological order: by second, then by the nanoseconds within it.
    pub open spec fn earlier(self, other: Timestamp) -> bool {
        self.secs < other.secs || (self.secs == other.secs && self.nanos < other.nanos)
    }

    /// Whether this instant comes before `other`.
    pub fn is_before(self, other: Timestamp) -> (yes: bool)
        ensures
            yes == self.earlier(other),
            self.nanos < 1_000_000_000 && other.nanos < 1_000_000_000 ==> yes == (self.secs
                * 1_000_000_000 + self.nanos < other.secs * 1_000_000_000 + other.nanos),
    {
        self.secs < other.secs || (self.secs == other.secs && self.nanos < other.nanos)
    }
}

/// Bunyan log level, from least to most severe.
#[derive(Debug, Clone, Copy, PartialEq, Eq, Structural, Hash, Ord)]
pub enum Level {
    Trace,
    Debug,
    Info,
    Warn,
    Error,
    Fatal,
}

/// Error returned when a number does not stand for a bunyan log level.
#[derive(Debug)]
pub struct UnknownLevel(pub u8);

impl Level {
    /// The number that the bunyan format uses.
    pub open spec fn number(self) -> u8 {
        match self {
            Level::Trace => 10,
            Level::Debug => 20,
            Level::Info => 30,
            Level::Warn => 40,
            Level::Error => 50,
            Level::Fatal => 60,
        }
    }

    /// The short uppercase name.
    pub open spec fn name(self) -> Seq<char> {
        match self {
            Level::Trace => "TRACE"@,
            Level::Debug => "DEBUG"@,
            Level::Info => "INFO"@,
            Level::Warn => "WARN"@,
            Level::Error => "ERROR"@,
            Level::Fatal => "FATAL"@,
        }
    }

    /// Returns the numeric value used by the bunyan format.
    pub fn as_bunyan_number(self) -> (n: u8)
        ensures
            n == self.number(),
    {
        match self {
            Level::Trace => 10,
            Level::Debug => 20,
            Level::Info => 30,
            Level::Warn => 40,
            Level::Error => 50,
            Level::Fatal => 60,
        }
    }

    /// Returns the short uppercase name (e.g. `"INFO"`).
    pub fn as_str(self) -> (name: &'static str)
        ensures
            name@ == self.name(),
    {
        match self {
            Level::Trace => "TRACE",
            Level::Debug => "DEBUG",
            Level::Info => "INFO",
            Level::Warn => "WARN",
            Level::Error => "ERROR",
            Level::Fatal => "FATAL",
        }
    }
}

impl TryFrom<u8> for Level {
    type Error = UnknownLevel;

    fn try_from(value: u8) -> (level: Result<Self, UnknownLevel>) {
        match value {
            10 => Ok(Level::Trace),
            20 => Ok(Level::Debug),
            30 => Ok(Level::Info),
            40 => Ok(Level::Warn),
            50 => Ok(Level::Error),
            60 => Ok(Level::Fatal),
            n => Err(UnknownLevel(n)),
        }
    }
}

impl vstd::std_specs::convert::TryFromSpecImpl<u8> for Level {
    open spec fn obeys_try_from_spec() -> bool {
        true
    }

    open spec fn try_from_spec(value: u8) -> Result<Self, UnknownLevel> {
        if value == 10 {
            Ok(Level::Trace)
        } else if value == 20 {
            Ok(Level::Debug)
        } else if value == 30 {
            Ok(Level::Info)
        } else if value == 40 {
            Ok(Level::Warn)
        } else if value == 50 {
            Ok(Level::Error)
        } else if value == 60 {
            Ok(Level::Fatal)
        } else {
            Err(UnknownLevel(value))
        }
    }
}

/// A level and its number determine each other: the number of a level reads
/// back as that level, and a number that reads as a level is that level's
/// number.
pub proof fn law_level_numbers_round_trip(level: Level, number: u8)
    ensures
        <Level as vstd::std_specs::convert::TryFromSpec<u8>>::try_from_spec(level.number()) == Ok::<
            Level,
            UnknownLevel,
        >(level),
        <Level as vstd::std_specs::convert::TryFromSpec<u8>>::try_from_spec(number) matches Ok(read)
            ==> read.number() == number,
{
}

impl PartialOrd for Level {
    fn partial_cmp(&self, other: &Level) -> (order: Option<Ordering>) {
        let a = self.as_bunyan_number();
        let b = other.as_bunyan_number();
        if a < b {
            Some(Ordering::Less)
        } else if a == b {
            Some(Ordering::Equal)
        } else {
            Some(Ordering::Greater)
        }
    }
}

impl vstd::std_specs::cmp::PartialOrdSpecImpl for Level {
    open spec fn obeys_partial_cmp_spec() -> bool {
        true
    }

    open spec fn partial_cmp_spec(&self, other: &Level) -> Option<Ordering> {
        if self.number() < other.number() {
            Some(Ordering::Less)
        } else if self.number() == other.number() {
            Some(Ordering::Equal)
        } else {
            Some(Ordering::Greater)
        }
    }
}

/// Logger name (the `name` field of a record).
#[derive(Debug, PartialEq, Eq, Hash)]
pub struct LoggerName(pub String);

/// Hostname recorded in a record.
#[derive(Debug, PartialEq, Eq, Hash)]
pub struct Hostname(pub String);

/// Process id from a record.
#[derive(Debug, Clone, Copy, PartialEq, Eq, Structural, Hash)]
pub struct Pid(pub u32);

impl Clone for LoggerName {
    fn clone(&self) -> (copy: Self)
        ensures
            copy == *self,
    {
        LoggerName(self.0.clone())
    }
}

impl Clone for Hostname {
    fn clone(&self) -> (copy: Self)
        ensures
            copy == *self,
    {
        Hostname(self.0.clone())
    }
}

impl LoggerName {
    /// The name as text.
    pub fn as_str(&self) -> (text: &str)
        ensures
            text@ == self.0@,
    {
        self.0.as_str()
    }
}

impl Hostname {
    /// The hostname as text.
    pub fn as_str(&self) -> (text: &str)
        ensures
            text@ == self.0@,
    {
        self.0.as_str()
    }
}

impl From<String> for LoggerName {
    fn from(name: String) -> (logger: Self) {
        LoggerName(name)
    }
}

impl vstd::std_specs::convert::FromSpecImpl<String> for LoggerName {
    open spec fn obeys_from_spec() -> bool {
        true
    }

    open spec fn from_spec(name: String) -> LoggerName {
        LoggerName(name)
    }
}

impl From<String> for Hostname {
    fn from(name: String) -> (host: Self) {
        Hostname(name)
    }
}

impl vstd::std_specs::convert::FromSpecImpl<String> for Hostname {
    open spec fn obeys_from_spec() -> bool {
        true
    }

    open spec fn from_spec(name: String) -> Hostname {
        Hostname(name)
    }
}

impl From<u32> for Pid {
    fn from(pid: u32) -> (process: Self) {
        Pid(pid)
    }
}

impl vstd::std_specs::convert::FromSpecImpl<u32> for Pid {
    open spec fn obeys_from_spec() -> bool {
        true
    }

    open spec fn from_spec(pid: u32) -> Pid {
        Pid(pid)
    }
}

/// A parsed JSON value, carried through unread.
#[verifier::external_type_specification]
#[verifier::external_body]
pub struct ExJsonValue(serde_json::Value);

/// Copies a JSON value with `serde_json::Value`'s `Clone`: the copy equals
/// the original.
#[verifier::external_body]
fn copy_json(value: &serde_json::Value) -> (copy: serde_json::Value)
    ensures
        copy == *value,
{
    value.clone()
}

/// A single log record.
#[derive(Debug)]
pub struct Event {
    pub time: Timestamp,
    pub level: Level,
    pub name: LoggerName,
    pub hostname: Hostname,
    pub pid: Pid,
    pub msg: String,
    /// bunyan record-format version
    pub v: u32,
    /// any further structured fields beyond the bunyan core, each key once
    /// and in key order
    pub extra: Vec<(String, serde_json::Value)>,
}

/// What an [`Event`] says, as a mathematical value.
#[verifier::ext_equal]
pub struct EventView {
    pub time: Timestamp,
    pub level: Level,
    pub name: Seq<char>,
    pub hostname: Seq<char>,
    pub pid: u32,
    pub msg: Seq<char>,
    pub v: u32,
    pub extra: Seq<(Seq<char>, serde_json::Value)>,
}

/// The further fields of a record: their keys as text, with their values.
pub open spec fn extra_view(extra: Seq<(String, serde_json::Value)>) -> Seq<
    (Seq<char>, serde_json::Value),
> {
    extra.map_values(|field: (String, serde_json::Value)| (field.0@, field.1))
}

/// Whether `extra` has a field named `key`.
pub open spec fn has_key(extra: Seq<(Seq<char>, serde_json::Value)>, key: Seq<char>) -> bool {
    exists|i: int| 0 <= i < extra.len() && (#[trigger] extra[i]).0 == key
}

/// The fields are in key order, and none occurs twice.
pub open spec fn keys_ascend(extra: Seq<(Seq<char>, serde_json::Value)>) -> bool {
    forall|i: int, j: int|
        0 <= i < j < extra.len() ==> precedes(
            (#[trigger] extra[i]).0,
            (#[trigger] extra[j]).0,
        )
}

/// Where a field goes in: behind the last whose key sorts in front of its.
pub open spec fn key_slot(extra: Seq<(Seq<char>, serde_json::Value)>, key: Seq<char>) -> int
    decreases extra.len(),
{
    if extra.len() == 0 {
        0
    } else if precedes(extra.last().0, key) {
        extra.len() as int
    } else {
        key_slot(extra.drop_last(), key)
    }
}

impl View for Event {
    type V = EventView;

    open spec fn view(&self) -> EventView {
        EventView {
            time: self.time,
            level: self.level,
            name: self.name.0@,
            hostname: self.hostname.0@,
            pid: self.pid.0,
            msg: self.msg@,
            v: self.v,
            extra: extra_view(self.extra@),
        }
    }
}

impl Clone for Event {
    fn clone(&self) -> (copy: Self)
        ensures
            copy@ == self@,
    {
        let mut extra: Vec<(String, serde_json::Value)> = Vec::new();
        let mut i: usize = 0;
        while i < self.extra.len()
            invariant
                i <= self.extra@.len(),
                extra@ == self.extra@.take(i as int),
            decreases self.extra@.len() - i,
        {
            extra.push((self.extra[i].0.clone(), copy_json(&self.extra[i].1)));
            i = i + 1;
        }
        assert(extra@ =~= self.extra@);
        Event {
            time: self.time,
            level: self.level,
            name: self.name.clone(),
            hostname: self.hostname.clone(),
            pid: self.pid,
            msg: self.msg.clone(),
            v: self.v,
            extra,
        }
    }
}

/// A field that every record must have.
#[derive(Debug, Clone, Copy, PartialEq, Eq, Structural)]
pub enum CoreField {
    Time,
    Level,
    Name,
    Hostname,
    Pid,
    Msg,
    V,
}

impl CoreField {
    /// The key under which records carry the field.
    pub open spec fn key(self) -> Seq<char> {
        match self {
            CoreField::Time => "time"@,
            CoreField::Level => "level"@,
            CoreField::Name => "name"@,
            CoreField::Hostname => "hostname"@,
            CoreField::Pid => "pid"@,
            CoreField::Msg => "msg"@,
            CoreField::V => "v"@,
        }
    }

    /// The key under which records carry the field.
    pub fn as_str(self) -> (key: &'static str)
        ensures
            key@ == self.key(),
    {
        match self {
            CoreField::Time => "time",
            CoreField::Level => "level",
            CoreField::Name => "name",
            CoreField::Hostname => "hostname",
            CoreField::Pid => "pid",
            CoreField::Msg => "msg",
            CoreField::V => "v",
        }
    }
}

/// What to do with the next key of a record.
#[derive(Debug, Clone, Copy, PartialEq, Eq, Structural)]
pub enum Placement {
    /// Read the value as this core field.
    Core(CoreField),
    /// Read the value as a further field.
    Extra,
    /// The key has been seen: skip the value unread.
    Skip,
}

/// Error returned when a record lacks a core field.
#[derive(Debug, Clone, Copy, PartialEq, Eq, Structural)]
pub struct MissingField(pub CoreField);

/// A record under construction, key by key.
///
/// Repeated keys are tolerated: the first occurrence of each key wins and
/// later ones are dropped.  Real logs occasionally repeat keys when nested
/// scopes both attach a value; failing the whole record over that would lose
/// more than it preserves.
pub struct EventBuilder {
    pub time: Option<Timestamp>,
    pub level: Option<Level>,
    pub name: Option<LoggerName>,
    pub hostname: Option<Hostname>,
    pub pid: Option<Pid>,
    pub msg: Option<String>,
    pub v: Option<u32>,
    pub extra: Vec<(String, serde_json::Value)>,
}

/// What an [`EventBuilder`] has gathered.
#[verifier::ext_equal]
pub struct BuilderView {
    pub time: Option<Timestamp>,
    pub level: Option<Level>,
    pub name: Option<Seq<char>>,
    pub hostname: Option<Seq<char>>,
    pub pid: Option<u32>,
    pub msg: Option<Seq<char>>,
    pub v: Option<u32>,
    pub extra: Seq<(Seq<char>, serde_json::Value)>,
}

/// A value read for a key of a record.
pub enum FieldValue {
    Time(Timestamp),
    Level(Level),
    Name(LoggerName),
    Hostname(Hostname),
    Pid(Pid),
    Msg(String),
    V(u32),
    Extra(String, serde_json::Value),
}

impl BuilderView {
    /// The builder that has gathered nothing.
    pub open spec fn empty() -> BuilderView {
        BuilderView {
            time: None,
            level: None,
            name: None,
            hostname: None,
            pid: None,
            msg: None,
            v: None,
            extra: Seq::empty(),
        }
    }

    /// Whether the core field has been gathered.
    pub open spec fn has(self, field: CoreField) -> bool {
        match field {
            CoreField::Time => self.time is Some,
            CoreField::Level => self.level is Some,
            CoreField::Name => self.name is Some,
            CoreField::Hostname => self.hostname is Some,
            CoreField::Pid => self.pid is Some,
            CoreField::Msg => self.msg is Some,
            CoreField::V => self.v is Some,
        }
    }

    /// What becomes of the key `key`: a core field or a further one where it
    /// is new, and nothing where it has been gathered.
    pub open spec fn placement(self, key: Seq<char>) -> Placement {
        if key == CoreField::Time.key() {
            self.core_placement(CoreField::Time)
        } else if key == CoreField::Level.key() {
            self.core_placement(CoreField::Level)
        } else if key == CoreField::Name.key() {
            self.core_placement(CoreField::Name)
        } else if key == CoreField::Hostname.key() {
            self.core_placement(CoreField::Hostname)
        } else if key == CoreField::Pid.key() {
            self.core_placement(CoreField::Pid)
        } else if key == CoreField::Msg.key() {
            self.core_placement(CoreField::Msg)
        } else if key == CoreField::V.key() {
            self.core_placement(CoreField::V)
        } else if has_key(self.extra, key) {
            Placement::Skip
        } else {
            Placement::Extra
        }
    }

    /// What becomes of the key of the core field `field`.
    pub open spec fn core_placement(self, field: CoreField) -> Placement {
        if self.has(field) {
            Placement::Skip
        } else {
            Placement::Core(field)
        }
    }

    /// The builder once `value` has been offered: kept where its key is new,
    /// dropped where it is not.
    pub open spec fn offered(self, value: FieldValue) -> BuilderView {
        match value {
            FieldValue::Time(t) => BuilderView {
                time: Some(self.time.unwrap_or(t)),
                ..self
            },
            FieldValue::Level(l) => BuilderView { level: Some(self.level.unwrap_or(l)), ..self },
            FieldValue::Name(n) => BuilderView { name: Some(self.name.unwrap_or(n.0@)), ..self },
            FieldValue::Hostname(h) => BuilderView {
                hostname: Some(self.hostname.unwrap_or(h.0@)),
                ..self
            },
            FieldValue::Pid(p) => BuilderView { pid: Some(self.pid.unwrap_or(p.0)), ..self },
            FieldValue::Msg(m) => BuilderView { msg: Some(self.msg.unwrap_or(m@)), ..self },
            FieldValue::V(v) => BuilderView { v: Some(self.v.unwrap_or(v)), ..self },
            FieldValue::Extra(key, value) => if has_key(self.extra, key@) {
                self
            } else {
                BuilderView {
                    extra: self.extra.insert(key_slot(self.extra, key@), (key@, value)),
                    ..self
                }
            },
        }
    }

    /// The first core field, in the order of the format, that is missing.
    pub open spec fn first_missing(self) -> Option<CoreField> {
        if self.time is None {
            Some(CoreField::Time)
        } else if self.level is None {
            Some(CoreField::Level)
        } else if self.name is None {
            Some(CoreField::Name)
        } else if self.hostname is None {
            Some(CoreField::Hostname)
        } else if self.pid is None {
            Some(CoreField::Pid)
        } else if self.msg is None {
            Some(CoreField::Msg)
        } else if self.v is None {
            Some(CoreField::V)
        } else {
            None
        }
    }

    /// The record, where no core field is missing.
    pub open spec fn event(self) -> EventView
        recommends
            self.first_missing() is None,
    {
        EventView {
            time: self.time.unwrap(),
            level: self.level.unwrap(),
            name: self.name.unwrap(),
            hostname: self.hostname.unwrap(),
            pid: self.pid.unwrap(),
            msg: self.msg.unwrap(),
            v: self.v.unwrap(),
            extra: self.extra,
        }
    }
}

/// The builder after the fields of `values`, offered in order.
pub open spec fn gathered(values: Seq<FieldValue>) -> BuilderView
    decreases values.len(),
{
    if values.len() == 0 {
        BuilderView::empty()
    } else {
        gathered(values.drop_last()).offered(values.last())
    }
}

/// The key under which a value was read.
pub open spec fn key_of(value: FieldValue) -> Seq<char> {
    match value {
        FieldValue::Time(_) => CoreField::Time.key(),
        FieldValue::Level(_) => CoreField::Level.key(),
        FieldValue::Name(_) => CoreField::Name.key(),
        FieldValue::Hostname(_) => CoreField::Hostname.key(),
        FieldValue::Pid(_) => CoreField::Pid.key(),
        FieldValue::Msg(_) => CoreField::Msg.key(),
        FieldValue::V(_) => CoreField::V.key(),
        FieldValue::Extra(key, _) => key@,
    }
}

impl View for EventBuilder {
    type V = BuilderView;

    open spec fn view(&self) -> BuilderView {
        BuilderView {
            time: self.time,
            level: self.level,
            name: match self.name {
                Some(n) => Some(n.0@),
                None => None,
            },
            hostname: match self.hostname {
                Some(h) => Some(h.0@),
                None => None,
            },
            pid: match self.pid {
                Some(p) => Some(p.0),
                None => None,
            },
            msg: match self.msg {
                Some(m) => Some(m@),
                None => None,
            },
            v: self.v,
            extra: extra_view(self.extra@),
        }
    }
}

impl EventBuilder {
    /// A builder that has gathered nothing.
    pub fn new() -> (builder: Self)
        ensures
            builder@ == BuilderView::empty(),
    {
        let builder = EventBuilder {
            time: None,
            level: None,
            name: None,
            hostname: None,
            pid: None,
            msg: None,
            v: None,
            extra: Vec::new(),
        };
        assert(builder@.extra =~= Seq::<(Seq<char>, serde_json::Value)>::empty());
        builder
    }

    /// Whether the further field `key` has been gathered.
    fn has_extra(&self, key: &str) -> (yes: bool)
        ensures
            yes == has_key(self@.extra, key@),
    {
        let mut i: usize = 0;
        while i < self.extra.len()
            invariant
                i <= self.extra@.len(),
                forall|k: int| 0 <= k < i ==> (#[trigger] self@.extra[k]).0 != key@,
            decreases self.extra@.len() - i,
        {
            if same_text(self.extra[i].0.as_str(), key) {
                assert(self@.extra[i as int].0 == key@);
                return true;
            }
            assert(self@.extra[i as int].0 == self.extra@[i as int].0@);
            i = i + 1;
        }
        false
    }

    /// Where the further field `key` goes in.
    fn slot_for(&self, key: &str) -> (slot: usize)
        ensures
            slot == key_slot(self@.extra, key@),
            slot <= self.extra@.len(),
    {
        let ghost all = self@.extra;
        let mut i: usize = self.extra.len();
        assert(all.take(all.len() as int) =~= all);
        while i > 0 && !sorts_before(self.extra[i - 1].0.as_str(), key)
            invariant
                all == self@.extra,
                i <= all.len(),
                all.len() == self.extra@.len(),
                key_slot(all, key@) == key_slot(all.take(i as int), key@),
            decreases i,
        {
            assert(all[i - 1].0 == self.extra@[i - 1].0@);
            assert(all.take(i as int).drop_last() =~= all.take(i - 1));
            i = i - 1;
        }
        if i > 0 {
            assert(all[i - 1].0 == self.extra@[i - 1].0@);
        }
        i
    }

    fn place_core(&self, field: CoreField) -> (placement: Placement)
        ensures
            placement == self@.core_placement(field),
    {
        let seen = match field {
            CoreField::Time => self.time.is_some(),
            CoreField::Level => self.level.is_some(),
            CoreField::Name => self.name.is_some(),
            CoreField::Hostname => self.hostname.is_some(),
            CoreField::Pid => self.pid.is_some(),
            CoreField::Msg => self.msg.is_some(),
            CoreField::V => self.v.is_some(),
        };
        if seen {
            Placement::Skip
        } else {
            Placement::Core(field)
        }
    }

    /// Decides what becomes of the key `key`.
    pub fn place(&self, key: &str) -> (placement: Placement)
        ensures
            placement == self@.placement(key@),
    {
        if same_text(key, "time") {
            self.place_core(CoreField::Time)
        } else if same_text(key, "level") {
            self.place_core(CoreField::Level)
        } else if same_text(key, "name") {
            self.place_core(CoreField::Name)
        } else if same_text(key, "hostname") {
            self.place_core(CoreField::Hostname)
        } else if same_text(key, "pid") {
            self.place_core(CoreField::Pid)
        } else if same_text(key, "msg") {
            self.place_core(CoreField::Msg)
        } else if same_text(key, "v") {
            self.place_core(CoreField::V)
        } else if self.has_extra(key) {
            Placement::Skip
        } else {
            Placement::Extra
        }
    }

    /// Offers a value: it is kept unless its key has been gathered.
    pub fn offer(&mut self, value: FieldValue)
        ensures
            final(self)@ == old(self)@.offered(value),
    {
        match value {
            FieldValue::Time(t) => {
                if self.time.is_none() {
                    self.time = Some(t);
                }
            },
            FieldValue::Level(l) => {
                if self.level.is_none() {
                    self.level = Some(l);
                }
            },
            FieldValue::Name(n) => {
                if self.name.is_none() {
                    self.name = Some(n);
                }
            },
            FieldValue::Hostname(h) => {
                if self.hostname.is_none() {
                    self.hostname = Some(h);
                }
            },
            FieldValue::Pid(p) => {
                if self.pid.is_none() {
                    self.pid = Some(p);
                }
            },
            FieldValue::Msg(m) => {
                if self.msg.is_none() {
                    self.msg = Some(m);
                }
            },
            FieldValue::V(v) => {
                if self.v.is_none() {
                    self.v = Some(v);
                }
            },
            FieldValue::Extra(key, value) => {
                if !self.has_extra(key.as_str()) {
                    let slot: usize = self.slot_for(key.as_str());
                    self.extra.insert(slot, (key, value));
                    assert(self@.extra =~= old(self)@.extra.insert(slot as int, (key@, value)));
                }
            },
        }
    }

    /// Ends the record: an event, or the first core field that is missing.
    pub fn finish(self) -> (event: Result<Event, MissingField>)
        ensures
            match self@.first_missing() {
                Some(field) => event == Err::<Event, MissingField>(MissingField(field)),
                None => event matches Ok(e) && e@ == self@.event(),
            },
            event matches Ok(e) ==> {
                &&& self.time == Some(e.time)
                &&& self.level == Some(e.level)
                &&& self.name == Some(e.name)
                &&& self.hostname == Some(e.hostname)
                &&& self.pid == Some(e.pid)
                &&& self.msg == Some(e.msg)
                &&& self.v == Some(e.v)
                &&& self.extra == e.extra
            },
    {
        let EventBuilder { time, level, name, hostname, pid, msg, v, extra } = self;
        let time = match time {
            Some(time) => time,
            None => {
                return Err(MissingField(CoreField::Time));
            },
        };
        let level = match level {
            Some(level) => level,
            None => {
                return Err(MissingField(CoreField::Level));
            },
        };
        let name = match name {
            Some(name) => name,
            None => {
                return Err(MissingField(CoreField::Name));
            },
        };
        let hostname = match hostname {
            Some(hostname) => hostname,
            None => {
                return Err(MissingField(CoreField::Hostname));
            },
        };
        let pid = match pid {
            Some(pid) => pid,
            None => {
                return Err(MissingField(CoreField::Pid));
            },
        };
        let msg = match msg {
            Some(msg) => msg,
            None => {
                return Err(MissingField(CoreField::Msg));
            },
        };
        let v: u32 = match v {
            Some(v) => v,
            None => {
                return Err(MissingField(CoreField::V));
            },
        };
        Ok(Event { time, level, name, hostname, pid, msg, v, extra })
    }
}

/// Builds a record from its fields in the order in which they were read.
pub fn event_from_fields(fields: Vec<FieldValue>) -> (event: Result<Event, MissingField>)
    ensures
        match gathered(fields@).first_missing() {
            Some(field) => event == Err::<Event, MissingField>(MissingField(field)),
            None => event matches Ok(e) && e@ == gathered(fields@).event(),
        },
{
    let ghost all = fields@;
    let mut builder = EventBuilder::new();
    assert(all.take(0) =~= Seq::<FieldValue>::empty());
    for field in fields_iter: fields
        invariant
            fields_iter.seq() == all,
            builder@ == gathered(all.take(fields_iter.index())),
    {
        assert(all.take(fields_iter.index() + 1).drop_last() =~= all.take(fields_iter.index()));
        builder.offer(field);
    }
    assert(all.take(all.len() as int) =~= all);
    builder.finish()
}

/// Keys are taken first come, first served, as [`EventBuilder::place`]
/// announces: a value whose key is to be skipped changes nothing when it is
/// offered all the same.
pub proof fn law_skipped_keys_change_nothing(before: BuilderView, value: FieldValue)
    requires
        before.placement(key_of(value)) == Placement::Skip,
        value is Extra ==> forall|field: CoreField| key_of(value) != field.key(),
    ensures
        before.offered(value) == before,
{
    lemma_core_keys_distinct();
}

/// The core keys differ from one another.
proof fn lemma_core_keys_distinct()
    ensures
        forall|a: CoreField, b: CoreField| a != b ==> #[trigger] a.key() != #[trigger] b.key(),
{
    reveal_strlit("time");
    reveal_strlit("level");
    reveal_strlit("name");
    reveal_strlit("hostname");
    reveal_strlit("pid");
    reveal_strlit("msg");
    reveal_strlit("v");
    assert forall|a: CoreField, b: CoreField| a != b implies #[trigger] a.key()
        != #[trigger] b.key() by {
        if a.key().len() == b.key().len() {
            assert(a.key()[0] != b.key()[0] || a.key()[1] != b.key()[1]);
        }
    }
}

/// Putting a new key in its slot keeps the keys in order.
proof fn lemma_slot_keeps_order(
    extra: Seq<(Seq<char>, serde_json::Value)>,
    key: Seq<char>,
    value: serde_json::Value,
)
    requires
        keys_ascend(extra),
        !has_key(extra, key),
    ensures
        0 <= key_slot(extra, key) <= extra.len(),
        forall|i: int| 0 <= i < key_slot(extra, key) ==> precedes((#[trigger] extra[i]).0, key),
        forall|i: int|
            key_slot(extra, key) <= i < extra.len() ==> precedes(key, (#[trigger] extra[i]).0),
        keys_ascend(extra.insert(key_slot(extra, key), (key, value))),
    decreases extra.len(),
{
    let slot = key_slot(extra, key);
    if extra.len() > 0 {
        let rest = extra.drop_last();
        let last = extra.last().0;
        assert(extra[extra.len() - 1].0 == last);
        if precedes(last, key) {
            assert forall|i: int| 0 <= i < slot implies precedes((#[trigger] extra[i]).0, key) by {
                if i < extra.len() - 1 {
                    law_text_order_is_transitive(extra[i].0, last, key);
                }
            }
        } else {
            assert forall|i: int| 0 <= i < rest.len() implies (#[trigger] rest[i]).0 != key by {
                assert(rest[i] == extra[i]);
            }
            lemma_slot_keeps_order(rest, key, value);
            law_texts_are_ordered(last, key);
            assert forall|i: int| 0 <= i < slot implies precedes((#[trigger] extra[i]).0, key) by {
                assert(rest[i] == extra[i]);
            }
            assert forall|i: int| slot <= i < extra.len() implies precedes(
                key,
                (#[trigger] extra[i]).0,
            ) by {
                if i < extra.len() - 1 {
                    assert(rest[i] == extra[i]);
                }
            }
        }
    }
    let after = extra.insert(slot, (key, value));
    assert forall|i: int, j: int| 0 <= i < j < after.len() implies precedes(
        (#[trigger] after[i]).0,
        (#[trigger] after[j]).0,
    ) by {
        let before_i = if i < slot { extra[i] } else { extra[i - 1] };
        let before_j = if j < slot { extra[j] } else { extra[j - 1] };
        if i != slot {
            assert(after[i] == before_i);
        }
        if j != slot {
            assert(after[j] == before_j);
        }
    }
}

/// The further fields of a record are in key order and no key occurs twice,
/// in whatever order and however often they were offered.
pub proof fn law_extra_keys_ascend(values: Seq<FieldValue>)
    ensures
        keys_ascend(gathered(values).extra),
    decreases values.len(),
{
    if values.len() > 0 {
        law_extra_keys_ascend(values.drop_last());
        let before = gathered(values.drop_last());
        if let FieldValue::Extra(key, value) = values.last() {
            if !has_key(before.extra, key@) {
                lemma_slot_keeps_order(before.extra, key@, value);
            }
        }
    }
}

/// The first value offered for a further key is the one that the record
/// keeps, whatever is offered afterwards.
pub proof fn law_first_value_wins(
    earlier: Seq<FieldValue>,
    key: String,
    value: serde_json::Value,
    later: Seq<FieldValue>,
)
    requires
        !has_key(gathered(earlier).extra, key@),
    ensures
        ({
            let all = earlier.push(FieldValue::Extra(key, value)) + later;
            let kept = gathered(all).extra;
            &&& has_key(kept, key@)
            &&& forall|i: int| 0 <= i < kept.len() && (#[trigger] kept[i]).0 == key@ ==> kept[i].1
                == value
        }),
    decreases later.len(),
{
    let all = earlier.push(FieldValue::Extra(key, value)) + later;
    let kept = gathered(all).extra;
    let at = if later.len() == 0 {
        assert(all =~= earlier.push(FieldValue::Extra(key, value)));
        assert(all.drop_last() =~= earlier);
        law_extra_keys_ascend(earlier);
        lemma_slot_keeps_order(gathered(earlier).extra, key@, value);
        key_slot(gathered(earlier).extra, key@)
    } else {
        law_first_value_wins(earlier, key, value, later.drop_last());
        let shorter = earlier.push(FieldValue::Extra(key, value)) + later.drop_last();
        assert(all.drop_last() =~= shorter);
        let before = gathered(shorter).extra;
        let i = choose|i: int| 0 <= i < before.len() && (#[trigger] before[i]).0 == key@;
        match later.last() {
            FieldValue::Extra(more, other) => if has_key(before, more@) {
                i
            } else {
                law_extra_keys_ascend(shorter);
                lemma_slot_keeps_order(before, more@, other);
                let slot = key_slot(before, more@);
                if i < slot {
                    i
                } else {
                    i + 1
                }
            },
            _ => i,
        }
    };
    assert(kept[at] == (key@, value));
    law_extra_keys_ascend(all);
    assert forall|i: int| 0 <= i < kept.len() && (#[trigger] kept[i]).0 == key@ implies kept[i].1
        == value by {
        law_texts_are_ordered(key@, key@);
        if i < at {
            assert(precedes(kept[i].0, kept[at].0));
        } else if at < i {
            assert(precedes(kept[at].0, kept[i].0));
        }
    }
}

/// The first time, level, name, hostname, pid, message and version offered
/// are the ones that the record keeps, whatever is offered afterwards.
pub proof fn law_first_core_value_wins(earlier: Seq<FieldValue>, later: Seq<FieldValue>)
    ensures
        ({
            let before = gathered(earlier);
            let after = gathered(earlier + later);
            &&& before.time is Some ==> after.time == before.time
            &&& before.level is Some ==> after.level == before.level
            &&& before.name is Some ==> after.name == before.name
            &&& before.hostname is Some ==> after.hostname == before.hostname
            &&& before.pid is Some ==> after.pid == before.pid
            &&& before.msg is Some ==> after.msg == before.msg
            &&& before.v is Some ==> after.v == before.v
        }),
    decreases later.len(),
{
    if later.len() == 0 {
        assert(earlier + later =~= earlier);
    } else {
        law_first_core_value_wins(earlier, later.drop_last());
        assert((earlier + later).drop_last() =~= earlier + later.drop_last());
    }
}

/// A key of a record, with what its value reads as under that key; nothing
/// where the value is of the wrong type.
pub struct RawField {
    pub key: Seq<char>,
    pub value: Option<FieldValue>,
}

/// Whether the value was read under its key: as a core field under a core
/// key, as a further field under any other.
pub open spec fn fits(field: RawField) -> bool {
    field.value matches Some(value) ==> {
        &&& key_of(value) == field.key
        &&& value is Extra ==> forall|core: CoreField| field.key != #[trigger] core.key()
    }
}

/// Whether every value was read under its key.
pub open spec fn all_fit(fields: Seq<RawField>) -> bool {
    forall|i: int| 0 <= i < fields.len() ==> fits(#[trigger] fields[i])
}

/// What is gathered from the fields of a record, key by key: a value whose
/// key is new is offered, and one whose key has been seen is skipped unread.
/// There is nothing where a value that must be read is of the wrong type.
pub open spec fn read(fields: Seq<RawField>) -> Option<BuilderView>
    decreases fields.len(),
{
    if fields.len() == 0 {
        Some(BuilderView::empty())
    } else {
        match read(fields.drop_last()) {
            Some(before) => if before.placement(fields.last().key) == Placement::Skip {
                Some(before)
            } else {
                match fields.last().value {
                    Some(value) => Some(before.offered(value)),
                    None => None,
                }
            },
            None => None,
        }
    }
}

/// Whether field `i` is the first with its key.
pub open spec fn is_first(fields: Seq<RawField>, i: int) -> bool {
    &&& 0 <= i < fields.len()
    &&& forall|k: int| 0 <= k < i ==> (#[trigger] fields[k]).key != fields[i].key
}

/// Whether the builder keeps the value under its key.
pub open spec fn keeps(builder: BuilderView, value: FieldValue) -> bool {
    match value {
        FieldValue::Time(t) => builder.time == Some(t),
        FieldValue::Level(l) => builder.level == Some(l),
        FieldValue::Name(n) => builder.name == Some(n.0@),
        FieldValue::Hostname(h) => builder.hostname == Some(h.0@),
        FieldValue::Pid(p) => builder.pid == Some(p.0),
        FieldValue::Msg(m) => builder.msg == Some(m@),
        FieldValue::V(v) => builder.v == Some(v),
        FieldValue::Extra(key, value) => exists|i: int|
            0 <= i < builder.extra.len() && #[trigger] builder.extra[i] == (key@, value),
    }
}

proof fn lemma_key_slot_lies_in(extra: Seq<(Seq<char>, serde_json::Value)>, key: Seq<char>)
    ensures
        0 <= key_slot(extra, key) <= extra.len(),
    decreases extra.len(),
{
    if extra.len() > 0 {
        lemma_key_slot_lies_in(extra.drop_last(), key);
    }
}

proof fn lemma_inserted(
    extra: Seq<(Seq<char>, serde_json::Value)>,
    slot: int,
    new: (Seq<char>, serde_json::Value),
)
    requires
        0 <= slot <= extra.len(),
    ensures
        extra.insert(slot, new)[slot] == new,
        forall|i: int|
            0 <= i < extra.len() ==> extra.insert(slot, new)[if i < slot {
                i
            } else {
                i + 1
            }] == #[trigger] extra[i],
        forall|i: int|
            0 <= i < extra.insert(slot, new).len() ==> (#[trigger] extra.insert(slot, new)[i])
                == new || extra.contains(extra.insert(slot, new)[i]),
{
    let after = extra.insert(slot, new);
    assert forall|i: int| 0 <= i < after.len() implies (#[trigger] after[i]) == new
        || extra.contains(after[i]) by {
        if i < slot {
            assert(after[i] == extra[i]);
        } else if i > slot {
            assert(after[i] == extra[i - 1]);
        }
    }
}

/// What an offer does to the keys that are seen and the values that are kept.
proof fn lemma_offered_value(before: BuilderView, field: RawField, key: Seq<char>, kept: FieldValue)
    requires
        fits(field),
        field.value is Some,
        before.placement(field.key) != Placement::Skip,
    ensures
        ({
            let after = before.offered(field.value->Some_0);
            &&& after.placement(field.key) == Placement::Skip
            &&& before.placement(key) == Placement::Skip ==> after.placement(key)
                == Placement::Skip
            &&& key != field.key && after.placement(key) == Placement::Skip
                ==> before.placement(key) == Placement::Skip
            &&& keeps(after, field.value->Some_0)
            &&& keeps(before, kept) ==> keeps(after, kept)
        }),
{
    lemma_core_keys_distinct();
    let value = field.value->Some_0;
    let after = before.offered(value);
    if let FieldValue::Extra(name, json) = value {
        let slot = key_slot(before.extra, name@);
        lemma_key_slot_lies_in(before.extra, name@);
        lemma_inserted(before.extra, slot, (name@, json));
        assert(field.key == name@);
        assert(CoreField::Time.key() != name@ && CoreField::Level.key() != name@
            && CoreField::Name.key() != name@ && CoreField::Hostname.key() != name@
            && CoreField::Pid.key() != name@ && CoreField::Msg.key() != name@
            && CoreField::V.key() != name@);
        assert(!has_key(before.extra, name@));
        assert(after.extra[slot] == (name@, json));
        assert(has_key(after.extra, name@)) by {
            assert(after.extra[slot].0 == name@);
        }
        if has_key(before.extra, key) {
            let i = choose|i: int| 0 <= i < before.extra.len() && (#[trigger] before.extra[i]).0 == key;
            let j = if i < slot { i } else { i + 1 };
            assert(after.extra[j] == before.extra[i]);
        }
        if has_key(after.extra, key) && key != name@ {
            let j = choose|j: int| 0 <= j < after.extra.len() && (#[trigger] after.extra[j]).0 == key;
            assert(before.extra.contains(after.extra[j]));
        }
        if keeps(before, kept) {
            if let FieldValue::Extra(other, held) = kept {
                let i = choose|i: int|
                    0 <= i < before.extra.len() && #[trigger] before.extra[i] == (other@, held);
                let j = if i < slot { i } else { i + 1 };
                assert(after.extra[j] == before.extra[i]);
            }
        }
    }
}

/// The keys seen so far are those of the fields.
proof fn lemma_seen_keys(fields: Seq<RawField>, key: Seq<char>)
    requires
        all_fit(fields),
        read(fields) is Some,
    ensures
        read(fields)->Some_0.placement(key) == Placement::Skip <==> exists|i: int|
            0 <= i < fields.len() && (#[trigger] fields[i]).key == key,
    decreases fields.len(),
{
    lemma_core_keys_distinct();
    if fields.len() > 0 {
        let rest = fields.drop_last();
        let last = fields.last();
        let n = fields.len() - 1;
        assert forall|i: int| 0 <= i < rest.len() implies fits(#[trigger] rest[i]) by {
            assert(rest[i] == fields[i]);
        }
        lemma_seen_keys(rest, key);
        lemma_seen_keys(rest, last.key);
        let before = read(rest)->Some_0;
        if before.placement(last.key) != Placement::Skip {
            assert(fits(fields[n]));
            lemma_offered_value(before, last, key, last.value->Some_0);
        }
        let after = read(fields)->Some_0;
        if after.placement(key) == Placement::Skip {
            if before.placement(key) == Placement::Skip {
                let i = choose|i: int| 0 <= i < rest.len() && (#[trigger] rest[i]).key == key;
                assert(fields[i].key == key);
            } else {
                assert(fields[n].key == key);
            }
        }
        if exists|i: int| 0 <= i < fields.len() && (#[trigger] fields[i]).key == key {
            let i = choose|i: int| 0 <= i < fields.len() && (#[trigger] fields[i]).key == key;
            if i < n {
                assert(rest[i].key == key);
            }
        }
    }
}

/// A later duplicate of a key changes nothing, whatever its value: the record
/// reads the same with it and without it, even where the value is of the
/// wrong type.
pub proof fn law_later_duplicates_change_nothing(
    earlier: Seq<RawField>,
    duplicate: RawField,
    later: Seq<RawField>,
)
    requires
        all_fit(earlier),
        exists|i: int| 0 <= i < earlier.len() && (#[trigger] earlier[i]).key == duplicate.key,
    ensures
        read(earlier.push(duplicate) + later) == read(earlier + later),
    decreases later.len(),
{
    let with = earlier.push(duplicate) + later;
    let without = earlier + later;
    if later.len() == 0 {
        assert(with.drop_last() =~= earlier);
        assert(without =~= earlier);
        if read(earlier) is Some {
            lemma_seen_keys(earlier, duplicate.key);
        }
    } else {
        law_later_duplicates_change_nothing(earlier, duplicate, later.drop_last());
        assert(with.drop_last() =~= earlier.push(duplicate) + later.drop_last());
        assert(without.drop_last() =~= earlier + later.drop_last());
    }
}

/// A record whose first values all read keeps exactly these: under every key
/// the first value, under no key any other, and nothing under a key that it
/// does not have.  It is an event if and only if it has every core key.
pub proof fn law_record_keeps_the_first_values(fields: Seq<RawField>)
    requires
        all_fit(fields),
        forall|i: int| #[trigger] is_first(fields, i) ==> fields[i].value is Some,
    ensures
        read(fields) matches Some(built) && {
            &&& forall|i: int| #[trigger] is_first(fields, i) ==> keeps(
                built,
                fields[i].value->Some_0,
            )
            &&& forall|key: Seq<char>|
                (#[trigger] built.placement(key)) == Placement::Skip <==> exists|i: int|
                    0 <= i < fields.len() && (#[trigger] fields[i]).key == key
            &&& keys_ascend(built.extra)
            &&& built.first_missing() is None <==> forall|core: CoreField|
                exists|i: int|
                    0 <= i < fields.len() && (#[trigger] fields[i]).key == #[trigger] core.key()
        },
    decreases fields.len(),
{
    lemma_core_keys_distinct();
    lemma_first_values_are_read(fields);
    let built = read(fields)->Some_0;
    assert forall|key: Seq<char>|
        (#[trigger] built.placement(key)) == Placement::Skip <==> exists|i: int|
            0 <= i < fields.len() && (#[trigger] fields[i]).key == key by {
        lemma_seen_keys(fields, key);
    }
    assert forall|core: CoreField| built.has(core) <==> built.placement(#[trigger] core.key())
        == Placement::Skip by {}
    if built.first_missing() is None {
        assert forall|core: CoreField|
            exists|i: int|
                0 <= i < fields.len() && (#[trigger] fields[i]).key == #[trigger] core.key() by {
            assert(built.has(core));
        }
    } else {
        let core = built.first_missing()->Some_0;
        assert(!built.has(core));
        assert(built.placement(core.key()) != Placement::Skip);
    }
}

proof fn lemma_first_values_are_read(fields: Seq<RawField>)
    requires
        all_fit(fields),
        forall|i: int| #[trigger] is_first(fields, i) ==> fields[i].value is Some,
    ensures
        read(fields) matches Some(built) && {
            &&& forall|i: int| #[trigger] is_first(fields, i) ==> keeps(
                built,
                fields[i].value->Some_0,
            )
            &&& keys_ascend(built.extra)
        },
    decreases fields.len(),
{
    if fields.len() > 0 {
        let rest = fields.drop_last();
        let last = fields.last();
        let n = fields.len() - 1;
        assert forall|i: int| 0 <= i < rest.len() implies fits(#[trigger] rest[i]) by {
            assert(rest[i] == fields[i]);
        }
        assert forall|i: int| #[trigger] is_first(rest, i) implies rest[i].value is Some by {
            lemma_still_first(fields, i);
        }
        lemma_first_values_are_read(rest);
        lemma_seen_keys(rest, last.key);
        let before = read(rest)->Some_0;
        if before.placement(last.key) != Placement::Skip {
            assert(is_first(fields, n)) by {
                assert forall|k: int| 0 <= k < n implies (#[trigger] fields[k]).key
                    != fields[n].key by {
                    assert(rest[k] == fields[k]);
                }
            }
            assert(fits(fields[n]));
            if let FieldValue::Extra(key, value) = last.value->Some_0 {
                lemma_core_keys_distinct();
                if !has_key(before.extra, key@) {
                    lemma_slot_keeps_order(before.extra, key@, value);
                }
            }
        }
        let built = read(fields)->Some_0;
        assert forall|i: int| #[trigger] is_first(fields, i) implies keeps(
            built,
            fields[i].value->Some_0,
        ) by {
            if i < n {
                lemma_still_first(fields, i);
                assert(is_first(rest, i));
                if before.placement(last.key) != Placement::Skip {
                    lemma_offered_value(before, last, last.key, fields[i].value->Some_0);
                }
            } else {
                if before.placement(last.key) == Placement::Skip {
                    let k = choose|k: int| 0 <= k < rest.len() && (#[trigger] rest[k]).key
                        == last.key;
                    assert(fields[k].key == fields[n].key);
                }
                lemma_offered_value(before, last, last.key, last.value->Some_0);
            }
        }
    }
}

proof fn lemma_still_first(fields: Seq<RawField>, i: int)
    requires
        0 <= i < fields.len() - 1,
    ensures
        is_first(fields, i) <==> is_first(fields.drop_last(), i),
        fields.drop_last()[i] == fields[i],
{
    let rest = fields.drop_last();
    if is_first(rest, i) {
        assert forall|k: int| 0 <= k < i implies (#[trigger] fields[k]).key != fields[i].key by {
            assert(rest[k] == fields[k]);
        }
    }
    if is_first(fields, i) {
        assert forall|k: int| 0 <= k < i implies (#[trigger] rest[k]).key != rest[i].key by {
            assert(rest[k] == fields[k]);
        }
    }
}

/// Times are ordered as instants are: by the nanoseconds since the epoch.
pub proof fn law_time_order_is_chronological(a: Timestamp, b: Timestamp)
    requires
        a.nanos < 1_000_000_000,
        b.nanos < 1_000_000_000,
    ensures
        a.earlier(b) <==> a.secs * 1_000_000_000 + a.nanos < b.secs * 1_000_000_000 + b.nanos,
        a == b <==> a.secs * 1_000_000_000 + a.nanos == b.secs * 1_000_000_000 + b.nanos,
{
}

/// The seven core keys are those of the format: a key that has not been seen
/// is read as the field that bears its name, and any other key as a further
/// field.
pub proof fn law_core_keys_are_those_of_the_format(key: Seq<char>)
    ensures
        ({
            let placed = BuilderView::empty().placement(key);
            &&& placed == Placement::Core(CoreField::Time) <==> key == "time"@
            &&& placed == Placement::Core(CoreField::Level) <==> key == "level"@
            &&& placed == Placement::Core(CoreField::Name) <==> key == "name"@
            &&& placed == Placement::Core(CoreField::Hostname) <==> key == "hostname"@
            &&& placed == Placement::Core(CoreField::Pid) <==> key == "pid"@
            &&& placed == Placement::Core(CoreField::Msg) <==> key == "msg"@
            &&& placed == Placement::Core(CoreField::V) <==> key == "v"@
            &&& placed == Placement::Extra <==> key != "time"@ && key != "level"@ && key
                != "name"@ && key != "hostname"@ && key != "pid"@ && key != "msg"@ && key != "v"@
        }),
{
    lemma_core_keys_distinct();
    assert(CoreField::Time.key() == "time"@ && CoreField::Level.key() == "level"@
        && CoreField::Name.key() == "name"@ && CoreField::Hostname.key() == "hostname"@
        && CoreField::Pid.key() == "pid"@ && CoreField::Msg.key() == "msg"@ && CoreField::V.key()
        == "v"@);
}

/// A record says under every field what its line says under that key: the
/// first value of `time` is its time, the first of `hostname` its host, and so
/// on; under a further key the first value stands among its further fields,
/// and these hold nothing else.
pub proof fn law_event_says_what_its_line_says(fields: Seq<RawField>, i: int)
    requires
        all_fit(fields),
        forall|n: int| #[trigger] is_first(fields, n) ==> fields[n].value is Some,
        0 <= i < fields.len(),
        forall|k: int| 0 <= k < i ==> (#[trigger] fields[k]).key != fields[i].key,
        read(fields)->Some_0.first_missing() is None,
    ensures
        ({
            let event = read(fields)->Some_0.event();
            let key = fields[i].key;
            match fields[i].value->Some_0 {
                FieldValue::Time(t) => key == "time"@ && event.time == t,
                FieldValue::Level(l) => key == "level"@ && event.level == l,
                FieldValue::Name(n) => key == "name"@ && event.name == n.0@,
                FieldValue::Hostname(h) => key == "hostname"@ && event.hostname == h.0@,
                FieldValue::Pid(p) => key == "pid"@ && event.pid == p.0,
                FieldValue::Msg(m) => key == "msg"@ && event.msg == m@,
                FieldValue::V(v) => key == "v"@ && event.v == v,
                FieldValue::Extra(name, value) => key == name@ && event.extra.contains(
                    (key, value),
                ),
            }
        }),
        ({
            let extra = read(fields)->Some_0.event().extra;
            forall|n: int|
                0 <= n < extra.len() ==> exists|k: int|
                    0 <= k < fields.len() && (#[trigger] fields[k]).key == (#[trigger] extra[n]).0
        }),
{
    assert(is_first(fields, i));
    law_record_keeps_the_first_values(fields);
    let built = read(fields)->Some_0;
    let value = fields[i].value->Some_0;
    assert(keeps(built, value));
    assert(fits(fields[i]));
    assert(key_of(value) == fields[i].key);
    if let FieldValue::Extra(name, json) = value {
        let n = choose|n: int|
            0 <= n < built.extra.len() && #[trigger] built.extra[n] == (name@, json);
        assert(built.event().extra[n] == (fields[i].key, json));
    }
    let extra = built.event().extra;
    assert forall|n: int| 0 <= n < extra.len() implies exists|k: int|
        0 <= k < fields.len() && (#[trigger] fields[k]).key == (#[trigger] extra[n]).0 by {
        lemma_extras_are_read(fields, n);
    }
}

/// Every further field was read from some key.
proof fn lemma_extras_are_read(fields: Seq<RawField>, n: int)
    requires
        all_fit(fields),
        read(fields) is Some,
        0 <= n < read(fields)->Some_0.extra.len(),
    ensures
        exists|k: int|
            0 <= k < fields.len() && (#[trigger] fields[k]).key
                == read(fields)->Some_0.extra[n].0,
    decreases fields.len(),
{
    if fields.len() > 0 {
        let rest = fields.drop_last();
        let last = fields.len() - 1;
        assert forall|i: int| 0 <= i < rest.len() implies fits(#[trigger] rest[i]) by {
            assert(rest[i] == fields[i]);
        }
        let before = read(rest)->Some_0;
        let after = read(fields)->Some_0;
        assert(fits(fields[last]));
        let mut at = n;
        if before.placement(fields[last].key) != Placement::Skip {
            if let FieldValue::Extra(name, json) = fields[last].value->Some_0 {
                if !has_key(before.extra, name@) {
                    let slot = key_slot(before.extra, name@);
                    lemma_key_slot_lies_in(before.extra, name@);
                    if n == slot {
                        assert(fields[last].key == after.extra[n].0);
                    } else if n > slot {
                        at = n - 1;
                    }
                }
            }
        }
        if !(fields[last].key == after.extra[n].0) {
            assert(before.extra[at] == after.extra[n]);
            lemma_extras_are_read(rest, at);
            let k = choose|k: int|
                0 <= k < rest.len() && (#[trigger] rest[k]).key == before.extra[at].0;
            assert(fields[k].key == after.extra[n].0);
        }
    }
}

/// The levels are those of the format, by number and by name, and the more
/// severe one has the higher number.
pub proof fn law_levels_are_those_of_the_format()
    ensures
        Level::Trace.number() == 10 && Level::Trace.name() == "TRACE"@,
        Level::Debug.number() == 20 && Level::Debug.name() == "DEBUG"@,
        Level::Info.number() == 30 && Level::Info.name() == "INFO"@,
        Level::Warn.number() == 40 && Level::Warn.name() == "WARN"@,
        Level::Error.number() == 50 && Level::Error.name() == "ERROR"@,
        Level::Fatal.number() == 60 && Level::Fatal.name() == "FATAL"@,
{
}

/// What is offered fills the field that it is for, unless that is filled
/// already, and no other.
pub proof fn law_offers_fill_their_own_field(
    builder: BuilderView,
    t: Timestamp,
    l: Level,
    n: LoggerName,
    h: Hostname,
    p: Pid,
    m: String,
    v: u32,
)
    ensures
        builder.offered(FieldValue::Time(t)) == (BuilderView {
            time: if builder.time is Some {
                builder.time
            } else {
                Some(t)
            },
            ..builder
        }),
        builder.offered(FieldValue::Level(l)) == (BuilderView {
            level: if builder.level is Some {
                builder.level
            } else {
                Some(l)
            },
            ..builder
        }),
        builder.offered(FieldValue::Name(n)) == (BuilderView {
            name: if builder.name is Some {
                builder.name
            } else {
                Some(n.0@)
            },
            ..builder
        }),
        builder.offered(FieldValue::Hostname(h)) == (BuilderView {
            hostname: if builder.hostname is Some {
                builder.hostname
            } else {
                Some(h.0@)
            },
            ..builder
        }),
        builder.offered(FieldValue::Pid(p)) == (BuilderView {
            pid: if builder.pid is Some {
                builder.pid
            } else {
                Some(p.0)
            },
            ..builder
        }),
        builder.offered(FieldValue::Msg(m)) == (BuilderView {
            msg: if builder.msg is Some {
                builder.msg
            } else {
                Some(m@)
            },
            ..builder
        }),
        builder.offered(FieldValue::V(v)) == (BuilderView {
            v: if builder.v is Some {
                builder.v
            } else {
                Some(v)
            },
            ..builder
        }),
{
}

/// A field is asked for while its value is still wanted, and skipped once it
/// is there: a core field by its own key, any other by its key among the
/// further ones.
pub proof fn law_known_fields_are_skipped(builder: BuilderView, key: Seq<char>)
    ensures
        builder.placement("time"@) == Placement::Skip <==> builder.time is Some,
        builder.placement("level"@) == Placement::Skip <==> builder.level is Some,
        builder.placement("name"@) == Placement::Skip <==> builder.name is Some,
        builder.placement("hostname"@) == Placement::Skip <==> builder.hostname is Some,
        builder.placement("pid"@) == Placement::Skip <==> builder.pid is Some,
        builder.placement("msg"@) == Placement::Skip <==> builder.msg is Some,
        builder.placement("v"@) == Placement::Skip <==> builder.v is Some,
        key != "time"@ && key != "level"@ && key != "name"@ && key != "hostname"@ && key != "pid"@
            && key != "msg"@ && key != "v"@ ==> {
            &&& builder.placement(key) == Placement::Skip <==> exists|i: int|
                0 <= i < builder.extra.len() && (#[trigger] builder.extra[i]).0 == key
            &&& builder.placement(key) == Placement::Skip || builder.placement(key)
                == Placement::Extra
        },
{
    lemma_core_keys_distinct();
}

/// Of the core fields that are missing, the one told is the first in the
/// order time, level, name, hostname, pid, message and version.
pub proof fn law_first_missing_field_is_told(builder: BuilderView)
    ensures
        match builder.first_missing() {
            Some(CoreField::Time) => builder.time is None,
            Some(CoreField::Level) => builder.level is None && builder.time is Some,
            Some(CoreField::Name) => builder.name is None && builder.time is Some
                && builder.level is Some,
            Some(CoreField::Hostname) => builder.hostname is None && builder.time is Some
                && builder.level is Some && builder.name is Some,
            Some(CoreField::Pid) => builder.pid is None && builder.time is Some
                && builder.level is Some && builder.name is Some && builder.hostname is Some,
            Some(CoreField::Msg) => builder.msg is None && builder.time is Some
                && builder.level is Some && builder.name is Some && builder.hostname is Some
                && builder.pid is Some,
            Some(CoreField::V) => builder.v is None && builder.time is Some
                && builder.level is Some && builder.name is Some && builder.hostname is Some
                && builder.pid is Some && builder.msg is Some,
            None => builder.time is Some && builder.level is Some && builder.name is Some
                && builder.hostname is Some && builder.pid is Some && builder.msg is Some
                && builder.v is Some,
        },
{
}

} // verus!
