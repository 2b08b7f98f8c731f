//! Byte positions inside sources, and the [`Cursor`] that gathers one
//! position per source.

use crate::event::Timestamp;
use vstd::prelude::*;

verus! {

/// Identifies a source.  For a file-backed source this is the canonical
/// path.
#[derive(Debug, PartialEq, Eq, Hash, PartialOrd, Ord)]
pub struct SourceId(String);

impl View for SourceId {
    type V = Seq<char>;

    closed spec fn view(&self) -> Seq<char> {
        self.0@
    }
}

impl SourceId {
    /// The source whose name is `name`.
    pub fn new(name: String) -> (id: Self)
        ensures
            id@ == name@,
    {
        SourceId(name)
    }

    /// The name.
    pub fn as_str(&self) -> (name: &str)
        ensures
            name@ == self@,
    {
        self.0.as_str()
    }

    /// Whether both ids name the same source.
    pub fn same(&self, other: &SourceId) -> (yes: bool)
        ensures
            yes == (self@ == other@),
    {
        self.0 == other.0
    }
}

impl Clone for SourceId {
    fn clone(&self) -> (copy: Self)
        ensures
            copy@ == self@,
            copy == *self,
    {
        SourceId(self.0.clone())
    }
}

impl From<String> for SourceId {
    fn from(name: String) -> (id: Self) {
        SourceId(name)
    }
}

impl vstd::std_specs::convert::FromSpecImpl<String> for SourceId {
    open spec fn obeys_from_spec() -> bool {
        true
    }

    closed spec fn from_spec(name: String) -> SourceId {
        SourceId(name)
    }
}

/// Offset of a byte from the start of its source.
#[derive(Debug, Clone, Copy, PartialEq, Eq, Structural, Hash, PartialOrd, Ord)]
pub struct ByteOffset(pub u64);

/// A number of bytes.
#[derive(Debug, Clone, Copy, PartialEq, Eq, Structural, Hash, PartialOrd, Ord)]
pub struct ByteLen(pub u64);

/// The offset `by` bytes past `from`, held at the largest offset there is.
pub open spec fn offset_after(from: int, by: int) -> int {
    if from + by <= u64::MAX {
        from + by
    } else {
        u64::MAX as int
    }
}

/// The offset `by` bytes before `from`, held at the start of the source.
pub open spec fn offset_before(from: int, by: int) -> int {
    if by <= from {
        from - by
    } else {
        0
    }
}

impl ByteOffset {
    /// The start of a source.
    pub fn zero() -> (zero: ByteOffset)
        ensures
            zero.0 == 0,
    {
        ByteOffset(0)
    }

    /// The offset as a number.
    pub fn get(self) -> (n: u64)
        ensures
            n == self.0,
    {
        self.0
    }

    /// The offset `by` bytes further on, held at the largest offset.
    pub fn advance(self, by: ByteLen) -> (next: ByteOffset)
        ensures
            next.0 == offset_after(self.0 as int, by.0 as int),
    {
        ByteOffset(self.0.saturating_add(by.0))
    }

    /// The offset `by` bytes further back, held at the start.
    pub fn retreat(self, by: ByteLen) -> (previous: ByteOffset)
        ensures
            previous.0 == offset_before(self.0 as int, by.0 as int),
    {
        ByteOffset(self.0.saturating_sub(by.0))
    }
}

impl From<u64> for ByteOffset {
    fn from(n: u64) -> (offset: Self) {
        ByteOffset(n)
    }
}

impl vstd::std_specs::convert::FromSpecImpl<u64> for ByteOffset {
    open spec fn obeys_from_spec() -> bool {
        true
    }

    open spec fn from_spec(n: u64) -> ByteOffset {
        ByteOffset(n)
    }
}

impl ByteLen {
    /// No bytes.
    pub fn zero() -> (zero: ByteLen)
        ensures
            zero.0 == 0,
    {
        ByteLen(0)
    }

    /// The length as a number.
    pub fn get(self) -> (n: u64)
        ensures
            n == self.0,
    {
        self.0
    }

    /// Both lengths together, held at the largest length.
    pub fn plus(self, more: ByteLen) -> (total: ByteLen)
        ensures
            total.0 == offset_after(self.0 as int, more.0 as int),
    {
        ByteLen(self.0.saturating_add(more.0))
    }
}

impl From<u64> for ByteLen {
    fn from(n: u64) -> (len: Self) {
        ByteLen(n)
    }
}

impl vstd::std_specs::convert::FromSpecImpl<u64> for ByteLen {
    open spec fn obeys_from_spec() -> bool {
        true
    }

    open spec fn from_spec(n: u64) -> ByteLen {
        ByteLen(n)
    }
}

/// One position per source.
///
/// A cursor says where a merged walk over several sources stands.  A source
/// that it does not mention stands at its start.
#[derive(Debug)]
pub struct Cursor {
    entries: Vec<(SourceId, ByteOffset)>,
}

/// No source occurs twice.
pub open spec fn ids_distinct(entries: Seq<(SourceId, ByteOffset)>) -> bool {
    forall|i: int, j: int|
        0 <= i < j < entries.len() ==> (#[trigger] entries[i]).0@ != (#[trigger] entries[j]).0@
}

/// The offsets that `entries` records, a later entry replacing an earlier
/// one for the same source.
pub open spec fn offsets_of(entries: Seq<(SourceId, ByteOffset)>) -> Map<Seq<char>, ByteOffset>
    decreases entries.len(),
{
    if entries.len() == 0 {
        Map::empty()
    } else {
        offsets_of(entries.drop_last()).insert(entries.last().0@, entries.last().1)
    }
}

/// The offsets of all entries together, held at the largest offset.
pub open spec fn sum_of_offsets(entries: Seq<(SourceId, ByteOffset)>) -> u64
    decreases entries.len(),
{
    if entries.len() == 0 {
        0
    } else {
        offset_after(
            sum_of_offsets(entries.drop_last()) as int,
            entries.last().1.0 as int,
        ) as u64
    }
}

proof fn lemma_offsets_of_domain(entries: Seq<(SourceId, ByteOffset)>, id: Seq<char>)
    ensures
        offsets_of(entries).dom().contains(id) <==> exists|i: int|
            0 <= i < entries.len() && (#[trigger] entries[i]).0@ == id,
    decreases entries.len(),
{
    if entries.len() > 0 {
        let rest = entries.drop_last();
        lemma_offsets_of_domain(rest, id);
        assert(forall|i: int| 0 <= i < rest.len() ==> rest[i] == entries[i]);
        if offsets_of(rest).dom().contains(id) {
            let i = choose|i: int| 0 <= i < rest.len() && (#[trigger] rest[i]).0@ == id;
            assert(entries[i].0@ == id);
        }
        if offsets_of(entries).dom().contains(id) && !offsets_of(rest).dom().contains(id) {
            assert(entries[entries.len() - 1].0@ == id);
        }
        if exists|i: int| 0 <= i < entries.len() && (#[trigger] entries[i]).0@ == id {
            let i = choose|i: int| 0 <= i < entries.len() && (#[trigger] entries[i]).0@ == id;
            if i < rest.len() {
                assert(rest[i].0@ == id);
            }
        }
    }
}

proof fn lemma_offsets_of_entry(entries: Seq<(SourceId, ByteOffset)>, i: int)
    requires
        ids_distinct(entries),
        0 <= i < entries.len(),
    ensures
        offsets_of(entries).dom().contains(entries[i].0@),
        offsets_of(entries)[entries[i].0@] == entries[i].1,
    decreases entries.len(),
{
    let rest = entries.drop_last();
    if i < rest.len() {
        assert(forall|k: int| 0 <= k < rest.len() ==> rest[k] == entries[k]);
        lemma_offsets_of_entry(rest, i);
        assert(rest[i] == entries[i]);
        assert(entries[i].0@ != entries[entries.len() - 1].0@);
    }
}

proof fn lemma_offsets_of_update(entries: Seq<(SourceId, ByteOffset)>, i: int, offset: ByteOffset)
    requires
        ids_distinct(entries),
        0 <= i < entries.len(),
    ensures
        ids_distinct(entries.update(i, (entries[i].0, offset))),
        offsets_of(entries.update(i, (entries[i].0, offset))) == offsets_of(entries).insert(
            entries[i].0@,
            offset,
        ),
    decreases entries.len(),
{
    let updated = entries.update(i, (entries[i].0, offset));
    assert(forall|k: int| 0 <= k < entries.len() ==> (#[trigger] updated[k]).0@ == entries[k].0@);
    let rest = entries.drop_last();
    if i < rest.len() {
        assert(forall|k: int| 0 <= k < rest.len() ==> rest[k] == entries[k]);
        lemma_offsets_of_update(rest, i, offset);
        assert(updated.drop_last() =~= rest.update(i, (rest[i].0, offset)));
        assert(entries[i].0@ != entries[entries.len() - 1].0@);
        assert(offsets_of(updated) =~= offsets_of(entries).insert(entries[i].0@, offset));
    } else {
        assert(updated.drop_last() =~= rest);
        assert(offsets_of(updated) =~= offsets_of(entries).insert(entries[i].0@, offset));
    }
}

impl View for Cursor {
    type V = Map<Seq<char>, ByteOffset>;

    closed spec fn view(&self) -> Map<Seq<char>, ByteOffset> {
        offsets_of(self.entries@)
    }
}

impl Cursor {
    #[verifier::type_invariant]
    spec fn well_formed(self) -> bool {
        ids_distinct(self.entries@)
    }

    /// The cursor that mentions no source.
    pub fn new() -> (cursor: Self)
        ensures
            cursor@ == Map::<Seq<char>, ByteOffset>::empty(),
    {
        Cursor { entries: Vec::new() }
    }

    /// The cursor with the given positions; where a source is named more
    /// than once, its last position holds.
    pub fn with(entries: Vec<(SourceId, ByteOffset)>) -> (cursor: Self)
        ensures
            cursor@ == offsets_of(entries@),
    {
        let mut cursor = Cursor::new();
        let mut i: usize = 0;
        while i < entries.len()
            invariant
                i <= entries@.len(),
                cursor@ == offsets_of(entries@.take(i as int)),
            decreases entries@.len() - i,
        {
            cursor.set(entries[i].0.clone(), entries[i].1);
            i = i + 1;
            assert(entries@.take(i as int).drop_last() =~= entries@.take(i - 1));
        }
        assert(entries@.take(i as int) =~= entries@);
        cursor
    }

    /// The position of `id`, if the cursor mentions it.
    pub fn get(&self, id: &SourceId) -> (found: Option<ByteOffset>)
        ensures
            found == (if self@.dom().contains(id@) { Some(self@[id@]) } else { None }),
    {
        proof {
            use_type_invariant(self);
        }
        let mut i: usize = 0;
        while i < self.entries.len()
            invariant
                ids_distinct(self.entries@),
                i <= self.entries@.len(),
                forall|k: int| 0 <= k < i ==> (#[trigger] self.entries@[k]).0@ != id@,
            decreases self.entries@.len() - i,
        {
            if self.entries[i].0.same(id) {
                proof {
                    lemma_offsets_of_entry(self.entries@, i as int);
                }
                return Some(self.entries[i].1);
            }
            i = i + 1;
        }
        proof {
            lemma_offsets_of_domain(self.entries@, id@);
        }
        None
    }

    /// Moves `id` to `offset`.
    pub fn set(&mut self, id: SourceId, offset: ByteOffset)
        ensures
            final(self)@ == old(self)@.insert(id@, offset),
    {
        proof {
            use_type_invariant(&*self);
        }
        let mut entries: Vec<(SourceId, ByteOffset)> = Vec::new();
        std::mem::swap(&mut self.entries, &mut entries);
        let mut i: usize = 0;
        while i < entries.len() && !entries[i].0.same(&id)
            invariant
                i <= entries@.len(),
                forall|k: int| 0 <= k < i ==> (#[trigger] entries@[k]).0@ != id@,
            decreases entries@.len() - i,
        {
            i = i + 1;
        }
        let ghost before = entries@;
        if i < entries.len() {
            proof {
                lemma_offsets_of_update(before, i as int, offset);
            }
            let kept = entries[i].0.clone();
            entries.set(i, (kept, offset));
        } else {
            entries.push((id, offset));
            assert(entries@.drop_last() =~= before);
        }
        self.entries = entries;
    }

    /// Whether the cursor mentions no source.
    pub fn is_empty(&self) -> (yes: bool)
        ensures
            yes == (self@.dom() == Set::<Seq<char>>::empty()),
    {
        if self.entries.len() == 0 {
            assert(self@.dom() =~= Set::<Seq<char>>::empty());
            true
        } else {
            proof {
                lemma_offsets_of_domain(self.entries@, self.entries@[0].0@);
                assert(self@.dom().contains(self.entries@[0].0@));
            }
            false
        }
    }

    /// The bytes in front of the cursor, over all sources.
    pub fn byte_offset(&self) -> (total: ByteOffset)
        ensures
            exists|entries: Seq<(SourceId, ByteOffset)>|
                {
                    &&& #[trigger] ids_distinct(entries)
                    &&& offsets_of(entries) == self@
                    &&& total.0 == sum_of_offsets(entries)
                },
    {
        proof {
            use_type_invariant(self);
        }
        let mut total: u64 = 0;
        let mut i: usize = 0;
        while i < self.entries.len()
            invariant
                i <= self.entries@.len(),
                total == sum_of_offsets(self.entries@.take(i as int)),
            decreases self.entries@.len() - i,
        {
            total = total.saturating_add(self.entries[i].1.0);
            i = i + 1;
            assert(self.entries@.take(i as int).drop_last() =~= self.entries@.take(i - 1));
        }
        assert(self.entries@.take(i as int) =~= self.entries@);
        ByteOffset(total)
    }

    /// The positions, one entry per source.
    pub fn entries(&self) -> (entries: &Vec<(SourceId, ByteOffset)>)
        ensures
            ids_distinct(entries@),
            offsets_of(entries@) == self@,
    {
        proof {
            use_type_invariant(self);
        }
        &self.entries
    }
}

impl Clone for Cursor {
    fn clone(&self) -> (copy: Self)
        ensures
            copy@ == self@,
    {
        proof {
            use_type_invariant(self);
        }
        let mut entries: Vec<(SourceId, ByteOffset)> = Vec::new();
        let mut i: usize = 0;
        while i < self.entries.len()
            invariant
                i <= self.entries@.len(),
                entries@ == self.entries@.take(i as int),
            decreases self.entries@.len() - i,
        {
            entries.push((self.entries[i].0.clone(), self.entries[i].1));
            i = i + 1;
        }
        assert(entries@ =~= self.entries@);
        Cursor { entries }
    }
}

/// A stable anchor for a record: its source, its time, and a tiebreaker
/// among the records of the source that share that time.  It survives
/// changes to the active filter.
#[derive(Debug)]
pub struct LogStreamPosition {
    pub source: SourceId,
    pub time: Timestamp,
    pub tiebreaker: u64,
}

impl LogStreamPosition {
    /// The anchor of the record of `source` at `time` that is number
    /// `tiebreaker` among those of that time.
    pub fn new(source: SourceId, time: Timestamp, tiebreaker: u64) -> (position: Self)
        ensures
            position.source == source,
            position.time == time,
            position.tiebreaker == tiebreaker,
    {
        LogStreamPosition { source, time, tiebreaker }
    }
}

/// An offset goes on by a length and back by it; it stops at the largest that
/// can be held and at nought.
pub proof fn law_offsets_go_on_and_back(from: u64, by: u64)
    ensures
        from + by <= u64::MAX ==> offset_after(from as int, by as int) == from + by
            && offset_before(offset_after(from as int, by as int), by as int) == from,
        from + by > u64::MAX ==> offset_after(from as int, by as int) == u64::MAX,
        by <= from ==> offset_before(from as int, by as int) == from - by,
        by > from ==> offset_before(from as int, by as int) == 0,
{
}

/// A cursor has, of each source that was given, the offset given last.
pub proof fn law_cursors_hold_the_offset_given_last(
    entries: Seq<(SourceId, ByteOffset)>,
    entry: (SourceId, ByteOffset),
    id: Seq<char>,
)
    ensures
        ({
            let cursor = offsets_of(entries.push(entry));
            &&& cursor.dom().contains(entry.0@) && cursor[entry.0@] == entry.1
            &&& id != entry.0@ ==> (cursor.dom().contains(id) <==> offsets_of(
                entries,
            ).dom().contains(id))
            &&& id != entry.0@ && cursor.dom().contains(id) ==> cursor[id] == offsets_of(
                entries,
            )[id]
        }),
        offsets_of(Seq::empty()).dom() == Set::<Seq<char>>::empty(),
{
    assert(entries.push(entry).drop_last() =~= entries);
}

/// The place over all sources is the sum of the offsets, up to the largest that
/// can be held.
pub proof fn law_place_is_the_sum_of_the_offsets(
    entries: Seq<(SourceId, ByteOffset)>,
    entry: (SourceId, ByteOffset),
)
    ensures
        sum_of_offsets(Seq::empty()) == 0,
        sum_of_offsets(entries.push(entry)) == if sum_of_offsets(entries) + entry.1.0 <= u64::MAX {
            sum_of_offsets(entries) + entry.1.0
        } else {
            u64::MAX as int
        },
{
    assert(entries.push(entry).drop_last() =~= entries);
}

} // verus!
