//! What survives a restart: streams, bookmarks, tabs and search history.

use crate::event::Timestamp;
use crate::filter::{Filter, PredicateView};
use crate::position::{ByteOffset, Cursor, SourceId};
use crate::number::{
    hex, hex_text, hex_value, lemma_hex_len, lemma_hex_reads_back, lemma_hex_value_bound,
    lemma_powers_of_16, parse_hex,
};
use crate::text::{chars_of, same_text, text_of, views};
use vstd::prelude::*;

verus! {

/// A map of identified items in key order.
#[verifier::external_type_specification]
#[verifier::external_body]
#[verifier::reject_recursive_types(T)]
pub struct ExIdOrdMap<T>(iddqd::IdOrdMap<T>);

/// Identifies a log stream.
#[derive(Debug, Clone, Copy, PartialEq, Eq, Structural, Hash, PartialOrd, Ord)]
pub struct LogStreamId(pub u128);

/// Identifies a bookmark.
#[derive(Debug, Clone, Copy, PartialEq, Eq, Structural, Hash, PartialOrd, Ord)]
pub struct BookmarkId(pub u128);

/// Identifies a session.
#[derive(Debug, Clone, Copy, PartialEq, Eq, Structural, Hash, PartialOrd, Ord)]
pub struct SessionId(pub u32);

impl SessionId {
    /// The id as eight hexadecimal digits.
    pub fn to_text(self) -> (text: String)
        ensures
            text@ == hex(self.0 as nat, 8),
    {
        hex_text(self.0 as u128, 8)
    }

    /// The id that the text spells: eight hexadecimal digits.
    pub fn parse(text: &str) -> (id: Option<SessionId>)
        ensures
            match id {
                Some(id) => text@.len() == 8 && hex_value(text@) == Some(id.0 as nat),
                None => text@.len() != 8 || hex_value(text@) is None,
            },
    {
        let chars = chars_of(text);
        if chars.len() != 8 {
            return None;
        }
        match parse_hex(&chars) {
            Some(n) => {
                proof {
                    lemma_hex_value_bound(text@);
                    lemma_powers_of_16();
                }
                Some(SessionId(n as u32))
            },
            None => None,
        }
    }
}

/// An id spelled out reads back as itself.
pub proof fn law_session_ids_read_back(id: SessionId)
    ensures
        hex(id.0 as nat, 8).len() == 8,
        hex_value(hex(id.0 as nat, 8)) == Some(id.0 as nat),
{
    lemma_powers_of_16();
    lemma_hex_reads_back(id.0 as nat, 8);
}

impl BookmarkId {
    /// The id in the form of a UUID.
    pub open spec fn text(self) -> Seq<char> {
        let digits = hex(self.0 as nat, 32);
        digits.subrange(0, 8) + "-"@ + digits.subrange(8, 12) + "-"@ + digits.subrange(12, 16)
            + "-"@ + digits.subrange(16, 20) + "-"@ + digits.subrange(20, 32)
    }

    /// The id in the form of a UUID: hexadecimal digits in groups of eight,
    /// four, four, four and twelve.
    pub fn to_text(self) -> (text: String)
        ensures
            text@ == self.text(),
    {
        let digits = hex_text(self.0, 32);
        let chars = chars_of(digits.as_str());
        proof {
            lemma_hex_len(self.0 as nat, 32);
        }
        let mut text = text_of(&chars, 0, 8);
        text.append("-");
        let second = text_of(&chars, 8, 12);
        text.append(second.as_str());
        text.append("-");
        let third = text_of(&chars, 12, 16);
        text.append(third.as_str());
        text.append("-");
        let fourth = text_of(&chars, 16, 20);
        text.append(fourth.as_str());
        text.append("-");
        let fifth = text_of(&chars, 20, 32);
        text.append(fifth.as_str());
        text
    }
}

/// How much of the hostname a rendered line shows.
#[derive(Debug, Clone, Copy, PartialEq, Eq, Structural)]
pub enum HostnameDisplay {
    Short,
    Full,
    Hidden,
}

/// What a rendered line shows.
#[derive(Debug, Clone, Copy, PartialEq, Eq, Structural)]
pub struct RenderOpts {
    pub show_extras: bool,
    pub show_raw: bool,
    pub show_date: bool,
    pub hostname: HostnameDisplay,
    pub show_name: bool,
    pub show_pid: bool,
}

/// What a stream shows until the user says otherwise: the date, the short
/// hostname and the logger name.
pub open spec fn default_opts() -> RenderOpts {
    RenderOpts {
        show_extras: false,
        show_raw: false,
        show_date: true,
        hostname: HostnameDisplay::Short,
        show_name: true,
        show_pid: false,
    }
}

impl Default for RenderOpts {
    fn default() -> (opts: Self)
        ensures
            opts == default_opts(),
    {
        RenderOpts {
            show_extras: false,
            show_raw: false,
            show_date: true,
            hostname: HostnameDisplay::Short,
            show_name: true,
            show_pid: false,
        }
    }
}

/// A filtered view of the sources, with how it is rendered.
#[derive(Debug)]
pub struct LogStream {
    pub id: LogStreamId,
    pub name: String,
    pub filter: Filter,
    pub show_extras: bool,
    pub show_raw: bool,
    pub show_date: bool,
    pub show_name: bool,
    pub show_pid: bool,
    pub hostname_display: HostnameDisplay,
}

/// What a [`LogStream`] says.
#[verifier::ext_equal]
pub struct LogStreamView {
    pub id: u128,
    pub name: Seq<char>,
    pub filter: Seq<PredicateView>,
    pub opts: RenderOpts,
}

impl View for LogStream {
    type V = LogStreamView;

    open spec fn view(&self) -> LogStreamView {
        LogStreamView {
            id: self.id.0,
            name: self.name@,
            filter: self.filter@,
            opts: RenderOpts {
                show_extras: self.show_extras,
                show_raw: self.show_raw,
                show_date: self.show_date,
                hostname: self.hostname_display,
                show_name: self.show_name,
                show_pid: self.show_pid,
            },
        }
    }
}

impl LogStream {
    /// A stream under the given id that accepts everything and renders as
    /// streams do by default.
    pub fn new(id: LogStreamId, name: String) -> (stream: Self)
        ensures
            stream@ == (LogStreamView {
                id: id.0,
                name: name@,
                filter: Seq::empty(),
                opts: default_opts(),
            }),
    {
        LogStream {
            id,
            name,
            filter: Filter::default(),
            show_extras: false,
            show_raw: false,
            show_date: true,
            show_name: true,
            show_pid: false,
            hostname_display: HostnameDisplay::Short,
        }
    }

    /// How the stream is rendered.
    pub fn render_opts(&self) -> (opts: RenderOpts)
        ensures
            opts == self@.opts,
    {
        RenderOpts {
            show_extras: self.show_extras,
            show_raw: self.show_raw,
            show_date: self.show_date,
            hostname: self.hostname_display,
            show_name: self.show_name,
            show_pid: self.show_pid,
        }
    }

    /// Changes how the stream is rendered.
    pub fn set_render_opts(&mut self, opts: RenderOpts)
        ensures
            final(self)@ == (LogStreamView { opts, ..old(self)@ }),
    {
        self.show_extras = opts.show_extras;
        self.show_raw = opts.show_raw;
        self.show_date = opts.show_date;
        self.hostname_display = opts.hostname;
        self.show_name = opts.show_name;
        self.show_pid = opts.show_pid;
    }
}

/// Render options survive being stored in a stream and read back, and
/// storing them changes nothing else.
pub proof fn law_render_opts_read_back(stream: LogStreamView, opts: RenderOpts)
    ensures
        ({
            let stored = LogStreamView { opts, ..stream };
            &&& stored.opts == opts
            &&& stored.filter == stream.filter
            &&& stored.name == stream.name
            &&& stored.id == stream.id
        }),
{
}

impl iddqd::IdOrdItem for LogStream {
    type Key<'a> = u128;

    fn key(&self) -> (key: u128)
        ensures
            key == self.id.0,
    {
        self.id.0
    }

    fn upcast_key<'short, 'long: 'short>(long: Self::Key<'long>) -> (short: Self::Key<'short>)
        ensures
            short == long,
    {
        long
    }
}

/// The streams that a map holds, by id.
pub uninterp spec fn streams_in(
    map: iddqd::IdOrdMap<LogStream>,
) -> Map<u128, LogStreamView>;

/// `iddqd::IdOrdMap::new`: a map that holds nothing.
#[verifier::external_body]
pub(crate) fn no_streams() -> (map: iddqd::IdOrdMap<LogStream>)
    ensures
        streams_in(map).dom() == Set::<u128>::empty(),
{
    iddqd::IdOrdMap::new()
}

/// `iddqd::IdOrdMap::get`: the item under the key, if there is one.
#[verifier::external_body]
pub(crate) fn get_stream(map: &iddqd::IdOrdMap<LogStream>, id: LogStreamId) -> (found: Option<
    &LogStream,
>)
    ensures
        match found {
            Some(stream) => streams_in(*map).dom().contains(id.0) && stream@ == streams_in(
                *map,
            )[id.0],
            None => !streams_in(*map).dom().contains(id.0),
        },
{
    map.get(&id.0)
}

/// `iddqd::IdOrdMap::insert_unique`: adds the item unless its key is taken,
/// and says whether it did.
#[verifier::external_body]
pub(crate) fn insert_stream(map: &mut iddqd::IdOrdMap<LogStream>, stream: LogStream) -> (added: bool)
    ensures
        added == !streams_in(*old(map)).dom().contains(stream@.id),
        streams_in(*final(map)) == (if added {
            streams_in(*old(map)).insert(stream@.id, stream@)
        } else {
            streams_in(*old(map))
        }),
{
    map.insert_unique(stream).is_ok()
}

/// `iddqd::IdOrdMap::remove`: takes out the item under the key, if there is
/// one.
#[verifier::external_body]
pub(crate) fn take_stream(map: &mut iddqd::IdOrdMap<LogStream>, id: LogStreamId) -> (taken: Option<
    LogStream,
>)
    ensures
        streams_in(*final(map)) == streams_in(*old(map)).remove(id.0),
        match taken {
            Some(stream) => streams_in(*old(map)).dom().contains(id.0) && stream@ == streams_in(
                *old(map),
            )[id.0] && stream.id == id,
            None => !streams_in(*old(map)).dom().contains(id.0),
        },
{
    map.remove(id.0)
}

/// `iddqd::IdOrdMap::len`: the number of items.
#[verifier::external_body]
pub(crate) fn stream_count(map: &iddqd::IdOrdMap<LogStream>) -> (count: usize)
    ensures
        count == streams_in(*map).dom().len(),
{
    map.len()
}

/// What a tab displays.
#[derive(Debug, Clone, Copy, PartialEq, Eq, Structural)]
pub enum TabKind {
    /// the records of a stream
    Stream,
    /// a histogram of a stream's fields and times
    Summary,
}

/// Name that the user gave a bookmark.
#[derive(Debug, PartialEq, Eq)]
pub struct BookmarkName(pub String);

/// All that a bookmark carries from the moment a row is picked until the
/// user has named it.  The cursor anchors navigation; the display fields are
/// kept so that the row can be shown while its source is not loaded.
#[derive(Debug)]
pub struct BookmarkDraft {
    pub cursor: Cursor,
    pub display_source: SourceId,
    pub display_time: Timestamp,
    pub display_name: String,
    pub display_msg: String,
}

/// What a [`BookmarkDraft`] says.
#[verifier::ext_equal]
pub struct DraftView {
    pub cursor: Map<Seq<char>, ByteOffset>,
    pub display_source: Seq<char>,
    pub display_time: Timestamp,
    pub display_name: Seq<char>,
    pub display_msg: Seq<char>,
}

impl View for BookmarkDraft {
    type V = DraftView;

    open spec fn view(&self) -> DraftView {
        DraftView {
            cursor: self.cursor@,
            display_source: self.display_source@,
            display_time: self.display_time,
            display_name: self.display_name@,
            display_msg: self.display_msg@,
        }
    }
}

impl Clone for BookmarkDraft {
    fn clone(&self) -> (copy: Self)
        ensures
            copy@ == self@,
    {
        BookmarkDraft {
            cursor: self.cursor.clone(),
            display_source: self.display_source.clone(),
            display_time: self.display_time,
            display_name: self.display_name.clone(),
            display_msg: self.display_msg.clone(),
        }
    }
}

/// A place in a stream that the user marked.
#[derive(Debug)]
pub struct Bookmark {
    pub id: BookmarkId,
    /// the stream under which the bookmark is filed
    pub stream: LogStreamId,
    pub created_at: Timestamp,
    pub name: Option<BookmarkName>,
    pub draft: BookmarkDraft,
}

/// What a [`Bookmark`] says.
#[verifier::ext_equal]
pub struct BookmarkView {
    pub id: u128,
    pub stream: u128,
    pub created_at: Timestamp,
    pub name: Option<Seq<char>>,
    pub draft: DraftView,
}

/// The text of an optional bookmark name.
pub open spec fn name_view(name: Option<BookmarkName>) -> Option<Seq<char>> {
    match name {
        Some(name) => Some(name.0@),
        None => None,
    }
}

impl View for Bookmark {
    type V = BookmarkView;

    open spec fn view(&self) -> BookmarkView {
        BookmarkView {
            id: self.id.0,
            stream: self.stream.0,
            created_at: self.created_at,
            name: name_view(self.name),
            draft: self.draft@,
        }
    }
}

impl BookmarkView {
    /// The key under which the bookmark is kept.
    pub open spec fn key(self) -> (u128, u128) {
        (self.stream, self.id)
    }

    /// Whether the bookmark is listed before `other`: by the time of the
    /// marked record, then by the time of creation, then by stream and id.
    pub open spec fn listed_before(self, other: BookmarkView) -> bool {
        let (s, t) = (self.draft.display_time, other.draft.display_time);
        s.earlier(t) || (s == t && (self.created_at.earlier(other.created_at) || (self.created_at
            == other.created_at && key_before(self.key(), other.key()))))
    }
}

/// The order of keys: by stream, then by id.
pub open spec fn key_before(a: (u128, u128), b: (u128, u128)) -> bool {
    a.0 < b.0 || (a.0 == b.0 && a.1 < b.1)
}

impl iddqd::IdOrdItem for Bookmark {
    type Key<'a> = (u128, u128);

    fn key(&self) -> (key: (u128, u128))
        ensures
            key == self@.key(),
    {
        (self.stream.0, self.id.0)
    }

    fn upcast_key<'short, 'long: 'short>(long: Self::Key<'long>) -> (short: Self::Key<'short>)
        ensures
            short == long,
    {
        long
    }
}

/// The bookmarks that a map holds, in key order.
pub uninterp spec fn bookmarks_in(map: iddqd::IdOrdMap<Bookmark>) -> Seq<BookmarkView>;

/// Whether the bookmarks follow one another in key order.
pub open spec fn in_key_order(bookmarks: Seq<BookmarkView>) -> bool {
    forall|i: int, j: int|
        0 <= i < j < bookmarks.len() ==> key_before(
            (#[trigger] bookmarks[i]).key(),
            (#[trigger] bookmarks[j]).key(),
        )
}

/// Whether some bookmark has the key.
pub open spec fn has_bookmark(bookmarks: Seq<BookmarkView>, key: (u128, u128)) -> bool {
    exists|i: int| 0 <= i < bookmarks.len() && (#[trigger] bookmarks[i]).key() == key
}

/// Whether a bookmark inserted at index `i` stands in key order.
pub open spec fn fits(bookmarks: Seq<BookmarkView>, bookmark: BookmarkView, i: int) -> bool {
    &&& 0 <= i <= bookmarks.len()
    &&& forall|j: int|
        0 <= j < i ==> key_before((#[trigger] bookmarks[j]).key(), bookmark.key())
    &&& forall|j: int|
        i <= j < bookmarks.len() ==> key_before(bookmark.key(), (#[trigger] bookmarks[j]).key())
}

/// The bookmarks with one more, in key order; the same where its key is
/// taken.
pub open spec fn filed(bookmarks: Seq<BookmarkView>, bookmark: BookmarkView) -> Seq<
    BookmarkView,
> {
    if has_bookmark(bookmarks, bookmark.key()) {
        bookmarks
    } else {
        bookmarks.insert(choose|i: int| fits(bookmarks, bookmark, i), bookmark)
    }
}

proof fn lemma_fits_unique(bookmarks: Seq<BookmarkView>, bookmark: BookmarkView, i: int, j: int)
    requires
        fits(bookmarks, bookmark, i),
        fits(bookmarks, bookmark, j),
    ensures
        i == j,
{
    if i < j {
        assert(key_before(bookmarks[i].key(), bookmark.key()));
    } else if j < i {
        assert(key_before(bookmarks[j].key(), bookmark.key()));
    }
}

/// The bookmarks without those of the given id.
pub open spec fn without_id(bookmarks: Seq<BookmarkView>, id: u128) -> Seq<BookmarkView> {
    bookmarks.filter(|b: BookmarkView| b.id != id)
}

/// Whether the bookmarks are in the order in which they are listed.
pub open spec fn in_list_order(bookmarks: Seq<BookmarkView>) -> bool {
    forall|i: int, j: int|
        0 <= i < j < bookmarks.len() ==> (#[trigger] bookmarks[i]).listed_before(
            #[trigger] bookmarks[j],
        )
}

/// Whether `flat` lists exactly the given bookmarks, in listing order.
pub open spec fn is_flat(flat: Seq<BookmarkView>, bookmarks: Seq<BookmarkView>) -> bool {
    in_list_order(flat) && flat.to_multiset() == bookmarks.to_multiset()
}

/// The bookmarks in the order in which they are listed.
pub open spec fn flat_of(bookmarks: Seq<BookmarkView>) -> Seq<BookmarkView> {
    choose|flat: Seq<BookmarkView>| is_flat(flat, bookmarks)
}

/// There is only one way to list bookmarks.
pub proof fn law_listing_order_is_total(
    a: Seq<BookmarkView>,
    b: Seq<BookmarkView>,
    bookmarks: Seq<BookmarkView>,
)
    requires
        is_flat(a, bookmarks),
        is_flat(b, bookmarks),
    ensures
        a == b,
        flat_of(bookmarks) == a,
{
    lemma_same_listing(a, b);
    lemma_same_listing(a, flat_of(bookmarks));
}

/// What is listed is there.
pub(crate) proof fn lemma_listed(flat: Seq<BookmarkView>, bookmarks: Seq<BookmarkView>, i: int)
    requires
        is_flat(flat, bookmarks),
        0 <= i < flat.len(),
    ensures
        bookmarks.contains(flat[i]),
{
    broadcast use vstd::seq_lib::group_to_multiset_ensures;

    assert(flat.contains(flat[i]));
    assert(bookmarks.to_multiset().count(flat[i]) > 0);
}

proof fn lemma_same_listing(a: Seq<BookmarkView>, b: Seq<BookmarkView>)
    requires
        in_list_order(a),
        in_list_order(b),
        a.to_multiset() == b.to_multiset(),
    ensures
        a == b,
    decreases a.len(),
{
    broadcast use vstd::seq_lib::group_to_multiset_ensures;

    assert(a.to_multiset().len() == a.len());
    assert(b.to_multiset().len() == b.len());
    if a.len() > 0 {
        assert(b.to_multiset().count(a[0]) > 0) by {
            assert(a.contains(a[0]));
        }
        assert(a.to_multiset().count(b[0]) > 0) by {
            assert(b.contains(b[0]));
        }
        let k = choose|k: int| 0 <= k < b.len() && b[k] == a[0];
        let m = choose|m: int| 0 <= m < a.len() && a[m] == b[0];
        if k > 0 {
            assert(b[0].listed_before(b[k]));
            if m > 0 {
                assert(a[0].listed_before(a[m]));
            }
        }
        assert(a[0] == b[0]);
        assert(a.drop_first() =~= a.remove(0));
        assert(b.drop_first() =~= b.remove(0));
        lemma_same_listing(a.drop_first(), b.drop_first());
        assert(a =~= seq![a[0]] + a.drop_first());
        assert(b =~= seq![b[0]] + b.drop_first());
    } else {
        assert(a =~= b);
    }
}

/// The views of a list of bookmarks.
pub open spec fn bookmark_views(list: Seq<&Bookmark>) -> Seq<BookmarkView> {
    list.map_values(|b: &Bookmark| b@)
}

/// `iddqd::IdOrdMap::new`: a map that holds nothing.
#[verifier::external_body]
pub(crate) fn no_bookmarks() -> (map: iddqd::IdOrdMap<Bookmark>)
    ensures
        bookmarks_in(map) == Seq::<BookmarkView>::empty(),
{
    iddqd::IdOrdMap::new()
}

/// `iddqd::IdOrdMap::iter`: the items in key order, no key twice.
#[verifier::external_body]
pub(crate) fn list_bookmarks(map: &iddqd::IdOrdMap<Bookmark>) -> (list: Vec<&Bookmark>)
    ensures
        bookmark_views(list@) == bookmarks_in(*map),
        in_key_order(bookmark_views(list@)),
{
    map.iter().collect()
}

/// `iddqd::IdOrdMap::insert_unique`: adds the item at its place in key order
/// unless its key is taken, and says whether it did.
#[verifier::external_body]
pub(crate) fn insert_bookmark(map: &mut iddqd::IdOrdMap<Bookmark>, bookmark: Bookmark) -> (added:
    bool)
    ensures
        added == !has_bookmark(bookmarks_in(*old(map)), bookmark@.key()),
        !added ==> bookmarks_in(*final(map)) == bookmarks_in(*old(map)),
        added ==> exists|i: int|
            {
                &&& #[trigger] fits(bookmarks_in(*old(map)), bookmark@, i)
                &&& bookmarks_in(*final(map)) == bookmarks_in(*old(map)).insert(i, bookmark@)
            },
{
    map.insert_unique(bookmark).is_ok()
}

/// `iddqd::IdOrdMap::remove`: takes out the item under the key, if there is
/// one, and says whether there was.
#[verifier::external_body]
pub(crate) fn drop_bookmark(
    map: &mut iddqd::IdOrdMap<Bookmark>,
    stream: LogStreamId,
    id: BookmarkId,
) -> (dropped: bool)
    ensures
        dropped == has_bookmark(bookmarks_in(*old(map)), (stream.0, id.0)),
        bookmarks_in(*final(map)) == bookmarks_in(*old(map)).filter(
            |b: BookmarkView| b.key() != (stream.0, id.0),
        ),
{
    map.remove((stream.0, id.0)).is_some()
}

impl Bookmark {
    /// Whether the bookmark is listed before `other`.
    fn is_listed_before(&self, other: &Bookmark) -> (yes: bool)
        ensures
            yes == self@.listed_before(other@),
    {
        let s = self.draft.display_time;
        let t = other.draft.display_time;
        s.is_before(t) || (s == t && (self.created_at.is_before(other.created_at) || (
        self.created_at == other.created_at && (self.stream.0 < other.stream.0 || (self.stream.0
            == other.stream.0 && self.id.0 < other.id.0)))))
    }
}

/// The bookmarks of a map in listing order.
pub(crate) fn flatten(map: &iddqd::IdOrdMap<Bookmark>) -> (flat: Vec<&Bookmark>)
    ensures
        is_flat(bookmark_views(flat@), bookmarks_in(*map)),
        bookmark_views(flat@) == flat_of(bookmarks_in(*map)),
        in_key_order(bookmarks_in(*map)),
{
    let list = list_bookmarks(map);
    let ghost all = bookmark_views(list@);
    let mut flat: Vec<&Bookmark> = Vec::new();
    let mut i: usize = 0;
    assert(bookmark_views(flat@) =~= all.take(0));
    while i < list.len()
        invariant
            i <= list@.len(),
            all == bookmark_views(list@),
            in_key_order(all),
            in_list_order(bookmark_views(flat@)),
            bookmark_views(flat@).to_multiset() == all.take(i as int).to_multiset(),
        decreases list@.len() - i,
    {
        let ghost before = bookmark_views(flat@);
        let bookmark = list[i];
        assert(all[i as int] == bookmark@);
        let mut at: usize = flat.len();
        proof {
            lemma_others_differ(before, all, i as int);
        }
        while at > 0 && bookmark.is_listed_before(flat[at - 1])
            invariant
                at <= flat@.len(),
                before == bookmark_views(flat@),
                in_list_order(before),
                forall|k: int|
                    at <= k < before.len() ==> bookmark@.listed_before(#[trigger] before[k]),
            decreases at,
        {
            assert(before[at - 1] == flat@[at - 1]@);
            at = at - 1;
        }
        proof {
            if at > 0 {
                assert(before[at - 1] == flat@[at - 1]@);
                assert(before[at - 1].key() != bookmark@.key());
                assert(before[at - 1].listed_before(bookmark@));
            }
        }
        flat.insert(at, bookmark);
        proof {
            let after = before.insert(at as int, bookmark@);
            assert(bookmark_views(flat@) =~= after);
            assert forall|j: int, k: int| 0 <= j < k < after.len() implies (
            #[trigger] after[j]).listed_before(#[trigger] after[k]) by {
                if j < at && k >= at {
                    if j < at - 1 {
                        assert(before[j].listed_before(before[at - 1]));
                    }
                }
            }
            broadcast use vstd::seq_lib::group_to_multiset_ensures;

            assert(after.to_multiset() =~= before.to_multiset().insert(bookmark@)) by {
                lemma_insert_multiset(before, at as int, bookmark@);
            }
            assert(all.take(i + 1) =~= all.take(i as int).push(bookmark@));
        }
        i = i + 1;
    }
    proof {
        assert(all.take(i as int) =~= all);
        law_listing_order_is_total(
            bookmark_views(flat@),
            bookmark_views(flat@),
            bookmarks_in(*map),
        );
    }
    flat
}

proof fn lemma_insert_multiset(s: Seq<BookmarkView>, i: int, b: BookmarkView)
    requires
        0 <= i <= s.len(),
    ensures
        s.insert(i, b).to_multiset() == s.to_multiset().insert(b),
{
    broadcast use vstd::seq_lib::group_to_multiset_ensures;

    let longer = s.insert(i, b);
    assert(longer.remove(i) =~= s);
    assert(longer[i] == b);
    assert(longer.to_multiset().remove(b) =~= s.to_multiset());
    assert(longer.contains(b));
    assert(longer.to_multiset() =~= s.to_multiset().insert(b));
}

proof fn lemma_others_differ(seen: Seq<BookmarkView>, all: Seq<BookmarkView>, i: int)
    requires
        0 <= i < all.len(),
        in_key_order(all),
        seen.to_multiset() == all.take(i).to_multiset(),
    ensures
        forall|k: int| 0 <= k < seen.len() ==> (#[trigger] seen[k]).key() != all[i].key(),
{
    broadcast use vstd::seq_lib::group_to_multiset_ensures;

    assert forall|k: int| 0 <= k < seen.len() implies (#[trigger] seen[k]).key() != all[i].key() by {
        assert(seen.contains(seen[k]));
        assert(all.take(i).to_multiset().count(seen[k]) > 0);
        assert(all.take(i).contains(seen[k]));
        let m = choose|m: int| 0 <= m < i && all.take(i)[m] == seen[k];
        assert(all[m] == seen[k]);
        assert(key_before(all[m].key(), all[i].key()));
    }
}

/// An open tab as a session keeps it.
#[derive(Debug)]
pub struct SavedTab {
    pub name: String,
    pub stream: LogStreamId,
    pub kind: TabKind,
    /// where the tab stood, if it shows records
    pub cursor: Option<Cursor>,
}

/// What a [`SavedTab`] says.
#[verifier::ext_equal]
pub struct SavedTabView {
    pub name: Seq<char>,
    pub stream: u128,
    pub kind: TabKind,
    pub cursor: Option<Map<Seq<char>, ByteOffset>>,
}

/// The content of an optional cursor.
pub open spec fn cursor_view(cursor: Option<Cursor>) -> Option<Map<Seq<char>, ByteOffset>> {
    match cursor {
        Some(cursor) => Some(cursor@),
        None => None,
    }
}

/// The views of saved tabs.
pub open spec fn views_of_saved(tabs: Seq<SavedTab>) -> Seq<SavedTabView> {
    tabs.map_values(|t: SavedTab| t@)
}

impl View for SavedTab {
    type V = SavedTabView;

    open spec fn view(&self) -> SavedTabView {
        SavedTabView {
            name: self.name@,
            stream: self.stream.0,
            kind: self.kind,
            cursor: cursor_view(self.cursor),
        }
    }
}

/// A source as a session keeps it.
#[derive(Debug)]
pub struct SessionSource {
    pub id: SourceId,
    pub path: String,
    pub mtime: Timestamp,
    pub size: u64,
}

impl iddqd::IdOrdItem for SessionSource {
    type Key<'a> = &'a str;

    fn key(&self) -> (key: &str)
        ensures
            key@ == self.id@,
    {
        self.id.as_str()
    }

    fn upcast_key<'short, 'long: 'short>(long: Self::Key<'long>) -> (short: Self::Key<'short>)
        ensures
            short == long,
    {
        long
    }
}

/// What a [`SessionSource`] says.
#[verifier::ext_equal]
pub struct SourceView {
    pub id: Seq<char>,
    pub path: Seq<char>,
    pub mtime: Timestamp,
    pub size: u64,
}

impl View for SessionSource {
    type V = SourceView;

    open spec fn view(&self) -> SourceView {
        SourceView { id: self.id@, path: self.path@, mtime: self.mtime, size: self.size }
    }
}

/// The paths of sources.
pub open spec fn paths_of(sources: Seq<SourceView>) -> Seq<Seq<char>> {
    sources.map_values(|s: SourceView| s.path)
}

/// The sources that a map holds, in the map's order.
pub uninterp spec fn sources_in(map: iddqd::IdOrdMap<SessionSource>) -> Seq<SourceView>;

/// `iddqd::IdOrdMap::new`: a map that holds nothing.
#[verifier::external_body]
pub(crate) fn no_sources() -> (map: iddqd::IdOrdMap<SessionSource>)
    ensures
        sources_in(map) == Seq::<SourceView>::empty(),
{
    iddqd::IdOrdMap::new()
}

/// `iddqd::IdOrdMap::iter`: the items in the map's order.
#[verifier::external_body]
pub(crate) fn list_sources(map: &iddqd::IdOrdMap<SessionSource>) -> (list: Vec<&SessionSource>)
    ensures
        list@.map_values(|s: &SessionSource| s@) == sources_in(*map),
{
    map.iter().collect()
}

/// Everything that is saved of the user's work.
#[derive(Debug)]
pub struct Session {
    pub id: SessionId,
    pub last_saved_at: Timestamp,
    pub sources: iddqd::IdOrdMap<SessionSource>,
    pub streams: iddqd::IdOrdMap<LogStream>,
    pub bookmarks: iddqd::IdOrdMap<Bookmark>,
    pub tabs: Vec<SavedTab>,
    /// search patterns, most recently used first
    pub search_history: Vec<String>,
}

/// What a [`Session`] says.
#[verifier::ext_equal]
pub struct SessionView {
    pub id: u32,
    pub last_saved_at: Timestamp,
    pub sources: Seq<SourceView>,
    pub streams: Map<u128, LogStreamView>,
    pub bookmarks: Seq<BookmarkView>,
    pub tabs: Seq<SavedTabView>,
    pub search_history: Seq<Seq<char>>,
}

impl View for Session {
    type V = SessionView;

    open spec fn view(&self) -> SessionView {
        SessionView {
            id: self.id.0,
            last_saved_at: self.last_saved_at,
            sources: sources_in(self.sources),
            streams: streams_in(self.streams),
            bookmarks: bookmarks_in(self.bookmarks),
            tabs: views_of_saved(self.tabs@),
            search_history: views(self.search_history@),
        }
    }
}

/// The history without the pattern.
pub open spec fn without_pattern(history: Seq<Seq<char>>, pattern: Seq<char>) -> Seq<Seq<char>> {
    history.filter(unlike(pattern))
}

/// Holds of every text but the pattern.
pub open spec fn unlike(pattern: Seq<char>) -> spec_fn(Seq<char>) -> bool {
    |p: Seq<char>| p != pattern
}

/// The history once a pattern has been used: the pattern moves to the front,
/// or joins there, and nothing occurs twice on its account.
pub open spec fn recorded(history: Seq<Seq<char>>, pattern: Seq<char>) -> Seq<Seq<char>> {
    seq![pattern] + without_pattern(history, pattern)
}

impl Session {
    /// A session that holds nothing yet.
    pub fn new(id: SessionId, now: Timestamp) -> (session: Self)
        ensures
            session@.id == id.0,
            session@.last_saved_at == now,
            session@.sources == Seq::<SourceView>::empty(),
            session@.streams.dom() == Set::<u128>::empty(),
            session@.bookmarks == Seq::<BookmarkView>::empty(),
            session@.tabs == Seq::<SavedTabView>::empty(),
            session@.search_history == Seq::<Seq<char>>::empty(),
    {
        let session = Session {
            id,
            last_saved_at: now,
            sources: no_sources(),
            streams: no_streams(),
            bookmarks: no_bookmarks(),
            tabs: Vec::new(),
            search_history: Vec::new(),
        };
        assert(session@.tabs =~= Seq::<SavedTabView>::empty());
        assert(session@.search_history =~= Seq::<Seq<char>>::empty());
        session
    }

    /// Files a bookmark under its stream.
    pub fn add_bookmark(&mut self, bookmark: Bookmark)
        ensures
            final(self)@ == (SessionView {
                bookmarks: filed(old(self)@.bookmarks, bookmark@),
                ..old(self)@
            }),
            final(self)@.bookmarks.len() > 0,
            forall|i: int|
                0 <= i < final(self)@.bookmarks.len() ==> {
                    ||| (#[trigger] final(self)@.bookmarks[i]) == bookmark@
                    ||| old(self)@.bookmarks.contains(final(self)@.bookmarks[i])
                },
    {
        let ghost before = bookmarks_in(self.bookmarks);
        let added = insert_bookmark(&mut self.bookmarks, bookmark);
        proof {
            if added {
                let i = choose|i: int|
                    {
                        &&& #[trigger] fits(before, bookmark@, i)
                        &&& bookmarks_in(self.bookmarks) == before.insert(i, bookmark@)
                    };
                let k = choose|k: int| fits(before, bookmark@, k);
                lemma_fits_unique(before, bookmark@, i, k);
            }
            lemma_filed(before, bookmark@);
        }
    }

    /// Removes the bookmark with the given id.
    pub fn remove_bookmark(&mut self, id: BookmarkId)
        ensures
            final(self)@ == (SessionView {
                bookmarks: without_id(old(self)@.bookmarks, id.0),
                ..old(self)@
            }),
    {
        let streams = self.streams_of_bookmark(id);
        let ghost all = self@.bookmarks;
        let ghost start = self@;
        let mut i: usize = 0;
        let ghost mut kept = all;
        proof {
            assert(streams@.take(0).len() == 0);
            lemma_filter_all(all, kept_after(id.0, streams@.take(0)));
        }
        while i < streams.len()
            invariant
                i <= streams@.len(),
                self@ == (SessionView { bookmarks: kept, ..start }),
                start.bookmarks == all,
                kept == all.filter(kept_after(id.0, streams@.take(i as int))),
                forall|k: int|
                    0 <= k < all.len() && (#[trigger] all[k]).id == id.0 ==> among(
                        streams@,
                        all[k].stream,
                    ),
            decreases streams@.len() - i,
        {
            drop_bookmark(&mut self.bookmarks, streams[i], id);
            proof {
                let dropped = streams@.take(i as int);
                let before = kept_after(id.0, dropped);
                let this = |b: BookmarkView| b.key() != (streams@[i as int].0, id.0);
                let after = kept_after(id.0, streams@.take(i + 1));
                assert(streams@.take(i + 1) =~= dropped.push(streams@[i as int]));
                assert forall|k: int| 0 <= k < all.len() implies after(#[trigger] all[k]) == (before(
                    all[k],
                ) && this(all[k])) by {
                    lemma_among_push(dropped, streams@[i as int], all[k].stream);
                }
                lemma_filter_twice(all, before, this, after);
                kept = all.filter(after);
            }
            i = i + 1;
        }
        proof {
            assert(streams@.take(i as int) =~= streams@);
            lemma_filter_agree(
                all,
                kept_after(id.0, streams@),
                |b: BookmarkView| b.id != id.0,
            );
        }
    }

    fn streams_of_bookmark(&self, id: BookmarkId) -> (streams: Vec<LogStreamId>)
        ensures
            forall|k: int|
                0 <= k < self@.bookmarks.len() && (#[trigger] self@.bookmarks[k]).id == id.0
                    ==> among(streams@, self@.bookmarks[k].stream),
    {
        let list = list_bookmarks(&self.bookmarks);
        let ghost all = bookmark_views(list@);
        let mut streams: Vec<LogStreamId> = Vec::new();
        let mut i: usize = 0;
        while i < list.len()
            invariant
                i <= list@.len(),
                all == bookmark_views(list@),
                forall|k: int|
                    0 <= k < i && (#[trigger] all[k]).id == id.0 ==> among(streams@, all[k].stream),
            decreases list@.len() - i,
        {
            assert(all[i as int] == list@[i as int]@);
            if list[i].id == id {
                let ghost before = streams@;
                streams.push(list[i].stream);
                assert forall|k: int| 0 <= k <= i && (#[trigger] all[k]).id == id.0 implies among(
                    streams@,
                    all[k].stream,
                ) by {
                    if k < i {
                        let m = choose|m: int|
                            0 <= m < before.len() && (#[trigger] before[m]).0 == all[k].stream;
                        assert(streams@[m].0 == all[k].stream);
                    } else {
                        assert(streams@[before.len() as int].0 == all[k].stream);
                    }
                }
            }
            i = i + 1;
        }
        streams
    }

    /// The number of bookmarks.
    pub fn bookmark_count(&self) -> (count: usize)
        ensures
            count == self@.bookmarks.len(),
    {
        let list = list_bookmarks(&self.bookmarks);
        assert(bookmark_views(list@).len() == list@.len());
        list.len()
    }

    /// Notes that a pattern was searched for.
    pub fn record_search(&mut self, pattern: &str)
        ensures
            final(self)@ == (SessionView {
                search_history: recorded(old(self)@.search_history, pattern@),
                ..old(self)@
            }),
    {
        let mut history: Vec<String> = Vec::new();
        history.push(pattern.to_owned());
        let ghost all = self@.search_history;
        let mut i: usize = 0;
        proof {
            assert(views(history@) =~= seq![pattern@]);
            assert(without_pattern(all.take(0), pattern@) =~= Seq::<Seq<char>>::empty());
            assert(seq![pattern@] + Seq::<Seq<char>>::empty() =~= seq![pattern@]);
        }
        while i < self.search_history.len()
            invariant
                i <= self.search_history@.len(),
                all == views(self.search_history@),
                views(history@) == seq![pattern@] + without_pattern(all.take(i as int), pattern@),
            decreases self.search_history@.len() - i,
        {
            let ghost before = history@;
            assert(all[i as int] == self.search_history@[i as int]@);
            proof {
                lemma_filter_push(all.take(i as int), all[i as int], unlike(pattern@));
                assert(all.take(i + 1) =~= all.take(i as int).push(all[i as int]));
            }
            if !same_text(self.search_history[i].as_str(), pattern) {
                history.push(self.search_history[i].clone());
                assert(views(history@) =~= views(before).push(all[i as int]));
                assert(views(history@) =~= seq![pattern@] + without_pattern(
                    all.take(i + 1),
                    pattern@,
                ));
            }
            i = i + 1;
        }
        assert(all.take(i as int) =~= all);
        self.search_history = history;
    }
}

/// Filing a bookmark adds it, or nothing.
proof fn lemma_filed(bookmarks: Seq<BookmarkView>, bookmark: BookmarkView)
    requires
        has_bookmark(bookmarks, bookmark.key()) || exists|k: int|
            #[trigger] fits(bookmarks, bookmark, k),
    ensures
        forall|i: int|
            0 <= i < filed(bookmarks, bookmark).len() ==> {
                ||| (#[trigger] filed(bookmarks, bookmark)[i]) == bookmark
                ||| bookmarks.contains(filed(bookmarks, bookmark)[i])
            },
        filed(bookmarks, bookmark).len() >= bookmarks.len(),
        filed(bookmarks, bookmark).len() > 0,
{
    let all = filed(bookmarks, bookmark);
    if has_bookmark(bookmarks, bookmark.key()) {
        assert forall|i: int| 0 <= i < all.len() implies bookmarks.contains(#[trigger] all[i]) by {
            assert(bookmarks[i] == all[i]);
        }
    } else {
        let k = choose|k: int| fits(bookmarks, bookmark, k);
        assert(fits(bookmarks, bookmark, k));
        assert forall|i: int| 0 <= i < all.len() implies (#[trigger] all[i]) == bookmark
            || bookmarks.contains(all[i]) by {
            if i < k {
                assert(bookmarks[i] == all[i]);
            } else if i > k {
                assert(bookmarks[i - 1] == all[i]);
            }
        }
    }
}

/// What is left without an id was there before.
pub(crate) proof fn lemma_without(bookmarks: Seq<BookmarkView>, id: u128)
    ensures
        forall|i: int|
            0 <= i < without_id(bookmarks, id).len() ==> bookmarks.contains(
                #[trigger] without_id(bookmarks, id)[i],
            ),
{
    let keep = |b: BookmarkView| b.id != id;
    lemma_filtered_from(bookmarks, keep);
}

proof fn lemma_filtered_from<T>(s: Seq<T>, keep: spec_fn(T) -> bool)
    ensures
        forall|i: int| 0 <= i < s.filter(keep).len() ==> s.contains(#[trigger] s.filter(keep)[i]),
    decreases s.len(),
{
    reveal(Seq::filter);
    if s.len() > 0 {
        lemma_filtered_from(s.drop_last(), keep);
        assert forall|i: int| 0 <= i < s.filter(keep).len() implies s.contains(
            #[trigger] s.filter(keep)[i],
        ) by {
            if i < s.drop_last().filter(keep).len() {
                assert(s.drop_last().contains(s.drop_last().filter(keep)[i]));
                let k = choose|k: int|
                    0 <= k < s.drop_last().len() && s.drop_last()[k] == s.drop_last().filter(
                        keep,
                    )[i];
                assert(s[k] == s.filter(keep)[i]);
            } else {
                assert(s[s.len() - 1] == s.filter(keep)[i]);
            }
        }
    }
}

/// Whether the stream is in the list.
spec fn among(streams: Seq<LogStreamId>, stream: u128) -> bool {
    exists|k: int| 0 <= k < streams.len() && (#[trigger] streams[k]).0 == stream
}

/// Holds of the bookmarks that remain once those with the id are dropped
/// from the given streams.
spec fn kept_after(id: u128, dropped: Seq<LogStreamId>) -> spec_fn(BookmarkView) -> bool {
    |b: BookmarkView| !(b.id == id && among(dropped, b.stream))
}

proof fn lemma_among_push(streams: Seq<LogStreamId>, one: LogStreamId, stream: u128)
    ensures
        among(streams.push(one), stream) == (among(streams, stream) || one.0 == stream),
{
    let longer = streams.push(one);
    if among(streams, stream) {
        let k = choose|k: int| 0 <= k < streams.len() && (#[trigger] streams[k]).0 == stream;
        assert(longer[k].0 == stream);
    }
    if one.0 == stream {
        assert(longer[streams.len() as int].0 == stream);
    }
    if among(longer, stream) && one.0 != stream {
        let k = choose|k: int| 0 <= k < longer.len() && (#[trigger] longer[k]).0 == stream;
        assert(streams[k].0 == stream);
    }
}

proof fn lemma_filter_push<T>(s: Seq<T>, x: T, keep: spec_fn(T) -> bool)
    ensures
        s.push(x).filter(keep) == if keep(x) {
            s.filter(keep).push(x)
        } else {
            s.filter(keep)
        },
{
    reveal(Seq::filter);
    assert(s.push(x).drop_last() =~= s);
}

proof fn lemma_filter_all<T>(s: Seq<T>, keep: spec_fn(T) -> bool)
    requires
        forall|i: int| 0 <= i < s.len() ==> keep(#[trigger] s[i]),
    ensures
        s.filter(keep) == s,
    decreases s.len(),
{
    reveal(Seq::filter);
    if s.len() > 0 {
        lemma_filter_all(s.drop_last(), keep);
        assert(s.drop_last().push(s.last()) =~= s);
    }
}

proof fn lemma_filter_agree<T>(s: Seq<T>, a: spec_fn(T) -> bool, b: spec_fn(T) -> bool)
    requires
        forall|i: int| 0 <= i < s.len() ==> a(#[trigger] s[i]) == b(s[i]),
    ensures
        s.filter(a) == s.filter(b),
    decreases s.len(),
{
    reveal(Seq::filter);
    if s.len() > 0 {
        lemma_filter_agree(s.drop_last(), a, b);
    }
}

proof fn lemma_filter_twice<T>(
    s: Seq<T>,
    a: spec_fn(T) -> bool,
    b: spec_fn(T) -> bool,
    both: spec_fn(T) -> bool,
)
    requires
        forall|i: int| 0 <= i < s.len() ==> both(#[trigger] s[i]) == (a(s[i]) && b(s[i])),
    ensures
        s.filter(a).filter(b) == s.filter(both),
    decreases s.len(),
{
    reveal(Seq::filter);
    if s.len() > 0 {
        lemma_filter_twice(s.drop_last(), a, b, both);
        if a(s.last()) {
            lemma_filter_push(s.drop_last().filter(a), s.last(), b);
        }
    }
}

/// The pattern used last heads the history, occurs there once, and the rest
/// keeps its order.
pub proof fn law_history_is_most_recent_first(history: Seq<Seq<char>>, pattern: Seq<char>)
    ensures
        recorded(history, pattern)[0] == pattern,
        forall|i: int|
            0 < i < recorded(history, pattern).len() ==> (#[trigger] recorded(history, pattern)[i])
                != pattern,
        recorded(recorded(history, pattern), pattern) == recorded(history, pattern),
    decreases history.len(),
{
    let rest = without_pattern(history, pattern);
    let differs = unlike(pattern);
    lemma_filtered_hold(history, differs);
    assert forall|i: int| 0 < i < recorded(history, pattern).len() implies (
    #[trigger] recorded(history, pattern)[i]) != pattern by {
        assert(recorded(history, pattern)[i] == rest[i - 1]);
        assert(differs(rest[i - 1]));
    }
    lemma_filter_all(rest, differs);
    lemma_filter_head(pattern, rest, differs);
    assert(without_pattern(recorded(history, pattern), pattern) =~= rest);
}

proof fn lemma_filtered_hold<T>(s: Seq<T>, keep: spec_fn(T) -> bool)
    ensures
        forall|i: int| 0 <= i < s.filter(keep).len() ==> keep(#[trigger] s.filter(keep)[i]),
    decreases s.len(),
{
    reveal(Seq::filter);
    if s.len() > 0 {
        lemma_filtered_hold(s.drop_last(), keep);
    }
}

proof fn lemma_filter_head<T>(x: T, s: Seq<T>, keep: spec_fn(T) -> bool)
    requires
        !keep(x),
    ensures
        (seq![x] + s).filter(keep) == s.filter(keep),
    decreases s.len(),
{
    reveal(Seq::filter);
    if s.len() == 0 {
        assert((seq![x] + s).drop_last() =~= Seq::<T>::empty());
        assert((seq![x] + s).last() == x);
        assert(Seq::<T>::empty().filter(keep) =~= Seq::<T>::empty());
        assert(s.filter(keep) =~= Seq::<T>::empty());
    } else {
        lemma_filter_head(x, s.drop_last(), keep);
        assert((seq![x] + s).drop_last() =~= seq![x] + s.drop_last());
    }
}

/// How soon a change has to reach the disk.
#[derive(Debug, Clone, Copy, PartialEq, Eq, Structural)]
pub enum Cadence {
    /// right away
    Inline,
    /// once changes have settled
    Debounced,
}

/// Tells when a changed session is due to be saved.  Instants are
/// milliseconds of a clock that does not run backwards.
#[derive(Debug, Clone, Copy)]
pub struct SavePolicy {
    dirty: bool,
    last_saved: u64,
    debounce: u64,
}

/// What a [`SavePolicy`] knows.
#[verifier::ext_equal]
pub struct PolicyView {
    pub dirty: bool,
    pub last_saved: u64,
    pub debounce: u64,
}

impl PolicyView {
    /// Whether unsaved changes have aged past the window.
    pub open spec fn due(self, now: u64) -> bool {
        self.dirty && now >= self.last_saved && now - self.last_saved >= self.debounce
    }
}

impl View for SavePolicy {
    type V = PolicyView;

    closed spec fn view(&self) -> PolicyView {
        PolicyView {
            dirty: self.dirty,
            last_saved: self.last_saved,
            debounce: self.debounce,
        }
    }
}

impl SavePolicy {
    /// A policy with nothing unsaved, last saved at `now`.
    pub fn new(debounce: u64, now: u64) -> (policy: Self)
        ensures
            policy@ == (PolicyView { dirty: false, last_saved: now, debounce }),
    {
        SavePolicy { dirty: false, last_saved: now, debounce }
    }

    /// Notes a change.  Whatever its cadence, it is unsaved until saved.
    pub fn record(&mut self, cadence: Cadence)
        ensures
            final(self)@ == (PolicyView { dirty: true, ..old(self)@ }),
    {
        self.dirty = true;
    }

    /// Notes that everything was saved at `now`.
    pub fn mark_saved(&mut self, now: u64)
        ensures
            final(self)@ == (PolicyView { dirty: false, last_saved: now, ..old(self)@ }),
    {
        self.dirty = false;
        self.last_saved = now;
    }

    /// Whether there are unsaved changes.
    pub fn dirty(&self) -> (dirty: bool)
        ensures
            dirty == self@.dirty,
    {
        self.dirty
    }

    /// Whether unsaved changes have aged past the window.
    pub fn due(&self, now: u64) -> (due: bool)
        ensures
            due == self@.due(now),
    {
        self.dirty && now >= self.last_saved && now - self.last_saved >= self.debounce
    }
}

/// Bookmarks are listed by the instant of the record that they mark, those of
/// the same instant by when they were made, and those made at once by stream
/// and id; the list holds every bookmark, as often as it is there, and no
/// other.
pub proof fn law_bookmarks_are_listed_chronologically(
    flat: Seq<BookmarkView>,
    bookmarks: Seq<BookmarkView>,
    i: int,
    j: int,
)
    requires
        is_flat(flat, bookmarks),
        0 <= i < j < flat.len(),
        flat[i].draft.display_time.nanos < 1_000_000_000,
        flat[j].draft.display_time.nanos < 1_000_000_000,
        flat[i].created_at.nanos < 1_000_000_000,
        flat[j].created_at.nanos < 1_000_000_000,
    ensures
        ({
            let (s, t) = (flat[i].draft.display_time, flat[j].draft.display_time);
            let (a, b) = (flat[i].created_at, flat[j].created_at);
            &&& s.secs * 1_000_000_000 + s.nanos <= t.secs * 1_000_000_000 + t.nanos
            &&& s == t ==> a.secs * 1_000_000_000 + a.nanos <= b.secs * 1_000_000_000 + b.nanos
            &&& s == t && a == b ==> flat[i].stream < flat[j].stream || (flat[i].stream
                == flat[j].stream && flat[i].id < flat[j].id)
        }),
        flat.len() == bookmarks.len(),
        forall|b: BookmarkView| #[trigger] flat.contains(b) <==> bookmarks.contains(b),
{
    broadcast use vstd::seq_lib::group_to_multiset_ensures;

    assert(flat[i].listed_before(flat[j]));
    assert(flat.to_multiset().len() == flat.len());
    assert(bookmarks.to_multiset().len() == bookmarks.len());
    assert forall|b: BookmarkView| #[trigger] flat.contains(b) <==> bookmarks.contains(b) by {
        assert(flat.contains(b) <==> flat.to_multiset().count(b) > 0);
        assert(bookmarks.contains(b) <==> bookmarks.to_multiset().count(b) > 0);
    }
}

proof fn lemma_some_place_fits(bookmarks: Seq<BookmarkView>, bookmark: BookmarkView)
    requires
        in_key_order(bookmarks),
        !has_bookmark(bookmarks, bookmark.key()),
    ensures
        exists|k: int| fits(bookmarks, bookmark, k),
    decreases bookmarks.len(),
{
    let n = bookmarks.len() as int;
    if n == 0 {
        assert(fits(bookmarks, bookmark, 0));
    } else {
        let rest = bookmarks.drop_last();
        let last = bookmarks[n - 1];
        if key_before(last.key(), bookmark.key()) {
            assert forall|j: int| 0 <= j < n implies key_before(
                (#[trigger] bookmarks[j]).key(),
                bookmark.key(),
            ) by {
                if j < n - 1 {
                    assert(key_before(bookmarks[j].key(), bookmarks[n - 1].key()));
                }
            }
            assert(fits(bookmarks, bookmark, n));
        } else {
            assert forall|i: int, j: int| 0 <= i < j < rest.len() implies key_before(
                (#[trigger] rest[i]).key(),
                (#[trigger] rest[j]).key(),
            ) by {
                assert(key_before(bookmarks[i].key(), bookmarks[j].key()));
            }
            if has_bookmark(rest, bookmark.key()) {
                let i = choose|i: int|
                    0 <= i < rest.len() && (#[trigger] rest[i]).key() == bookmark.key();
                assert(bookmarks[i].key() == bookmark.key());
            }
            lemma_some_place_fits(rest, bookmark);
            let k = choose|k: int| fits(rest, bookmark, k);
            assert(last.key() != bookmark.key());
            assert forall|j: int| 0 <= j < k implies key_before(
                (#[trigger] bookmarks[j]).key(),
                bookmark.key(),
            ) by {
                assert(bookmarks[j] == rest[j]);
            }
            assert forall|j: int| k <= j < n implies key_before(
                bookmark.key(),
                (#[trigger] bookmarks[j]).key(),
            ) by {
                if j < n - 1 {
                    assert(bookmarks[j] == rest[j]);
                }
            }
            assert(fits(bookmarks, bookmark, k));
        }
    }
}

/// Filing a bookmark under an id that its stream has not used adds that one,
/// and keeps all the others.
pub proof fn law_filing_adds_one_bookmark(bookmarks: Seq<BookmarkView>, bookmark: BookmarkView)
    requires
        in_key_order(bookmarks),
        forall|i: int|
            0 <= i < bookmarks.len() ==> (#[trigger] bookmarks[i]).stream != bookmark.stream
                || bookmarks[i].id != bookmark.id,
    ensures
        filed(bookmarks, bookmark).len() == bookmarks.len() + 1,
        forall|b: BookmarkView| #[trigger]
            filed(bookmarks, bookmark).contains(b) <==> b == bookmark || bookmarks.contains(b),
{
    lemma_some_place_fits(bookmarks, bookmark);
    let k = choose|k: int| fits(bookmarks, bookmark, k);
    let all = filed(bookmarks, bookmark);
    assert(all == bookmarks.insert(k, bookmark));
    assert forall|b: BookmarkView| #[trigger] all.contains(b) <==> b == bookmark
        || bookmarks.contains(b) by {
        if all.contains(b) {
            let i = choose|i: int| 0 <= i < all.len() && all[i] == b;
            if i < k {
                assert(bookmarks[i] == b);
            } else if i > k {
                assert(bookmarks[i - 1] == b);
            }
        }
        if b == bookmark {
            assert(all[k] == b);
        } else if bookmarks.contains(b) {
            let i = choose|i: int| 0 <= i < bookmarks.len() && bookmarks[i] == b;
            if i < k {
                assert(all[i] == b);
            } else {
                assert(all[i + 1] == b);
            }
        }
    }
}

/// Dropping an id takes out every bookmark with it, and no other.
pub proof fn law_dropping_takes_out_the_id(bookmarks: Seq<BookmarkView>, id: u128)
    ensures
        forall|b: BookmarkView| #[trigger]
            without_id(bookmarks, id).contains(b) <==> bookmarks.contains(b) && b.id != id,
{
    let keep = |b: BookmarkView| b.id != id;
    assert forall|b: BookmarkView| #[trigger]
        without_id(bookmarks, id).contains(b) <==> bookmarks.contains(b) && b.id != id by {
        let left = without_id(bookmarks, id);
        if left.contains(b) {
            let i = choose|i: int| 0 <= i < left.len() && left[i] == b;
            bookmarks.lemma_filter_pred(keep, i);
            bookmarks.lemma_filter_contains_rev(keep, b);
        }
        if bookmarks.contains(b) && b.id != id {
            let i = choose|i: int| 0 <= i < bookmarks.len() && bookmarks[i] == b;
            bookmarks.lemma_filter_contains(keep, i);
        }
    }
}

/// A change is due to be saved once it has aged past the window, and nothing
/// is due where nothing changed: the earliest instant is the last save plus
/// the window.
pub proof fn law_changes_fall_due_after_the_window(policy: PolicyView, now: u64)
    ensures
        !policy.dirty ==> !policy.due(now),
        policy.dirty ==> (policy.due(now) <==> now >= policy.last_saved + policy.debounce),
{
}

/// A bookmark's id is written in hexadecimal, all thirty-two digits of it, in
/// groups with dashes between.
pub proof fn law_bookmark_ids_are_written_in_groups(id: BookmarkId)
    ensures
        ({
            let text = id.text();
            let digits = hex(id.0 as nat, 32);
            &&& text.len() == 36
            &&& text[8] == '-' && text[13] == '-' && text[18] == '-' && text[23] == '-'
            &&& text.subrange(0, 8) + text.subrange(9, 13) + text.subrange(14, 18)
                + text.subrange(19, 23) + text.subrange(24, 36) == digits
        }),
{
    crate::number::lemma_hex_len(id.0 as nat, 32);
    reveal_strlit("-");
    let text = id.text();
    let digits = hex(id.0 as nat, 32);
    assert(text.subrange(0, 8) + text.subrange(9, 13) + text.subrange(14, 18) + text.subrange(
        19,
        23,
    ) + text.subrange(24, 36) =~= digits);
}

/// Records are shown with their date, short hostname and name, and without the
/// pid, the further fields and the raw text, until something else is chosen.
pub proof fn law_options_begin_plain()
    ensures
        default_opts().show_date && default_opts().show_name,
        default_opts().hostname == HostnameDisplay::Short,
        !default_opts().show_pid && !default_opts().show_extras && !default_opts().show_raw,
{
}

} // verus!
