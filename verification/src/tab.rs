//! One independent view of a stream: its lines and where the user is in
//! them.

use crate::position::{ByteOffset, Cursor};
use crate::event::Timestamp;
use crate::pattern::Pattern;
use crate::rows::{summary_placeholder_rows, ContentView, Materialized, Row, RowView};
use crate::search::{compute_matches, matching};
use crate::session::{cursor_view, LogStreamId, TabKind};
use crate::source::Direction;
use crate::text::{views, visual_rows, visual_rows_for};
use vstd::prelude::*;

verus! {

/// What committing a selection does.
#[derive(Debug, Clone, Copy, PartialEq, Eq, Structural)]
pub enum SelectionAction {
    /// keep out records with the selected record's message
    Exclude,
    /// keep only records with the selected record's message
    Include,
    /// bookmark the selected record
    Bookmark,
}

/// A selection in progress: the record under the highlight, and what Enter
/// will do with it.
#[derive(Debug, Clone, Copy, PartialEq, Eq, Structural)]
pub struct Selection {
    pub event_idx: usize,
    pub action: SelectionAction,
}

/// The active search of a tab.  `matches` lists the lines that match, for
/// tabs that hold all their lines.
#[derive(Debug)]
pub struct TabSearch {
    pub pattern: Pattern,
    pub matches: Vec<usize>,
}

/// What a [`TabSearch`] says.
#[verifier::ext_equal]
pub struct TabSearchView {
    pub pattern: Seq<char>,
    pub matches: Seq<usize>,
}

/// One tab.
#[derive(Debug)]
pub struct Tab {
    pub name: String,
    pub stream: LogStreamId,
    pub kind: TabKind,
    /// whether a live view feeds the content and moves with the user; a tab
    /// without one holds all its lines
    pub live: bool,
    pub content: Materialized,
    /// where the live view stands
    pub cursor: Option<Cursor>,
    /// line at the top of the viewport
    pub viewport_top: usize,
    pub search: Option<TabSearch>,
    pub select: Option<Selection>,
}

/// What a [`Tab`] shows.
#[verifier::ext_equal]
pub struct TabView {
    pub name: Seq<char>,
    pub stream: u128,
    pub kind: TabKind,
    pub live: bool,
    pub content: ContentView,
    pub cursor: Option<Map<Seq<char>, ByteOffset>>,
    pub viewport_top: usize,
    pub search: Option<TabSearchView>,
    pub select: Option<Selection>,
}

/// The content of an optional search.
pub open spec fn search_view(search: Option<TabSearch>) -> Option<TabSearchView> {
    match search {
        Some(search) => Some(
            TabSearchView { pattern: search.pattern@, matches: search.matches@ },
        ),
        None => None,
    }
}

impl View for Tab {
    type V = TabView;

    open spec fn view(&self) -> TabView {
        TabView {
            name: self.name@,
            stream: self.stream.0,
            kind: self.kind,
            live: self.live,
            content: self.content@,
            cursor: cursor_view(self.cursor),
            viewport_top: self.viewport_top,
            search: search_view(self.search),
            select: self.select,
        }
    }
}

/// The rows that the lines from index `from` on take at `width` columns.
pub open spec fn rows_from(lines: Seq<Seq<char>>, from: int, width: int) -> int
    decreases lines.len() - from,
{
    if from < 0 || from >= lines.len() {
        0
    } else {
        visual_rows(lines[from].len() as int, width) + rows_from(lines, from + 1, width)
    }
}

/// The first line at or before `from` from which the rest fits in `height`
/// rows, looking no further than the line after which it no longer does.
pub open spec fn fitting_line(
    lines: Seq<Seq<char>>,
    from: int,
    height: int,
    width: int,
) -> int
    decreases from,
{
    if from <= 0 {
        0
    } else if rows_from(lines, from - 1, width) > height {
        from
    } else {
        fitting_line(lines, from - 1, height, width)
    }
}

/// The largest line that may stand at the top of the viewport: the first
/// from which the rest fits, and at least the last line is shown.
pub open spec fn max_top(lines: Seq<Seq<char>>, height: u16, width: u16) -> usize {
    if lines.len() == 0 {
        0
    } else {
        let line = fitting_line(lines, lines.len() as int, height as int, width as int);
        if line < lines.len() {
            line as usize
        } else {
            (lines.len() - 1) as usize
        }
    }
}

/// The lesser of the two.
pub open spec fn least(a: int, b: int) -> int {
    if a <= b {
        a
    } else {
        b
    }
}

/// The number held between the two bounds.
pub open spec fn clamped(n: int, low: int, high: int) -> int {
    if n < low {
        low
    } else if n > high {
        high
    } else {
        n
    }
}

/// The index `delta` away, held within `0..=last`.
pub(crate) fn step_within(at: usize, delta: isize, last: usize) -> (to: usize)
    ensures
        to == clamped(at + delta, 0, last as int),
{
    let wanted: usize = if delta >= 0 {
        at.saturating_add(delta as usize)
    } else {
        at.saturating_sub((-(delta + 1)) as usize).saturating_sub(1)
    };
    if wanted <= last {
        wanted
    } else {
        last
    }
}

/// The first record from index `from` on that could be read.
pub open spec fn event_from(events: Seq<RowView>, from: int) -> Option<int>
    decreases events.len() - from,
{
    if from < 0 || from >= events.len() {
        None
    } else if events[from] is Event {
        Some(from)
    } else {
        event_from(events, from + 1)
    }
}

/// The last record below index `end` that could be read.
pub open spec fn event_below(events: Seq<RowView>, end: int) -> Option<int>
    decreases end,
{
    if end <= 0 || end > events.len() {
        None
    } else if events[end - 1] is Event {
        Some(end - 1)
    } else {
        event_below(events, end - 1)
    }
}

/// The time of a record that could be read.
pub open spec fn row_time(row: RowView) -> Timestamp {
    match row {
        RowView::Event { event, .. } => event.time,
        RowView::Error(_) => arbitrary(),
    }
}

/// The first record from index `from` on that is at or past the target.
pub open spec fn event_at_or_past(
    events: Seq<RowView>,
    from: int,
    target: Timestamp,
) -> Option<int>
    decreases events.len() - from,
{
    if from < 0 || from >= events.len() {
        None
    } else if events[from] is Event && !row_time(events[from]).earlier(target) {
        Some(from)
    } else {
        event_at_or_past(events, from + 1, target)
    }
}

/// The last record below index `end` that is at or before the target.
pub open spec fn event_at_or_before(
    events: Seq<RowView>,
    end: int,
    target: Timestamp,
) -> Option<int>
    decreases end,
{
    if end <= 0 || end > events.len() {
        None
    } else if events[end - 1] is Event && !target.earlier(row_time(events[end - 1])) {
        Some(end - 1)
    } else {
        event_at_or_before(events, end - 1, target)
    }
}

impl TabView {
    /// The largest line that may stand at the top.
    pub open spec fn max_top(self, height: u16, width: u16) -> usize {
        max_top(self.content.formatted, height, width)
    }

    /// The last line of a record.
    pub open spec fn last_line(self, event: int) -> int {
        let next = if event + 1 < self.content.first_line_for_event.len() {
            self.content.first_line_for_event[event + 1] as int
        } else {
            self.content.formatted.len() as int
        };
        if next > 0 {
            next - 1
        } else {
            0
        }
    }

    /// Scrolled down by `n` lines, no further than the last line allows.
    pub open spec fn scrolled_down(self, n: int, height: u16, width: u16) -> TabView {
        TabView {
            viewport_top: least(
                self.viewport_top + n,
                self.max_top(height, width) as int,
            ) as usize,
            ..self
        }
    }

    /// Scrolled up by `n` lines, no further than the first line.
    pub open spec fn scrolled_up(self, n: int) -> TabView {
        TabView {
            viewport_top: if self.viewport_top >= n {
                (self.viewport_top - n) as usize
            } else {
                0
            },
            ..self
        }
    }

    /// The line at the top once `event` has been selected: what is selected
    /// comes into view with as little scrolling as possible, and shows its
    /// first line where it is taller than the viewport.
    pub open spec fn top_showing(self, event: int, height: u16) -> usize {
        let first = self.content.first_line_for_event[event];
        let last = self.last_line(event);
        if first < self.viewport_top {
            first
        } else if height > 0 && last >= self.viewport_top + height {
            if last - first + 1 >= height {
                first
            } else {
                (last - (height - 1)) as usize
            }
        } else {
            self.viewport_top
        }
    }

    /// With the selection moved by `delta` records, held within the records.
    pub open spec fn selection_moved(self, delta: int, height: u16) -> TabView {
        match self.select {
            None => self,
            Some(sel) => if self.content.events.len() == 0 {
                self
            } else {
                let event = clamped(
                    sel.event_idx + delta,
                    0,
                    self.content.events.len() - 1,
                );
                TabView {
                    select: Some(Selection { event_idx: event as usize, action: sel.action }),
                    viewport_top: self.top_showing(event, height),
                    ..self
                }
            },
        }
    }

    /// The record at the top of the viewport, or one past the last.
    pub open spec fn pivot(self) -> int {
        if self.viewport_top < self.content.event_for_line.len() {
            self.content.event_for_line[self.viewport_top as int] as int
        } else {
            self.content.events.len() as int
        }
    }

    /// The record whose time a step in time starts from: the nearest
    /// readable one at the top or ahead of it, else the nearest behind.
    pub open spec fn time_anchor(self, prefer: Direction) -> Option<int> {
        let ahead = event_from(self.content.events, self.pivot());
        let behind = event_below(
            self.content.events,
            least(self.pivot() + 1, self.content.events.len() as int),
        );
        match prefer {
            Direction::Forward => if ahead is Some {
                ahead
            } else {
                behind
            },
            Direction::Backward => if behind is Some {
                behind
            } else {
                ahead
            },
        }
    }

    /// The record that a step in time lands on.
    pub open spec fn time_target(self, dir: Direction, millis: i64) -> Option<int> {
        match self.time_anchor(dir) {
            None => None,
            Some(anchor) => {
                let time = row_time(self.content.events[anchor]);
                match dir {
                    Direction::Forward => match time.shifted(millis) {
                        Some(target) => event_at_or_past(self.content.events, anchor, target),
                        None => None,
                    },
                    Direction::Backward => match time.shifted((-millis) as i64) {
                        Some(target) => event_at_or_before(
                            self.content.events,
                            anchor + 1,
                            target,
                        ),
                        None => None,
                    },
                }
            },
        }
    }

    /// Moved by a step in time: to the record that the step lands on, or to
    /// the end in that direction where there is none; unmoved where no
    /// record could be read.
    pub open spec fn advanced(
        self,
        dir: Direction,
        millis: i64,
        height: u16,
        width: u16,
    ) -> TabView {
        if self.time_anchor(dir) is None {
            self
        } else {
            let max = self.max_top(height, width);
            let top = match self.time_target(dir, millis) {
                Some(event) => self.content.first_line_for_event[event],
                None => match dir {
                    Direction::Forward => max,
                    Direction::Backward => 0,
                },
            };
            TabView { viewport_top: least(top as int, max as int) as usize, ..self }
        }
    }

    /// With the live view's content and its anchor line at the top, no
    /// further than the last line allows.
    pub open spec fn resynced(
        self,
        content: ContentView,
        cursor: Option<Map<Seq<char>, ByteOffset>>,
        anchor: usize,
        height: u16,
        width: u16,
    ) -> TabView {
        TabView {
            content,
            cursor,
            viewport_top: least(
                anchor as int,
                max_top(content.formatted, height, width) as int,
            ) as usize,
            ..self
        }
    }

    /// With the content rendered anew: the record that was at the top still
    /// is, and the search, which went by lines, is gone.
    pub open spec fn rerendered(self, content: ContentView, anchor: Option<usize>) -> TabView {
        TabView {
            content,
            viewport_top: match anchor {
                Some(event) => if event < content.first_line_for_event.len() {
                    content.first_line_for_event[event as int]
                } else {
                    0
                },
                None => 0,
            },
            search: None,
            ..self
        }
    }

    /// The record at the top of the viewport.
    pub open spec fn anchor_event(self) -> Option<usize> {
        if self.viewport_top < self.content.event_for_line.len() {
            Some(self.content.event_for_line[self.viewport_top as int])
        } else {
            None
        }
    }

    /// The lines that match a pattern, for a tab that holds all its lines.
    pub open spec fn match_lines(self, pattern: Seq<char>) -> Seq<usize> {
        if self.live {
            Seq::empty()
        } else {
            matching(self.content.formatted, pattern)
        }
    }

    /// A new tab.
    pub open spec fn opened(name: Seq<char>, kind: TabKind, stream: u128) -> TabView {
        TabView {
            name,
            stream,
            kind,
            live: kind == TabKind::Stream,
            content: match kind {
                TabKind::Stream => ContentView::empty(),
                TabKind::Summary => ContentView::placeholder(),
            },
            cursor: None,
            viewport_top: 0,
            search: None,
            select: None,
        }
    }
}

proof fn lemma_rows_from_bounds(lines: Seq<Seq<char>>, from: int, width: int)
    requires
        width >= 0,
    ensures
        rows_from(lines, from, width) >= 0,
        0 <= from < lines.len() ==> rows_from(lines, from, width) >= rows_from(
            lines,
            from + 1,
            width,
        ),
    decreases lines.len() - from,
{
    if 0 <= from < lines.len() {
        lemma_rows_from_bounds(lines, from + 1, width);
        let n = lines[from].len() as int;
        if width > 0 && n > 0 {
            assert((n + width - 1) / width >= 0) by (nonlinear_arith)
                requires
                    n > 0,
                    width > 0,
            ;
        }
    }
}

/// The largest line that may stand at the top of the viewport.
pub fn max_top_of(lines: &Vec<String>, viewport_height: u16, viewport_width: u16) -> (top: usize)
    ensures
        top == max_top(views(lines@), viewport_height, viewport_width),
        top <= lines@.len(),
{
    let ghost all = views(lines@);
    let ghost h = viewport_height as int;
    let ghost w = viewport_width as int;
    if lines.len() == 0 {
        return 0;
    }
    let height: usize = viewport_height as usize;
    let last: usize = lines.len() - 1;
    let mut used: usize = 0;
    let mut i: usize = lines.len();
    while i > 0
        invariant
            all == views(lines@),
            h == viewport_height,
            w == viewport_width,
            height == h,
            i <= lines@.len(),
            last == lines@.len() - 1,
            used == rows_from(all, i as int, w),
            used <= height,
            fitting_line(all, i as int, h, w) == fitting_line(all, all.len() as int, h, w),
        decreases i,
    {
        let ghost before = used;
        assert(all[i - 1] == lines@[i - 1]@);
        let rows: usize = visual_rows_for(lines[i - 1].as_str(), viewport_width);
        used = used.saturating_add(rows);
        if used > height {
            return if i <= last {
                i
            } else {
                last
            };
        }
        i = i - 1;
    }
    0
}

impl Tab {
    /// The content is well formed.
    pub open spec fn wf(self) -> bool {
        self.content@.wf()
    }

    /// A new tab.  A stream tab is fed by a live view; a summary tab shows a
    /// placeholder until it has been computed.
    pub fn new(name: String, kind: TabKind, stream: LogStreamId) -> (tab: Self)
        ensures
            tab.wf(),
            tab@ == TabView::opened(name@, kind, stream.0),
    {
        let content = match kind {
            TabKind::Stream => Materialized::default(),
            TabKind::Summary => summary_placeholder_rows(),
        };
        Tab {
            name,
            stream,
            kind,
            live: kind == TabKind::Stream,
            content,
            cursor: None,
            viewport_top: 0,
            search: None,
            select: None,
        }
    }

    /// Largest line that may stand at the top of the viewport.
    pub fn max_top(&self, viewport_height: u16, viewport_width: u16) -> (top: usize)
        ensures
            top == self@.max_top(viewport_height, viewport_width),
            top <= self@.content.formatted.len(),
    {
        max_top_of(&self.content.formatted, viewport_height, viewport_width)
    }

    /// Last line of record `event_idx`.
    pub fn last_line_for_event(&self, event_idx: usize) -> (line: usize)
        ensures
            line == self@.last_line(event_idx as int),
    {
        let next: usize = if event_idx < self.content.first_line_for_event.len() && event_idx + 1
            < self.content.first_line_for_event.len() {
            self.content.first_line_for_event[event_idx + 1]
        } else {
            self.content.formatted.len()
        };
        next.saturating_sub(1)
    }

    /// Scrolls a tab that holds all its lines down by `n` lines.
    pub fn scroll_down(&mut self, n: usize, viewport_height: u16, viewport_width: u16)
        ensures
            final(self)@ == old(self)@.scrolled_down(n as int, viewport_height, viewport_width),
            final(self).wf() == old(self).wf(),
    {
        let max = self.max_top(viewport_height, viewport_width);
        let top = self.viewport_top.saturating_add(n);
        self.viewport_top = if top <= max {
            top
        } else {
            max
        };
    }

    /// Scrolls a tab that holds all its lines up by `n` lines.
    pub fn scroll_up(&mut self, n: usize)
        ensures
            final(self)@ == old(self)@.scrolled_up(n as int),
            final(self).wf() == old(self).wf(),
    {
        self.viewport_top = self.viewport_top.saturating_sub(n);
    }

    /// Moves the selection by `delta` records, and scrolls just enough to
    /// keep it visible.
    pub fn move_selection(&mut self, delta: isize, viewport_height: u16)
        requires
            old(self).wf(),
        ensures
            final(self).wf(),
            final(self)@ == old(self)@.selection_moved(delta as int, viewport_height),
    {
        let sel = match self.select {
            Some(sel) => sel,
            None => {
                return ;
            },
        };
        if self.content.events.len() == 0 {
            assert(self@.content.events.len() == 0);
            return ;
        }
        assert(self@.content.events.len() == self.content.events@.len());
        let last: usize = self.content.events.len() - 1;
        let event: usize = step_within(sel.event_idx, delta, last);
        let first: usize = self.content.first_line_for_event[event];
        let last_line: usize = self.last_line_for_event(event);
        proof {
            if event + 1 < self@.content.events.len() {
                assert(self@.content.first_line_for_event[event as int]
                    < self@.content.first_line_for_event[event + 1]);
            }
            assert(first <= last_line);
        }
        let height: usize = viewport_height as usize;
        let top: usize = if first < self.viewport_top {
            first
        } else if height > 0 && last_line >= self.viewport_top && last_line - self.viewport_top
            >= height {
            if last_line - first >= height - 1 {
                first
            } else {
                last_line - (height - 1)
            }
        } else {
            self.viewport_top
        };
        self.select = Some(Selection { event_idx: event, action: sel.action });
        self.viewport_top = top;
    }

    fn event_from(&self, from: usize) -> (found: Option<usize>)
        ensures
            match found {
                Some(i) => event_from(self@.content.events, from as int) == Some(i as int) && i
                    < self.content.events@.len(),
                None => event_from(self@.content.events, from as int) is None,
            },
    {
        let ghost all = self@.content.events;
        let mut i: usize = from;
        while i < self.content.events.len()
            invariant
                all == self@.content.events,
                event_from(all, from as int) == event_from(all, i as int),
            decreases self.content.events@.len() - i,
        {
            assert(all[i as int] == self.content.events@[i as int]@);
            match &self.content.events[i] {
                Row::Event(_) => {
                    return Some(i);
                },
                Row::Error(_) => {},
            }
            i = i + 1;
        }
        None
    }

    fn event_below(&self, end: usize) -> (found: Option<usize>)
        requires
            end <= self.content.events@.len(),
        ensures
            match found {
                Some(i) => event_below(self@.content.events, end as int) == Some(i as int) && i
                    < end,
                None => event_below(self@.content.events, end as int) is None,
            },
    {
        let ghost all = self@.content.events;
        let mut i: usize = end;
        while i > 0
            invariant
                i <= end <= self.content.events@.len(),
                all == self@.content.events,
                event_below(all, end as int) == event_below(all, i as int),
            decreases i,
        {
            assert(all[i - 1] == self.content.events@[i - 1]@);
            match &self.content.events[i - 1] {
                Row::Event(_) => {
                    return Some(i - 1);
                },
                Row::Error(_) => {},
            }
            i = i - 1;
        }
        None
    }

    /// The record whose time a step in time starts from.
    pub fn time_anchor_idx(&self, prefer: Direction) -> (anchor: Option<usize>)
        ensures
            match anchor {
                Some(i) => self@.time_anchor(prefer) == Some(i as int) && i
                    < self.content.events@.len() && self@.content.events[i as int] is Event,
                None => self@.time_anchor(prefer) is None,
            },
    {
        let count: usize = self.content.events.len();
        assert(count == self@.content.events.len());
        let pivot: usize = if self.viewport_top < self.content.event_for_line.len() {
            self.content.event_for_line[self.viewport_top]
        } else {
            count
        };
        let ahead = self.event_from(pivot);
        let end: usize = if pivot < count {
            pivot + 1
        } else {
            count
        };
        let behind = self.event_below(end);
        proof {
            lemma_found_are_events(self@.content.events, pivot as int, end as int);
        }
        match prefer {
            Direction::Forward => if ahead.is_some() {
                ahead
            } else {
                behind
            },
            Direction::Backward => if behind.is_some() {
                behind
            } else {
                ahead
            },
        }
    }

    fn event_at_or_past(&self, from: usize, target: Timestamp) -> (found: Option<usize>)
        ensures
            match found {
                Some(i) => event_at_or_past(self@.content.events, from as int, target) == Some(
                    i as int,
                ) && i < self.content.events@.len(),
                None => event_at_or_past(self@.content.events, from as int, target) is None,
            },
    {
        let ghost all = self@.content.events;
        let mut i: usize = from;
        while i < self.content.events.len()
            invariant
                all == self@.content.events,
                event_at_or_past(all, from as int, target) == event_at_or_past(
                    all,
                    i as int,
                    target,
                ),
            decreases self.content.events@.len() - i,
        {
            assert(all[i as int] == self.content.events@[i as int]@);
            match &self.content.events[i] {
                Row::Event(event) => {
                    if !event.event.time.is_before(target) {
                        return Some(i);
                    }
                },
                Row::Error(_) => {},
            }
            i = i + 1;
        }
        None
    }

    fn event_at_or_before(&self, end: usize, target: Timestamp) -> (found: Option<usize>)
        requires
            end <= self.content.events@.len(),
        ensures
            match found {
                Some(i) => event_at_or_before(self@.content.events, end as int, target) == Some(
                    i as int,
                ) && i < end,
                None => event_at_or_before(self@.content.events, end as int, target) is None,
            },
    {
        let ghost all = self@.content.events;
        let mut i: usize = end;
        while i > 0
            invariant
                i <= end <= self.content.events@.len(),
                all == self@.content.events,
                event_at_or_before(all, end as int, target) == event_at_or_before(
                    all,
                    i as int,
                    target,
                ),
            decreases i,
        {
            assert(all[i - 1] == self.content.events@[i - 1]@);
            match &self.content.events[i - 1] {
                Row::Event(event) => {
                    if !target.is_before(event.event.time) {
                        return Some(i - 1);
                    }
                },
                Row::Error(_) => {},
            }
            i = i - 1;
        }
        None
    }

    /// Moves a tab that holds all its lines by about `millis` of time.
    pub fn advance_time(
        &mut self,
        direction: Direction,
        millis: i64,
        viewport_height: u16,
        viewport_width: u16,
    )
        requires
            old(self).wf(),
            millis >= 0,
        ensures
            final(self).wf(),
            final(self)@ == old(self)@.advanced(
                direction,
                millis,
                viewport_height,
                viewport_width,
            ),
    {
        let anchor: usize = match self.time_anchor_idx(direction) {
            Some(anchor) => anchor,
            None => {
                return ;
            },
        };
        let count: usize = self.content.events.len();
        assert(anchor < count);
        assert(self@.content.events[anchor as int] == self.content.events@[anchor as int]@);
        let time = match &self.content.events[anchor] {
            Row::Event(event) => event.event.time,
            Row::Error(_) => {
                return ;
            },
        };
        let found = match direction {
            Direction::Forward => match time.shift(millis) {
                Some(target) => self.event_at_or_past(anchor, target),
                None => None,
            },
            Direction::Backward => match time.shift(-millis) {
                Some(target) => self.event_at_or_before(anchor + 1, target),
                None => None,
            },
        };
        let max: usize = self.max_top(viewport_height, viewport_width);
        let top: usize = match found {
            Some(event) => self.content.first_line_for_event[event],
            None => match direction {
                Direction::Forward => max,
                Direction::Backward => 0,
            },
        };
        self.viewport_top = if top <= max {
            top
        } else {
            max
        };
    }

    /// Takes in the live view's content with its anchor line at the top.
    /// Returns the line to move the anchor back to where it had run past the
    /// last line that may stand at the top, so that the next step up moves
    /// what is visible.
    pub fn resync(
        &mut self,
        content: Materialized,
        cursor: Option<Cursor>,
        anchor: usize,
        viewport_height: u16,
        viewport_width: u16,
    ) -> (pulled: Option<usize>)
        requires
            content@.wf(),
        ensures
            final(self).wf(),
            final(self)@ == old(self)@.resynced(
                content@,
                cursor_view(cursor),
                anchor,
                viewport_height,
                viewport_width,
            ),
            pulled == (if anchor > max_top(
                content@.formatted,
                viewport_height,
                viewport_width,
            ) {
                Some(max_top(content@.formatted, viewport_height, viewport_width))
            } else {
                None
            }),
    {
        let max = max_top_of(&content.formatted, viewport_height, viewport_width);
        self.content = content;
        self.cursor = cursor;
        if anchor > max {
            self.viewport_top = max;
            Some(max)
        } else {
            self.viewport_top = anchor;
            None
        }
    }

    /// Takes in the content as rendered anew, keeping the record `anchor` at
    /// the top.
    pub fn rerendered(&mut self, content: Materialized, anchor: Option<usize>)
        requires
            content@.wf(),
        ensures
            final(self).wf(),
            final(self)@ == old(self)@.rerendered(content@, anchor),
    {
        self.viewport_top = match anchor {
            Some(event) => if event < content.first_line_for_event.len() {
                content.first_line_for_event[event]
            } else {
                0
            },
            None => 0,
        };
        self.content = content;
        self.search = None;
    }

    /// The record at the top of the viewport.
    pub fn anchor_event(&self) -> (event: Option<usize>)
        ensures
            event == self@.anchor_event(),
    {
        if self.viewport_top < self.content.event_for_line.len() {
            Some(self.content.event_for_line[self.viewport_top])
        } else {
            None
        }
    }

    /// The lines that match, for a tab that holds all its lines.
    pub fn match_indices(&self, pattern: &Pattern) -> (matches: Vec<usize>)
        ensures
            matches@ == self@.match_lines(pattern@),
    {
        if self.live {
            Vec::new()
        } else {
            compute_matches(&self.content.formatted, pattern)
        }
    }

    /// The records.
    pub fn events(&self) -> (events: &Vec<Row>)
        ensures
            *events == self.content.events,
    {
        &self.content.events
    }

    /// The lines.
    pub fn formatted(&self) -> (lines: &Vec<String>)
        ensures
            *lines == self.content.formatted,
    {
        &self.content.formatted
    }

    /// For each line, the record that it belongs to.
    pub fn event_for_line(&self) -> (events: &Vec<usize>)
        ensures
            *events == self.content.event_for_line,
    {
        &self.content.event_for_line
    }

    /// For each record, its first line.
    pub fn first_line_for_event(&self) -> (lines: &Vec<usize>)
        ensures
            *lines == self.content.first_line_for_event,
    {
        &self.content.first_line_for_event
    }
}

proof fn lemma_found_are_events(events: Seq<RowView>, from: int, end: int)
    ensures
        event_from(events, from) matches Some(i) ==> from <= i < events.len() && events[i] is Event,
        event_below(events, end) matches Some(i) ==> 0 <= i < end && events[i] is Event,
{
    lemma_event_from(events, from);
    lemma_event_below(events, end);
}

proof fn lemma_event_from(events: Seq<RowView>, from: int)
    ensures
        event_from(events, from) matches Some(i) ==> from <= i < events.len() && events[i] is Event,
    decreases events.len() - from,
{
    if 0 <= from < events.len() && !(events[from] is Event) {
        lemma_event_from(events, from + 1);
    }
}

proof fn lemma_event_below(events: Seq<RowView>, end: int)
    ensures
        event_below(events, end) matches Some(i) ==> 0 <= i < end && events[i] is Event,
    decreases end,
{
    if 0 < end <= events.len() && !(events[end - 1] is Event) {
        lemma_event_below(events, end - 1);
    }
}

proof fn lemma_fitting_line(lines: Seq<Seq<char>>, from: int, height: int, width: int)
    requires
        0 <= from <= lines.len(),
        rows_from(lines, from, width) <= height,
    ensures
        ({
            let line = fitting_line(lines, from, height, width);
            &&& 0 <= line <= from
            &&& rows_from(lines, line, width) <= height
            &&& line > 0 ==> rows_from(lines, line - 1, width) > height
        }),
    decreases from,
{
    if from > 0 && rows_from(lines, from - 1, width) <= height {
        lemma_fitting_line(lines, from - 1, height, width);
    }
}

/// The largest top line shows as much as fits: from it on everything fits
/// and from the line before it no longer does, unless it is the last line,
/// which is shown however tall it is.
pub proof fn law_largest_top_fills_the_viewport(lines: Seq<Seq<char>>, height: u16, width: u16)
    requires
        0 < lines.len() <= usize::MAX,
    ensures
        ({
            let top = max_top(lines, height, width) as int;
            &&& 0 <= top < lines.len()
            &&& rows_from(lines, top, width as int) <= height || top == lines.len() - 1
            &&& top > 0 ==> rows_from(lines, top - 1, width as int) > height
        }),
{
    let n = lines.len() as int;
    lemma_fitting_line(lines, n, height as int, width as int);
    let line = fitting_line(lines, n, height as int, width as int);
    if line == n && n > 1 {
        lemma_rows_from_bounds(lines, n - 2, width as int);
    }
}

/// Scrolling never leaves the lines: down stops at the largest top line, up
/// at the first.
pub proof fn law_scrolling_stays_within_the_lines(tab: TabView, n: int, height: u16, width: u16)
    requires
        n >= 0,
    ensures
        tab.scrolled_down(n, height, width).viewport_top <= tab.max_top(height, width),
        tab.scrolled_up(n).viewport_top <= tab.viewport_top,
        tab.viewport_top + n <= tab.max_top(height, width) ==> tab.scrolled_down(
            n,
            height,
            width,
        ).scrolled_up(n) == tab,
{
}

/// What is selected can be seen: its first line lies in the viewport, however
/// far the selection moved.
pub proof fn law_selection_stays_visible(tab: TabView, delta: int, height: u16)
    requires
        tab.content.wf(),
        tab.select is Some,
        0 < tab.content.events.len() <= usize::MAX,
        tab.content.formatted.len() <= usize::MAX,
        height > 0,
    ensures
        ({
            let after = tab.selection_moved(delta, height);
            let event = after.select->Some_0.event_idx;
            let first = after.content.first_line_for_event[event as int];
            &&& event < tab.content.events.len()
            &&& after.select->Some_0.action == tab.select->Some_0.action
            &&& after.viewport_top <= first < after.viewport_top + height
        }),
{
    let after = tab.selection_moved(delta, height);
    let event = after.select->Some_0.event_idx as int;
    if event + 1 < tab.content.events.len() {
        assert(tab.content.first_line_for_event[event]
            < tab.content.first_line_for_event[event + 1]);
    }
    assert(tab.content.first_line_for_event[event] < tab.content.formatted.len());
}

/// Moving the selection keeps as much of the record in view as there is room
/// for: all of it where it fits, from its first line on where it does not; and
/// a record that is in view already leaves the view where it was.
pub proof fn law_selection_shows_the_whole_record(tab: TabView, delta: int, height: u16)
    requires
        tab.content.wf(),
        tab.select is Some,
        0 < tab.content.events.len() <= usize::MAX,
        tab.content.formatted.len() <= usize::MAX,
        height > 0,
    ensures
        ({
            let after = tab.selection_moved(delta, height);
            let event = after.select->Some_0.event_idx as int;
            let lines = tab.content.first_line_for_event;
            let first = lines[event];
            let end = if event + 1 < lines.len() {
                lines[event + 1] as int
            } else {
                tab.content.formatted.len() as int
            };
            &&& first >= tab.viewport_top && end <= tab.viewport_top + height
                ==> after.viewport_top == tab.viewport_top
            &&& end - first < height ==> after.viewport_top <= first && end <= after.viewport_top
                + height
            &&& first < tab.viewport_top ==> after.viewport_top == first
            &&& after.content == tab.content && after.cursor == tab.cursor
        }),
{
    let after = tab.selection_moved(delta, height);
    let event = after.select->Some_0.event_idx as int;
    assert(tab.content.first_line_for_event[event] < tab.content.formatted.len());
    if event + 1 < tab.content.events.len() {
        assert(tab.content.first_line_for_event[event] < tab.content.first_line_for_event[event
            + 1]);
    }
}

/// A step in time starts at the record at the top or, where no record is
/// there, at the nearest one ahead going forward and behind going back, and
/// at the other side's where that side has none.
pub proof fn law_time_steps_start_at_the_nearest_record(tab: TabView, i: int)
    requires
        tab.viewport_top < tab.content.event_for_line.len(),
        0 <= i < tab.content.events.len(),
        tab.content.events[i] is Event,
        tab.content.event_for_line[tab.viewport_top as int] < tab.content.events.len(),
    ensures
        ({
            let events = tab.content.events;
            let here = tab.content.event_for_line[tab.viewport_top as int] as int;
            let bare = |from: int, to: int|
                forall|k: int| from <= k < to ==> !((#[trigger] events[k]) is Event);
            &&& here <= i && bare(here, i) ==> tab.time_anchor(Direction::Forward) == Some(i)
            &&& i <= here && bare(i + 1, here + 1) ==> tab.time_anchor(Direction::Backward) == Some(
                i,
            )
            &&& i <= here && bare(i + 1, events.len() as int) ==> tab.time_anchor(
                Direction::Forward,
            ) == Some(i)
            &&& here <= i && bare(0, i) ==> tab.time_anchor(Direction::Backward) == Some(i)
        }),
{
    let events = tab.content.events;
    let here = tab.content.event_for_line[tab.viewport_top as int] as int;
    lemma_first_from(events, here);
    lemma_last_below(events, here + 1);
}

proof fn lemma_first_from(events: Seq<RowView>, from: int)
    requires
        0 <= from,
    ensures
        match event_from(events, from) {
            Some(i) => from <= i < events.len() && events[i] is Event && forall|k: int|
                from <= k < i ==> !((#[trigger] events[k]) is Event),
            None => forall|k: int| from <= k < events.len() ==> !((#[trigger] events[k]) is Event),
        },
    decreases events.len() - from,
{
    if from < events.len() && !(events[from] is Event) {
        lemma_first_from(events, from + 1);
    }
}

proof fn lemma_last_below(events: Seq<RowView>, end: int)
    requires
        0 <= end <= events.len(),
    ensures
        match event_below(events, end) {
            Some(i) => 0 <= i < end && events[i] is Event && forall|k: int|
                i < k < end ==> !((#[trigger] events[k]) is Event),
            None => forall|k: int| 0 <= k < end ==> !((#[trigger] events[k]) is Event),
        },
    decreases end,
{
    if end > 0 && !(events[end - 1] is Event) {
        lemma_last_below(events, end - 1);
    }
}

/// Rendering anew ends the search, whose lines are gone, and shows the first
/// line where no record was to be kept at the top.
pub proof fn law_rerendering_ends_the_search(
    tab: TabView,
    content: ContentView,
    anchor: Option<usize>,
)
    ensures
        ({
            let after = tab.rerendered(content, anchor);
            &&& after.search is None && after.content == content
            &&& anchor is None ==> after.viewport_top == 0
            &&& anchor matches Some(event) ==> event >= content.first_line_for_event.len()
                ==> after.viewport_top == 0
            &&& after == (TabView {
                content,
                search: None,
                viewport_top: after.viewport_top,
                ..tab
            })
        }),
{
}

/// Which lines match is kept only of what stays as it is: a live tab looks for
/// the pattern as it goes, any other has every matching line.
pub proof fn law_matches_are_kept_of_still_lines(tab: TabView, pattern: Seq<char>, line: int)
    requires
        0 <= line < tab.content.formatted.len() <= usize::MAX,
    ensures
        tab.live ==> tab.match_lines(pattern).len() == 0,
        !tab.live ==> (tab.match_lines(pattern).contains(line as usize)
            <==> crate::pattern::regex_is_match(pattern, tab.content.formatted[line])),
{
    if !tab.live {
        crate::search::law_matches_ascend(tab.content.formatted, pattern);
        let found = tab.match_lines(pattern);
        if found.contains(line as usize) {
            let i = choose|i: int| 0 <= i < found.len() && found[i] == line as usize;
            assert(crate::pattern::regex_is_match(
                pattern,
                tab.content.formatted[found[i] as int],
            ));
        }
    }
}

/// The rows from a line on are its own and those from the next on.
pub proof fn law_rows_add_up(lines: Seq<Seq<char>>, from: int, width: int)
    requires
        0 <= from < lines.len(),
    ensures
        rows_from(lines, from, width) == visual_rows(lines[from].len() as int, width) + rows_from(
            lines,
            from + 1,
            width,
        ),
        rows_from(lines, lines.len() as int, width) == 0,
{
}

} // verus!
