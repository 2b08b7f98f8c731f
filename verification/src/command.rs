//! What the application asks of the world around it.

use crate::position::{ByteOffset, Cursor};
use crate::session::{LogStreamId, RenderOpts};
use crate::source::Direction;
use vstd::prelude::*;

verus! {

/// What a reproduction of a session points at.
#[derive(Debug)]
pub enum Selector {
    /// every source of the session
    WholeSession,
    /// the stream of this name
    Stream(String),
    /// the tab of this name
    Tab(String),
    /// the bookmark of this name or id
    Bookmark(String),
}

/// Work that the application cannot do itself.  Live views read records,
/// seek and search; the store saves sessions.
#[derive(Debug)]
pub enum Command {
    /// feed the tab from a live view over the stream
    OpenView { tab: usize, stream: LogStreamId },
    /// the tab is gone, and with it its live view
    CloseView { tab: usize },
    /// scroll the tab's view
    ScrollDown { tab: usize, lines: usize },
    /// scroll the tab's view
    ScrollUp { tab: usize, lines: usize },
    /// go to the first record
    SeekToStart { tab: usize },
    /// go to the last record
    SeekToEnd { tab: usize },
    /// go to the record at the cursor
    SeekToCursor { tab: usize, cursor: Cursor },
    /// go on by a stretch of time
    SeekByTime { tab: usize, direction: Direction, millis: i64 },
    /// go to the next record in which the pattern occurs
    SeekForSearch { tab: usize, direction: Direction, pattern: String },
    /// put the view's anchor on a line
    SetAnchor { tab: usize, line: usize },
    /// the stream's filter has changed
    Refilter { tab: usize, stream: LogStreamId },
    /// render the records anew, with record `anchor` at the top
    Rerender { tab: usize, opts: RenderOpts, anchor: Option<usize> },
    /// compute the tab's summary
    BuildSummary { tab: usize, stream: LogStreamId },
    /// find the cursor in front of a record, to bookmark it
    LocateRecord { tab: usize, event: usize },
    /// find out whether the record at the cursor passes the stream's filter
    CheckBookmark { stream: LogStreamId, cursor: Cursor },
    /// stop seeking, or computing a summary
    Interrupt { tab: usize },
    /// save the session
    Save,
    /// save the session, then show the command that reproduces the view
    SaveAndShow(Selector),
}

/// What a [`Selector`] says.
#[verifier::ext_equal]
pub enum SelectorView {
    WholeSession,
    Stream(Seq<char>),
    Tab(Seq<char>),
    Bookmark(Seq<char>),
}

/// What a [`Command`] says.
#[verifier::ext_equal]
#[allow(inconsistent_fields)]
pub enum CommandView {
    OpenView { tab: usize, stream: u128 },
    CloseView { tab: usize },
    ScrollDown { tab: usize, lines: usize },
    ScrollUp { tab: usize, lines: usize },
    SeekToStart { tab: usize },
    SeekToEnd { tab: usize },
    SeekToCursor { tab: usize, cursor: Map<Seq<char>, ByteOffset> },
    SeekByTime { tab: usize, direction: Direction, millis: i64 },
    SeekForSearch { tab: usize, direction: Direction, pattern: Seq<char> },
    SetAnchor { tab: usize, line: usize },
    Refilter { tab: usize, stream: u128 },
    Rerender { tab: usize, opts: RenderOpts, anchor: Option<usize> },
    BuildSummary { tab: usize, stream: u128 },
    LocateRecord { tab: usize, event: usize },
    CheckBookmark { stream: u128, cursor: Map<Seq<char>, ByteOffset> },
    Interrupt { tab: usize },
    Save,
    SaveAndShow(SelectorView),
}

impl View for Selector {
    type V = SelectorView;

    open spec fn view(&self) -> SelectorView {
        match self {
            Selector::WholeSession => SelectorView::WholeSession,
            Selector::Stream(name) => SelectorView::Stream(name@),
            Selector::Tab(name) => SelectorView::Tab(name@),
            Selector::Bookmark(needle) => SelectorView::Bookmark(needle@),
        }
    }
}

impl View for Command {
    type V = CommandView;

    open spec fn view(&self) -> CommandView {
        match self {
            Command::OpenView { tab, stream } => CommandView::OpenView {
                tab: *tab,
                stream: stream.0,
            },
            Command::CloseView { tab } => CommandView::CloseView { tab: *tab },
            Command::ScrollDown { tab, lines } => CommandView::ScrollDown {
                tab: *tab,
                lines: *lines,
            },
            Command::ScrollUp { tab, lines } => CommandView::ScrollUp { tab: *tab, lines: *lines },
            Command::SeekToStart { tab } => CommandView::SeekToStart { tab: *tab },
            Command::SeekToEnd { tab } => CommandView::SeekToEnd { tab: *tab },
            Command::SeekToCursor { tab, cursor } => CommandView::SeekToCursor {
                tab: *tab,
                cursor: cursor@,
            },
            Command::SeekByTime { tab, direction, millis } => CommandView::SeekByTime {
                tab: *tab,
                direction: *direction,
                millis: *millis,
            },
            Command::SeekForSearch { tab, direction, pattern } => CommandView::SeekForSearch {
                tab: *tab,
                direction: *direction,
                pattern: pattern@,
            },
            Command::SetAnchor { tab, line } => CommandView::SetAnchor { tab: *tab, line: *line },
            Command::Refilter { tab, stream } => CommandView::Refilter {
                tab: *tab,
                stream: stream.0,
            },
            Command::Rerender { tab, opts, anchor } => CommandView::Rerender {
                tab: *tab,
                opts: *opts,
                anchor: *anchor,
            },
            Command::BuildSummary { tab, stream } => CommandView::BuildSummary {
                tab: *tab,
                stream: stream.0,
            },
            Command::LocateRecord { tab, event } => CommandView::LocateRecord {
                tab: *tab,
                event: *event,
            },
            Command::CheckBookmark { stream, cursor } => CommandView::CheckBookmark {
                stream: stream.0,
                cursor: cursor@,
            },
            Command::Interrupt { tab } => CommandView::Interrupt { tab: *tab },
            Command::Save => CommandView::Save,
            Command::SaveAndShow(selector) => CommandView::SaveAndShow(selector@),
        }
    }
}

} // verus!
