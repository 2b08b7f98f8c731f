//! The application's state and how keys change it.
//!
//! The state is pure: what needs the world (live views, the disk, the clock)
//! is asked for by [`Command`]s, and the answers come back through methods.

pub mod effects;
mod keys;
pub mod laws;
mod model;
mod update;

pub use keys::consistent;
pub use update::{can_open, openable};
pub use model::{
    bookmark_at, commands_for_filter, commands_for_rendering, first_tab_of, past, saved_view,
    tab_name,
};

use crate::command::{Command, CommandView};
use crate::dialog::{text_view, Dialog, DialogView};
use crate::event::Timestamp;
use crate::filter::Parsed;
use crate::search::SearchDirection;
use crate::session::{
    BookmarkId, LogStreamId, PolicyView, SavePolicy, Session, SessionView,
};
use crate::tab::{Tab, TabView};
use vstd::prelude::*;

verus! {

/// Number of time steps to choose from.
pub const TIME_STEP_COUNT: usize = 13;

/// The step chosen at the start.
pub const DEFAULT_TIME_STEP_IDX: usize = 5;

/// A time step: its label and its length in milliseconds.
pub open spec fn time_step(i: int) -> (Seq<char>, i64) {
    if i == 0 {
        ("100ms"@, 100)
    } else if i == 1 {
        ("1s"@, 1_000)
    } else if i == 2 {
        ("5s"@, 5_000)
    } else if i == 3 {
        ("10s"@, 10_000)
    } else if i == 4 {
        ("30s"@, 30_000)
    } else if i == 5 {
        ("1m"@, 60_000)
    } else if i == 6 {
        ("5m"@, 300_000)
    } else if i == 7 {
        ("10m"@, 600_000)
    } else if i == 8 {
        ("30m"@, 1_800_000)
    } else if i == 9 {
        ("60m"@, 3_600_000)
    } else if i == 10 {
        ("6h"@, 21_600_000)
    } else if i == 11 {
        ("12h"@, 43_200_000)
    } else {
        ("1d"@, 86_400_000)
    }
}

/// The label and the length in milliseconds of a time step.
pub fn time_step_at(i: usize) -> (step: (&'static str, i64))
    requires
        i < TIME_STEP_COUNT,
    ensures
        (step.0@, step.1) == time_step(i as int),
        step.1 > 0,
{
    if i == 0 {
        ("100ms", 100)
    } else if i == 1 {
        ("1s", 1_000)
    } else if i == 2 {
        ("5s", 5_000)
    } else if i == 3 {
        ("10s", 10_000)
    } else if i == 4 {
        ("30s", 30_000)
    } else if i == 5 {
        ("1m", 60_000)
    } else if i == 6 {
        ("5m", 300_000)
    } else if i == 7 {
        ("10m", 600_000)
    } else if i == 8 {
        ("30m", 1_800_000)
    } else if i == 9 {
        ("60m", 3_600_000)
    } else if i == 10 {
        ("6h", 21_600_000)
    } else if i == 11 {
        ("12h", 43_200_000)
    } else {
        ("1d", 86_400_000)
    }
}

/// The most recent search, for repeats.
#[derive(Debug)]
pub struct LastSearch {
    pub pattern: String,
    pub direction: SearchDirection,
}

/// What a [`LastSearch`] says.
#[verifier::ext_equal]
pub struct LastSearchView {
    pub pattern: Seq<char>,
    pub direction: SearchDirection,
}

/// What a key may need to be new: ids that nothing bears yet, and the time.
#[derive(Debug, Clone, Copy)]
pub struct Fresh {
    pub stream: LogStreamId,
    pub bookmark: BookmarkId,
    pub now: Timestamp,
}

/// What the filter syntax answered while a key was handled: the text of a
/// filter that was put up for editing, and what a text was read as.
pub struct Answers {
    pub shown: Seq<char>,
    pub parsed: Parsed,
}

/// The application's state.
#[derive(Debug)]
pub struct App {
    pub session: Session,
    /// open tabs in display order; never empty
    pub tabs: Vec<Tab>,
    /// the pane on show: a tab, or past the last tab the bookmarks
    pub active: usize,
    /// number for the next tab's name; never used twice
    pub next_tab_number: usize,
    pub viewport_height: u16,
    pub viewport_width: u16,
    pub quit: bool,
    /// the dialog that intercepts all keys
    pub dialog: Option<Dialog>,
    pub last_search: Option<LastSearch>,
    pub time_step_idx: usize,
    pub bookmark_cursor: Option<BookmarkId>,
    /// a message shown until the next key
    pub notice: Option<String>,
    /// whether the session is kept on disk
    pub stored: bool,
    pub policy: SavePolicy,
    pub show_fetch_stats: bool,
    /// commands not yet carried out
    pub outbox: Vec<Command>,
}

/// What an [`App`] holds.
#[verifier::ext_equal]
pub struct AppView {
    pub session: SessionView,
    pub tabs: Seq<TabView>,
    pub active: usize,
    pub next_tab_number: usize,
    pub viewport_height: u16,
    pub viewport_width: u16,
    pub quit: bool,
    pub dialog: Option<DialogView>,
    pub last_search: Option<LastSearchView>,
    pub time_step_idx: usize,
    pub bookmark_cursor: Option<u128>,
    pub notice: Option<Seq<char>>,
    pub stored: bool,
    pub policy: PolicyView,
    pub show_fetch_stats: bool,
    pub outbox: Seq<CommandView>,
}

/// The views of tabs.
pub open spec fn tab_views(tabs: Seq<Tab>) -> Seq<TabView> {
    tabs.map_values(|t: Tab| t@)
}

/// The views of commands.
pub open spec fn command_views(commands: Seq<Command>) -> Seq<CommandView> {
    commands.map_values(|c: Command| c@)
}

/// What an optional [`LastSearch`] says.
pub open spec fn last_view(last: Option<LastSearch>) -> Option<LastSearchView> {
    match last {
        Some(last) => Some(LastSearchView { pattern: last.pattern@, direction: last.direction }),
        None => None,
    }
}

/// The number of an optional bookmark id.
pub open spec fn id_view(id: Option<BookmarkId>) -> Option<u128> {
    match id {
        Some(id) => Some(id.0),
        None => None,
    }
}

/// The content of an optional dialog.
pub open spec fn dialog_view(dialog: Option<Dialog>) -> Option<DialogView> {
    match dialog {
        Some(dialog) => Some(dialog@),
        None => None,
    }
}

impl View for App {
    type V = AppView;

    open spec fn view(&self) -> AppView {
        AppView {
            session: self.session@,
            tabs: tab_views(self.tabs@),
            active: self.active,
            next_tab_number: self.next_tab_number,
            viewport_height: self.viewport_height,
            viewport_width: self.viewport_width,
            quit: self.quit,
            dialog: dialog_view(self.dialog),
            last_search: last_view(self.last_search),
            time_step_idx: self.time_step_idx,
            bookmark_cursor: id_view(self.bookmark_cursor),
            notice: text_view(self.notice),
            stored: self.stored,
            policy: self.policy@,
            show_fetch_stats: self.show_fetch_stats,
            outbox: command_views(self.outbox@),
        }
    }
}

} // verus!
