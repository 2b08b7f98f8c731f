//! Choosing which columns a rendered line shows.

use crate::key::{KeyCode, KeyEvent};
use crate::session::{HostnameDisplay, RenderOpts};
use vstd::prelude::*;

verus! {

/// One row of the display-fields dialog.  Rows are members of a radio group
/// (timestamp format, hostname mode) or checkboxes of their own.
#[derive(Debug, Clone, Copy, PartialEq, Eq, Structural)]
pub enum DisplayFieldItem {
    TimestampShort,
    TimestampLong,
    HostnameShort,
    HostnameFull,
    HostnameNone,
    Pid,
    Name,
    Extras,
}

/// The number of rows.
pub const DISPLAY_FIELD_COUNT: usize = 8;

/// The row at an index, in the order in which the cursor walks them.
pub open spec fn item_at(i: int) -> DisplayFieldItem {
    if i == 0 {
        DisplayFieldItem::TimestampShort
    } else if i == 1 {
        DisplayFieldItem::TimestampLong
    } else if i == 2 {
        DisplayFieldItem::HostnameShort
    } else if i == 3 {
        DisplayFieldItem::HostnameFull
    } else if i == 4 {
        DisplayFieldItem::HostnameNone
    } else if i == 5 {
        DisplayFieldItem::Pid
    } else if i == 6 {
        DisplayFieldItem::Name
    } else {
        DisplayFieldItem::Extras
    }
}

/// The row at an index.
pub fn display_field_item(i: usize) -> (item: DisplayFieldItem)
    requires
        i < DISPLAY_FIELD_COUNT,
    ensures
        item == item_at(i as int),
{
    if i == 0 {
        DisplayFieldItem::TimestampShort
    } else if i == 1 {
        DisplayFieldItem::TimestampLong
    } else if i == 2 {
        DisplayFieldItem::HostnameShort
    } else if i == 3 {
        DisplayFieldItem::HostnameFull
    } else if i == 4 {
        DisplayFieldItem::HostnameNone
    } else if i == 5 {
        DisplayFieldItem::Pid
    } else if i == 6 {
        DisplayFieldItem::Name
    } else {
        DisplayFieldItem::Extras
    }
}

impl DisplayFieldItem {
    /// The text next to the row's mark.
    pub open spec fn text(self) -> Seq<char> {
        match self {
            DisplayFieldItem::TimestampShort => "short timestamp (no date)"@,
            DisplayFieldItem::TimestampLong => "full date and time"@,
            DisplayFieldItem::HostnameShort => "short hostname"@,
            DisplayFieldItem::HostnameFull => "full hostname"@,
            DisplayFieldItem::HostnameNone => "no hostname"@,
            DisplayFieldItem::Pid => "pid"@,
            DisplayFieldItem::Name => "name"@,
            DisplayFieldItem::Extras => "show all other fields"@,
        }
    }

    /// Whether the row belongs to a radio group.
    pub open spec fn radio(self) -> bool {
        self is TimestampShort || self is TimestampLong || self is HostnameShort
            || self is HostnameFull || self is HostnameNone
    }

    /// Whether the row is the last of its group.
    pub open spec fn last_of_group(self) -> bool {
        self is TimestampLong || self is HostnameNone
    }

    /// Whether the row is marked under the options.
    pub open spec fn active(self, opts: RenderOpts) -> bool {
        match self {
            DisplayFieldItem::TimestampShort => !opts.show_date,
            DisplayFieldItem::TimestampLong => opts.show_date,
            DisplayFieldItem::HostnameShort => opts.hostname == HostnameDisplay::Short,
            DisplayFieldItem::HostnameFull => opts.hostname == HostnameDisplay::Full,
            DisplayFieldItem::HostnameNone => opts.hostname == HostnameDisplay::Hidden,
            DisplayFieldItem::Pid => opts.show_pid,
            DisplayFieldItem::Name => opts.show_name,
            DisplayFieldItem::Extras => opts.show_extras,
        }
    }

    /// The options once the row has been picked: a radio member becomes its
    /// group's choice, a checkbox flips.
    pub open spec fn applied(self, opts: RenderOpts) -> RenderOpts {
        match self {
            DisplayFieldItem::TimestampShort => RenderOpts { show_date: false, ..opts },
            DisplayFieldItem::TimestampLong => RenderOpts { show_date: true, ..opts },
            DisplayFieldItem::HostnameShort => RenderOpts {
                hostname: HostnameDisplay::Short,
                ..opts
            },
            DisplayFieldItem::HostnameFull => RenderOpts {
                hostname: HostnameDisplay::Full,
                ..opts
            },
            DisplayFieldItem::HostnameNone => RenderOpts {
                hostname: HostnameDisplay::Hidden,
                ..opts
            },
            DisplayFieldItem::Pid => RenderOpts { show_pid: !opts.show_pid, ..opts },
            DisplayFieldItem::Name => RenderOpts { show_name: !opts.show_name, ..opts },
            DisplayFieldItem::Extras => RenderOpts { show_extras: !opts.show_extras, ..opts },
        }
    }

    /// Display label rendered next to the mark.
    pub fn label(self) -> (label: &'static str)
        ensures
            label@ == self.text(),
    {
        match self {
            DisplayFieldItem::TimestampShort => "short timestamp (no date)",
            DisplayFieldItem::TimestampLong => "full date and time",
            DisplayFieldItem::HostnameShort => "short hostname",
            DisplayFieldItem::HostnameFull => "full hostname",
            DisplayFieldItem::HostnameNone => "no hostname",
            DisplayFieldItem::Pid => "pid",
            DisplayFieldItem::Name => "name",
            DisplayFieldItem::Extras => "show all other fields",
        }
    }

    /// Whether a blank row follows, so that the groups read apart.
    pub fn ends_group(self) -> (yes: bool)
        ensures
            yes == self.last_of_group(),
    {
        match self {
            DisplayFieldItem::TimestampLong | DisplayFieldItem::HostnameNone => true,
            _ => false,
        }
    }

    /// Whether the row is a radio member rather than a checkbox.
    pub fn is_radio(self) -> (yes: bool)
        ensures
            yes == self.radio(),
    {
        match self {
            DisplayFieldItem::Pid | DisplayFieldItem::Name | DisplayFieldItem::Extras => false,
            _ => true,
        }
    }

    /// Whether the row is marked under `opts`.
    pub fn is_active(self, opts: &RenderOpts) -> (yes: bool)
        ensures
            yes == self.active(*opts),
    {
        match self {
            DisplayFieldItem::TimestampShort => !opts.show_date,
            DisplayFieldItem::TimestampLong => opts.show_date,
            DisplayFieldItem::HostnameShort => opts.hostname == HostnameDisplay::Short,
            DisplayFieldItem::HostnameFull => opts.hostname == HostnameDisplay::Full,
            DisplayFieldItem::HostnameNone => opts.hostname == HostnameDisplay::Hidden,
            DisplayFieldItem::Pid => opts.show_pid,
            DisplayFieldItem::Name => opts.show_name,
            DisplayFieldItem::Extras => opts.show_extras,
        }
    }

    /// Picks the row.
    pub fn apply(self, opts: &mut RenderOpts)
        ensures
            *final(opts) == self.applied(*old(opts)),
    {
        match self {
            DisplayFieldItem::TimestampShort => {
                opts.show_date = false;
            },
            DisplayFieldItem::TimestampLong => {
                opts.show_date = true;
            },
            DisplayFieldItem::HostnameShort => {
                opts.hostname = HostnameDisplay::Short;
            },
            DisplayFieldItem::HostnameFull => {
                opts.hostname = HostnameDisplay::Full;
            },
            DisplayFieldItem::HostnameNone => {
                opts.hostname = HostnameDisplay::Hidden;
            },
            DisplayFieldItem::Pid => {
                opts.show_pid = !opts.show_pid;
            },
            DisplayFieldItem::Name => {
                opts.show_name = !opts.show_name;
            },
            DisplayFieldItem::Extras => {
                opts.show_extras = !opts.show_extras;
            },
        }
    }
}

/// Picking a radio member marks it and unmarks the others of its group;
/// picking a checkbox flips it; nothing else changes, and the raw view least
/// of all.
pub proof fn law_picking_marks_one_of_a_group(item: DisplayFieldItem, opts: RenderOpts)
    ensures
        item.radio() ==> item.active(item.applied(opts)),
        !item.radio() ==> item.active(item.applied(opts)) == !item.active(opts),
        item.radio() ==> item.applied(item.applied(opts)) == item.applied(opts),
        !item.radio() ==> item.applied(item.applied(opts)) == opts,
        item.applied(opts).show_raw == opts.show_raw,
        item is HostnameShort ==> !DisplayFieldItem::HostnameFull.active(item.applied(opts))
            && !DisplayFieldItem::HostnameNone.active(item.applied(opts)),
        DisplayFieldItem::TimestampShort.active(opts) == !DisplayFieldItem::TimestampLong.active(
            opts,
        ),
{
}

/// The draft and the cursor after a key: the cursor moves and wraps round,
/// the space bar picks the row under it, and any other key is dropped.
pub open spec fn display_key(draft: RenderOpts, cursor: usize, key: KeyEvent) -> (
    RenderOpts,
    usize,
) {
    let n = DISPLAY_FIELD_COUNT as int;
    if key.bare(KeyCode::Char('j')) || key.bare(KeyCode::Down) || key.bare(KeyCode::Tab) {
        (draft, ((cursor + 1) % n) as usize)
    } else if key.bare(KeyCode::Char('k')) || key.bare(KeyCode::Up) || key.plain(
        KeyCode::BackTab,
    ) {
        (draft, ((cursor + n - 1) % n) as usize)
    } else if key.bare(KeyCode::Char(' ')) {
        (item_at(cursor as int).applied(draft), cursor)
    } else {
        (draft, cursor)
    }
}

/// Routes a key inside the display-fields dialog.
pub fn handle_display_fields_key(draft: &mut RenderOpts, cursor: &mut usize, key: KeyEvent)
    requires
        *old(cursor) < DISPLAY_FIELD_COUNT,
    ensures
        *final(cursor) < DISPLAY_FIELD_COUNT,
        (*final(draft), *final(cursor)) == display_key(*old(draft), *old(cursor), key),
{
    let n: usize = DISPLAY_FIELD_COUNT;
    if key.is_bare(KeyCode::Char('j')) || key.is_bare(KeyCode::Down) || key.is_bare(KeyCode::Tab) {
        *cursor = (*cursor + 1) % n;
    } else if key.is_bare(KeyCode::Char('k')) || key.is_bare(KeyCode::Up) || key.is_plain(
        KeyCode::BackTab,
    ) {
        *cursor = (*cursor + n - 1) % n;
    } else if key.is_bare(KeyCode::Char(' ')) {
        display_field_item(*cursor).apply(draft);
    }
}

/// The cursor of the dialog goes round: a step down undoes a step up, and as
/// many steps as there are rows come back to the start.
pub proof fn law_display_cursor_wraps(cursor: usize)
    requires
        cursor < DISPLAY_FIELD_COUNT,
    ensures
        ((cursor + DISPLAY_FIELD_COUNT - 1) % DISPLAY_FIELD_COUNT as int + 1)
            % DISPLAY_FIELD_COUNT as int == cursor,
        ((cursor + 1) % DISPLAY_FIELD_COUNT as int + DISPLAY_FIELD_COUNT - 1)
            % DISPLAY_FIELD_COUNT as int == cursor,
{
}

/// Picking a row of the dialog sets the option that the row names, and no
/// other.
pub proof fn law_rows_set_what_they_name(opts: RenderOpts)
    ensures
        DisplayFieldItem::TimestampShort.applied(opts) == (RenderOpts { show_date: false, ..opts }),
        DisplayFieldItem::TimestampLong.applied(opts) == (RenderOpts { show_date: true, ..opts }),
        DisplayFieldItem::HostnameShort.applied(opts) == (RenderOpts {
            hostname: HostnameDisplay::Short,
            ..opts
        }),
        DisplayFieldItem::HostnameFull.applied(opts) == (RenderOpts {
            hostname: HostnameDisplay::Full,
            ..opts
        }),
        DisplayFieldItem::HostnameNone.applied(opts) == (RenderOpts {
            hostname: HostnameDisplay::Hidden,
            ..opts
        }),
        DisplayFieldItem::Pid.applied(opts) == (RenderOpts { show_pid: !opts.show_pid, ..opts }),
        DisplayFieldItem::Name.applied(opts) == (RenderOpts { show_name: !opts.show_name, ..opts }),
        DisplayFieldItem::Extras.applied(opts) == (RenderOpts {
            show_extras: !opts.show_extras,
            ..opts
        }),
        DisplayFieldItem::TimestampShort.active(opts) <==> !opts.show_date,
        DisplayFieldItem::TimestampLong.active(opts) <==> opts.show_date,
        DisplayFieldItem::HostnameShort.active(opts) <==> opts.hostname == HostnameDisplay::Short,
        DisplayFieldItem::HostnameFull.active(opts) <==> opts.hostname == HostnameDisplay::Full,
        DisplayFieldItem::HostnameNone.active(opts) <==> opts.hostname == HostnameDisplay::Hidden,
        DisplayFieldItem::Pid.active(opts) <==> opts.show_pid,
        DisplayFieldItem::Name.active(opts) <==> opts.show_name,
        DisplayFieldItem::Extras.active(opts) <==> opts.show_extras,
{
}

/// The keys of the dialog: down a row and up a row, round at the ends, and
/// space picks the row under the cursor.
pub proof fn law_display_keys_do_what_they_stand_for(
    draft: RenderOpts,
    cursor: usize,
    key: KeyEvent,
)
    requires
        cursor < 8,
    ensures
        key.bare(KeyCode::Char('j')) || key.bare(KeyCode::Down) || key.bare(KeyCode::Tab)
            ==> display_key(draft, cursor, key) == (
            draft,
            (if cursor == 7 {
                0
            } else {
                cursor + 1
            }) as usize,
        ),
        key.bare(KeyCode::Char('k')) || key.bare(KeyCode::Up) || key.plain(KeyCode::BackTab)
            ==> display_key(draft, cursor, key) == (
            draft,
            (if cursor == 0 {
                7
            } else {
                cursor - 1
            }) as usize,
        ),
        key.bare(KeyCode::Char(' ')) ==> display_key(draft, cursor, key) == (
            (if cursor == 0 {
                RenderOpts { show_date: false, ..draft }
            } else if cursor == 1 {
                RenderOpts { show_date: true, ..draft }
            } else if cursor == 2 {
                RenderOpts { hostname: HostnameDisplay::Short, ..draft }
            } else if cursor == 3 {
                RenderOpts { hostname: HostnameDisplay::Full, ..draft }
            } else if cursor == 4 {
                RenderOpts { hostname: HostnameDisplay::Hidden, ..draft }
            } else if cursor == 5 {
                RenderOpts { show_pid: !draft.show_pid, ..draft }
            } else if cursor == 6 {
                RenderOpts { show_name: !draft.show_name, ..draft }
            } else {
                RenderOpts { show_extras: !draft.show_extras, ..draft }
            }),
            cursor,
        ),
{
}

} // verus!
