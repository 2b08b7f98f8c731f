//! Rectangles of the screen and how they are divided.

use vstd::prelude::*;

verus! {

/// A rectangle of cells.
#[derive(Debug, Clone, Copy, PartialEq, Eq, Structural)]
pub struct Area {
    pub x: u16,
    pub y: u16,
    pub width: u16,
    pub height: u16,
}

/// What is left of `a` without `b`.
pub open spec fn less(a: u16, b: int) -> u16 {
    if a >= b {
        (a - b) as u16
    } else {
        0
    }
}

impl Area {
    /// Whether the area's edges can be counted.
    pub open spec fn on_screen(self) -> bool {
        self.x + self.width <= u16::MAX && self.y + self.height <= u16::MAX
    }

    /// The inside of a border around the area.
    pub open spec fn bordered(self) -> Area {
        Area {
            x: if self.width > 0 {
                (self.x + 1) as u16
            } else {
                self.x
            },
            y: if self.height > 0 {
                (self.y + 1) as u16
            } else {
                self.y
            },
            width: less(self.width, 2),
            height: less(self.height, 2),
        }
    }

    /// The inside of a border around the area.
    pub fn inner(self) -> (inner: Area)
        requires
            self.on_screen(),
        ensures
            inner == self.bordered(),
            inner.on_screen(),
    {
        Area {
            x: if self.width > 0 {
                self.x + 1
            } else {
                self.x
            },
            y: if self.height > 0 {
                self.y + 1
            } else {
                self.y
            },
            width: self.width.saturating_sub(2),
            height: self.height.saturating_sub(2),
        }
    }

    /// An area of the given size in the middle of this one.
    pub open spec fn centred(self, width: u16, height: u16) -> Area {
        let x = (self.x + less(self.width, width as int) / 2) as u16;
        let y = (self.y + less(self.height, height as int) / 2) as u16;
        Area {
            x,
            y,
            width: if width <= u16::MAX - x {
                width
            } else {
                (u16::MAX - x) as u16
            },
            height: if height <= u16::MAX - y {
                height
            } else {
                (u16::MAX - y) as u16
            },
        }
    }

    fn centre(self, width: u16, height: u16) -> (area: Area)
        requires
            self.on_screen(),
        ensures
            area == self.centred(width, height),
            area.on_screen(),
    {
        let x: u16 = self.x + self.width.saturating_sub(width) / 2;
        let y: u16 = self.y + self.height.saturating_sub(height) / 2;
        Area {
            x,
            y,
            width: if width <= u16::MAX - x {
                width
            } else {
                u16::MAX - x
            },
            height: if height <= u16::MAX - y {
                height
            } else {
                u16::MAX - y
            },
        }
    }
}

/// The lesser of the two.
pub open spec fn at_most_of(a: u16, b: u16) -> u16 {
    if a <= b {
        a
    } else {
        b
    }
}

/// The share of a width, in percent.
pub open spec fn percent_of(width: u16, percent: u16) -> u16 {
    let product = if width * percent <= u16::MAX {
        width * percent
    } else {
        u16::MAX as int
    };
    (product / 100) as u16
}

/// The share of a width, in percent.
pub fn percent_width(width: u16, percent: u16) -> (share: u16)
    ensures
        share == percent_of(width, percent),
{
    assert(0 <= width * percent <= 0xffff * 0xffff) by (nonlinear_arith)
        requires
            width <= 0xffff,
            percent <= 0xffff,
    ;
    let product: u32 = width as u32 * percent as u32;
    if product <= 0xffff {
        (product / 100) as u16
    } else {
        u16::MAX / 100
    }
}

/// A popup of the given size in the middle of the area, no larger than it.
pub fn popup_area_with_width(area: Area, width: u16, height: u16) -> (popup: Area)
    requires
        area.on_screen(),
    ensures
        popup == area.centred(at_most_of(width, area.width), at_most_of(height, area.height)),
        popup.on_screen(),
{
    let width: u16 = if width <= area.width {
        width
    } else {
        area.width
    };
    let height: u16 = if height <= area.height {
        height
    } else {
        area.height
    };
    area.centre(width, height)
}

/// A popup in the middle of the area that takes the given share of its
/// width, no taller than it.
pub fn popup_area(area: Area, percent: u16, height: u16) -> (popup: Area)
    requires
        area.on_screen(),
    ensures
        popup == area.centred(
            percent_of(area.width, percent),
            at_most_of(height, area.height),
        ),
        popup.on_screen(),
{
    let height: u16 = if height <= area.height {
        height
    } else {
        area.height
    };
    area.centre(percent_width(area.width, percent), height)
}

/// A popup no larger than the area lies within it, with margins that differ
/// by one cell at most.
pub proof fn law_popups_are_centred(area: Area, width: u16, height: u16)
    requires
        area.on_screen(),
        width <= area.width,
        height <= area.height,
    ensures
        ({
            let popup = area.centred(width, height);
            &&& popup.width == width && popup.height == height
            &&& area.x <= popup.x && popup.x + popup.width <= area.x + area.width
            &&& area.y <= popup.y && popup.y + popup.height <= area.y + area.height
            &&& 0 <= (area.x + area.width - popup.x - popup.width) - (popup.x - area.x) <= 1
            &&& 0 <= (area.y + area.height - popup.y - popup.height) - (popup.y - area.y) <= 1
        }),
{
}

/// How tall a row of a layout is.
#[derive(Debug, Clone, Copy, PartialEq, Eq, Structural)]
pub enum RowSize {
    /// as tall as this
    Length(u16),
    /// at least this tall
    Min(u16),
}

/// How tall a row of a fixed height is, where no more than `height` is there.
pub open spec fn fixed_height(size: RowSize, height: u16) -> int {
    match size {
        RowSize::Length(n) => if n <= height {
            n as int
        } else {
            height as int
        },
        RowSize::Min(_) => 0,
    }
}

/// How much the first `end` rows of a fixed height take.
pub open spec fn fixed_heights(sizes: Seq<RowSize>, height: u16, end: int) -> int
    decreases end,
{
    if end <= 0 {
        0
    } else {
        fixed_heights(sizes, height, end - 1) + fixed_height(sizes[end - 1], height)
    }
}

/// How much the first `end` rows ask for.
pub open spec fn asked_heights(sizes: Seq<RowSize>, end: int) -> int
    decreases end,
{
    if end <= 0 {
        0
    } else {
        asked_heights(sizes, end - 1) + match sizes[end - 1] {
            RowSize::Length(n) => n as int,
            RowSize::Min(n) => n as int,
        }
    }
}

/// Whether the row is the only one that grows.
pub open spec fn grows_alone(sizes: Seq<RowSize>, row: int) -> bool {
    &&& 0 <= row < sizes.len()
    &&& sizes[row] is Min
    &&& forall|i: int| 0 <= i < sizes.len() && i != row ==> (#[trigger] sizes[i]) is Length
}

/// Whether the rows do not compete for the height: one of them grows, and
/// either all fit or there is but one other, before a row that may vanish.
pub open spec fn settled(sizes: Seq<RowSize>, height: u16) -> bool {
    &&& exists|row: int| grows_alone(sizes, row)
    &&& asked_heights(sizes, sizes.len() as int) <= height || (sizes.len() == 2
        && sizes[1] == RowSize::Min(0))
}

/// How tall a row comes out: the one that grows takes what the others leave.
pub open spec fn row_height(sizes: Seq<RowSize>, height: u16, row: int) -> int {
    if sizes[row] is Min {
        height - fixed_heights(sizes, height, sizes.len() as int)
    } else {
        fixed_height(sizes[row], height)
    }
}

/// How far down a row begins.
pub open spec fn row_top(sizes: Seq<RowSize>, height: u16, row: int) -> int
    decreases row,
{
    if row <= 0 {
        0
    } else {
        row_top(sizes, height, row - 1) + row_height(sizes, height, row - 1)
    }
}

/// The rows, one below the other.
pub open spec fn stacked(area: Area, sizes: Seq<RowSize>) -> Seq<Area> {
    Seq::new(
        sizes.len(),
        |i: int|
            Area {
                x: area.x,
                y: (area.y + row_top(sizes, area.height, i)) as u16,
                width: area.width,
                height: row_height(sizes, area.height, i) as u16,
            },
    )
}

/// Whether the part lies within the area, as wide as it.
pub open spec fn crosses(area: Area, part: Area) -> bool {
    &&& part.x == area.x && part.width == area.width
    &&& area.y <= part.y && part.y + part.height <= area.y + area.height
}

/// Whether the parts lie where rows of these sizes belong: across the area,
/// and one below the other where they do not compete for its height.
pub open spec fn laid_out(area: Area, sizes: Seq<RowSize>, parts: Seq<Area>) -> bool {
    &&& parts.len() == sizes.len()
    &&& area.on_screen() ==> forall|i: int|
        0 <= i < parts.len() ==> crosses(area, #[trigger] parts[i])
    &&& area.on_screen() && settled(sizes, area.height) ==> parts == stacked(area, sizes)
}

/// Divides an area into rows with `ratatui::layout::Layout::split`: one area
/// for each row, across the whole.  Where a single row grows and the others
/// fit beside it, each of those has its height and that row the rest.  How
/// the solver settles heights that compete is left open: it walks tables
/// whose order differs from run to run.
#[verifier::external_body]
fn split_rows(area: Area, sizes: &Vec<RowSize>) -> (areas: Vec<Area>)
    ensures
        laid_out(area, sizes@, areas@),
{
    let rows = sizes.iter().map(|size| match size {
        RowSize::Length(n) => ratatui::layout::Constraint::Length(*n),
        RowSize::Min(n) => ratatui::layout::Constraint::Min(*n),
    });
    let whole = ratatui::layout::Rect::new(area.x, area.y, area.width, area.height);
    let parts = ratatui::layout::Layout::vertical(rows).split(whole);
    parts.iter().map(|r| Area { x: r.x, y: r.y, width: r.width, height: r.height }).collect()
}

/// Whether the layout may divide the area into these parts, when asked for
/// rows of these sizes.
pub closed spec fn may_come_out(area: Area, sizes: Seq<RowSize>, parts: Seq<Area>) -> bool {
    exists|asked: Vec<RowSize>, given: Vec<Area>|
        {
            &&& asked@ == sizes
            &&& given@ == parts
            &&& #[trigger] call_ensures(split_rows, (area, &asked), given)
        }
}

/// Whether the parts are what the layout makes of rows of these sizes.
pub open spec fn divides(area: Area, sizes: Seq<RowSize>, parts: Seq<Area>) -> bool {
    may_come_out(area, sizes, parts) && laid_out(area, sizes, parts)
}

/// Divides an area into rows of the given sizes.
pub fn rows_of(area: Area, sizes: &Vec<RowSize>) -> (parts: Vec<Area>)
    ensures
        divides(area, sizes@, parts@),
{
    let parts = split_rows(area, sizes);
    assert(call_ensures(split_rows, (area, sizes), parts));
    parts
}

/// The rows up to one are as tall as the fixed ones among them, and the one
/// that grows where it is among them.
proof fn lemma_row_top(sizes: Seq<RowSize>, height: u16, row: int, end: int)
    requires
        grows_alone(sizes, row),
        0 <= end <= sizes.len(),
    ensures
        row_top(sizes, height, end) == fixed_heights(sizes, height, end) + if row < end {
            height - fixed_heights(sizes, height, sizes.len() as int)
        } else {
            0
        },
    decreases end,
{
    if end > 0 {
        lemma_row_top(sizes, height, row, end - 1);
    }
}

/// Fixed rows take no more than they ask for.
proof fn lemma_fixed_heights(sizes: Seq<RowSize>, height: u16, end: int)
    requires
        0 <= end <= sizes.len(),
    ensures
        0 <= fixed_heights(sizes, height, end) <= asked_heights(sizes, end),
    decreases end,
{
    if end > 0 {
        lemma_fixed_heights(sizes, height, end - 1);
    }
}

/// Rows that do not compete fill the area: the first begins at its top, each
/// of the others where the one above it ends, and the last ends at its bottom.
pub proof fn law_rows_fill_the_area(area: Area, sizes: Seq<RowSize>)
    requires
        area.on_screen(),
        settled(sizes, area.height),
    ensures
        ({
            let rows = stacked(area, sizes);
            &&& rows.len() == sizes.len() && rows.len() > 0
            &&& rows.first().y == area.y
            &&& forall|i: int|
                0 < i < rows.len() ==> (#[trigger] rows[i]).y == rows[i - 1].y + rows[i - 1].height
            &&& rows.last().y + rows.last().height == area.y + area.height
        }),
{
    let row = choose|row: int| grows_alone(sizes, row);
    let (n, height) = (sizes.len() as int, area.height);
    let rows = stacked(area, sizes);
    lemma_fixed_heights(sizes, height, n);
    if n == 2 && sizes[1] == RowSize::Min(0) {
        reveal_with_fuel(fixed_heights, 3);
    }
    assert(0 <= fixed_heights(sizes, height, n) <= height);
    assert forall|i: int| 0 <= i < n implies {
        &&& 0 <= row_top(sizes, height, i)
        &&& 0 <= row_height(sizes, height, i)
        &&& row_top(sizes, height, i) + row_height(sizes, height, i) <= height
        &&& row_top(sizes, height, i + 1) == row_top(sizes, height, i) + row_height(
            sizes,
            height,
            i,
        )
    } by {
        lemma_row_top(sizes, height, row, i);
        lemma_row_top(sizes, height, row, i + 1);
        lemma_fixed_rest(sizes, height, i, n);
        lemma_fixed_rest(sizes, height, i + 1, n);
    }
    lemma_row_top(sizes, height, row, n);
    assert forall|i: int| 0 < i < n implies (#[trigger] rows[i]).y == rows[i - 1].y
        + rows[i - 1].height by {
        assert(row_top(sizes, height, i - 1 + 1) == row_top(sizes, height, i - 1) + row_height(
            sizes,
            height,
            i - 1,
        ));
    }
    assert(row_top(sizes, height, n - 1 + 1) == row_top(sizes, height, n - 1) + row_height(
        sizes,
        height,
        n - 1,
    ));
}

/// Further rows take no less.
proof fn lemma_fixed_rest(sizes: Seq<RowSize>, height: u16, some: int, end: int)
    requires
        0 <= some <= end <= sizes.len(),
    ensures
        0 <= fixed_heights(sizes, height, some) <= fixed_heights(sizes, height, end),
    decreases end,
{
    if some < end {
        lemma_fixed_rest(sizes, height, some, end - 1);
    } else if end > 0 {
        lemma_fixed_rest(sizes, height, some - 1, end - 1);
    }
}

/// Inside a border there is one cell less on every side; a part given in
/// percent is that part, rounded down.
pub proof fn law_borders_take_a_cell_on_every_side(area: Area, width: u16, percent: u16)
    requires
        area.width >= 2,
        area.height >= 2,
        area.on_screen(),
    ensures
        area.bordered().x == area.x + 1 && area.bordered().y == area.y + 1,
        area.bordered().x + area.bordered().width + 1 == area.x + area.width,
        area.bordered().y + area.bordered().height + 1 == area.y + area.height,
        width * percent <= u16::MAX ==> percent_of(width, percent) * 100 <= width * percent
            < percent_of(width, percent) * 100 + 100,
{
}

} // verus!
