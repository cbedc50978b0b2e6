//! Screen geometry and the scroll and selection state of the panes, as
//! plain values the reducer reasons about. The runtime copies them to and
//! from its widget library around each render.
use vstd::prelude::*;

verus! {

/// The smaller of two cell counts.
pub open spec fn min16(a: u16, b: u16) -> u16 {
    if a < b {
        a
    } else {
        b
    }
}

/// The rectangle that [`Rect::new`] makes of these values: its width and
/// height cut so that it ends within the coordinate range.
pub open spec fn spec_rect(x: u16, y: u16, width: u16, height: u16) -> Rect {
    Rect {
        x,
        y,
        width: if width > u16::MAX - x { (u16::MAX - x) as u16 } else { width },
        height: if height > u16::MAX - y { (u16::MAX - y) as u16 } else { height },
    }
}

/// A rectangle of the given size centered in `area` (rounding toward the
/// top left corner), or `None` when the size is empty.
pub open spec fn spec_centered(area: Rect, width: u16, height: u16) -> Option<Rect> {
    if width == 0 || height == 0 {
        None
    } else {
        Some(
            spec_rect(
                (area.x + sat_sub(area.width, width) / 2) as u16,
                (area.y + sat_sub(area.height, height) / 2) as u16,
                width,
                height,
            ),
        )
    }
}

/// The number of rows of the progress modal's content: one per stage, at
/// least one, as a cell count.
pub open spec fn progress_rows(stage_count: usize) -> u16 {
    (if stage_count == 0 { 1 } else { stage_count }) as u16
}

/// The progress modal in `area` for `stage_count` stages: 4 columns
/// narrower than the area and at most 64 wide; 4 rows taller than its
/// content and at least 2 rows shorter than the area; centered.
pub open spec fn spec_progress_modal(area: Rect, stage_count: usize) -> Option<Rect> {
    spec_centered(
        area,
        sat_sub(min16(area.width, 68), 4),
        min16(sat_sub(area.height, 2), (progress_rows(stage_count) + 4) as u16),
    )
}

/// A cell position.
#[derive(Debug, Clone, Copy, PartialEq, Eq, Structural)]
pub struct Position {
    pub x: u16,
    pub y: u16,
}

/// A width and a height in cells.
#[derive(Debug, Clone, Copy, PartialEq, Eq, Structural)]
pub struct Size {
    pub width: u16,
    pub height: u16,
}

/// A rectangle of terminal cells.
#[derive(Debug, Clone, Copy, PartialEq, Eq, Structural)]
pub struct Rect {
    pub x: u16,
    pub y: u16,
    pub width: u16,
    pub height: u16,
}

/// `x + d`, or `u16::MAX` when that does not fit.
pub open spec fn sat_add(x: u16, d: u16) -> u16 {
    if x + d > u16::MAX {
        u16::MAX
    } else {
        (x + d) as u16
    }
}

/// `x - d`, or 0 when that is negative.
pub open spec fn sat_sub(x: u16, d: u16) -> u16 {
    if x < d {
        0
    } else {
        (x - d) as u16
    }
}

impl Rect {
    /// The rectangle at `(x, y)`, its width and height cut so that it ends
    /// within the coordinate range.
    pub fn new(x: u16, y: u16, width: u16, height: u16) -> (r: Rect)
        ensures
            r.x == x,
            r.y == y,
            r.width == (if width > u16::MAX - x { (u16::MAX - x) as u16 } else { width }),
            r.height == (if height > u16::MAX - y { (u16::MAX - y) as u16 } else { height }),
    {
        let max_width = u16::MAX - x;
        let max_height = u16::MAX - y;
        let width = if width > max_width { max_width } else { width };
        let height = if height > max_height { max_height } else { height };
        Rect { x, y, width, height }
    }

    /// Whether the cell `(column, row)` lies inside the rectangle (its right
    /// and bottom edges saturate at the end of the coordinate range).
    pub open spec fn spec_contains(self, column: u16, row: u16) -> bool {
        &&& self.x <= column < sat_add(self.x, self.width)
        &&& self.y <= row < sat_add(self.y, self.height)
    }

    /// Whether the cell `(column, row)` lies inside the rectangle.
    pub fn contains(&self, column: u16, row: u16) -> (b: bool)
        ensures
            b == self.spec_contains(column, row),
    {
        column >= self.x && column < self.x.saturating_add(self.width) && row >= self.y && row
            < self.y.saturating_add(self.height)
    }
}

/// A rectangle of the given size centered in `area`, or `None` when the
/// size is empty.
pub fn centered_popup(area: Rect, width: u16, height: u16) -> (r: Option<Rect>)
    requires
        area.x + area.width <= u16::MAX,
        area.y + area.height <= u16::MAX,
    ensures
        r == spec_centered(area, width, height),
{
    if width == 0 || height == 0 {
        return None;
    }
    let x = area.x + area.width.saturating_sub(width) / 2;
    let y = area.y + area.height.saturating_sub(height) / 2;
    Some(Rect::new(x, y, width, height))
}

/// Where the progress modal for `stage_count` stages goes in `area`
/// (`None` when it has no room).
pub fn progress_modal_rect(area: Rect, stage_count: usize) -> (r: Option<Rect>)
    requires
        area.x + area.width <= u16::MAX,
        area.y + area.height <= u16::MAX,
        progress_rows(stage_count) + 4 <= u16::MAX,
    ensures
        r == spec_progress_modal(area, stage_count),
{
    let rows = if stage_count == 0 { 1usize } else { stage_count };
    let rows = rows as u16;
    let width = if area.width < 68 { area.width } else { 68 };
    let width = width.saturating_sub(4);
    let tall = rows + 4;
    let height = area.height.saturating_sub(2);
    let height = if height < tall { height } else { tall };
    centered_popup(area, width, height)
}

/// The content of a framed box: one cell in from each side of its inner
/// area.
pub fn padded(inner: Rect) -> (r: Rect)
    requires
        inner.x < u16::MAX,
        inner.y < u16::MAX,
    ensures
        r == spec_rect((inner.x + 1) as u16, (inner.y + 1) as u16, sat_sub(inner.width, 2), sat_sub(inner.height, 2)),
{
    Rect::new(inner.x + 1, inner.y + 1, inner.width.saturating_sub(2), inner.height.saturating_sub(2))
}

/// The selection and scroll offset of a list.
#[derive(Debug, Clone, Copy, PartialEq, Eq, Structural)]
pub struct ListSelection {
    /// Index of the first item shown.
    pub offset: usize,
    /// Index of the selected item.
    pub selected: Option<usize>,
}

impl ListSelection {
    /// Nothing selected, scrolled to the top.
    pub fn new() -> (l: ListSelection)
        ensures
            l.offset == 0,
            l.selected is None,
    {
        ListSelection { offset: 0, selected: None }
    }

    /// The selection after `select(index)`: deselecting also scrolls to the top.
    pub open spec fn selected_as(self, index: Option<usize>) -> ListSelection {
        ListSelection { offset: if index is None { 0 } else { self.offset }, selected: index }
    }

    /// The index of the selected item.
    pub fn selected(&self) -> (s: Option<usize>)
        ensures
            s == self.selected,
    {
        self.selected
    }

    /// The index of the first item shown.
    pub fn offset(&self) -> (o: usize)
        ensures
            o == self.offset,
    {
        self.offset
    }

    /// Selects `index`; deselecting also scrolls to the top.
    pub fn select(&mut self, index: Option<usize>)
        ensures
            *final(self) == old(self).selected_as(index),
    {
        self.selected = index;
        if index.is_none() {
            self.offset = 0;
        }
    }

    /// The selection after `select_next`: the following item, or the first
    /// when nothing is selected.
    pub open spec fn after_next(self) -> ListSelection {
        self.selected_as(
            Some(
                match self.selected {
                    Some(i) => if i == usize::MAX { i } else { (i + 1) as usize },
                    None => 0,
                },
            ),
        )
    }

    /// The selection after `select_previous`: the preceding item, or the
    /// last possible index when nothing is selected.
    pub open spec fn after_previous(self) -> ListSelection {
        self.selected_as(
            Some(
                match self.selected {
                    Some(i) => if i == 0 { 0 } else { (i - 1) as usize },
                    None => usize::MAX,
                },
            ),
        )
    }

    /// Selects the next item (the first when nothing is selected).
    pub fn select_next(&mut self)
        ensures
            *final(self) == old(self).after_next(),
    {
        let next = match self.selected {
            Some(i) => i.saturating_add(1),
            None => 0,
        };
        self.select(Some(next));
    }

    /// Selects the previous item (the last possible index when nothing is selected).
    pub fn select_previous(&mut self)
        ensures
            *final(self) == old(self).after_previous(),
    {
        let previous = match self.selected {
            Some(i) => i.saturating_sub(1),
            None => usize::MAX,
        };
        self.select(Some(previous));
    }
}

/// The scroll state of a scrollable view: its offset, and the sizes of its
/// content and of its visible page once it has been rendered.
#[derive(Debug, Clone, Copy, PartialEq, Eq, Structural)]
pub struct ScrollState {
    pub offset: Position,
    pub size: Option<Size>,
    pub page_size: Option<Size>,
}

/// The state of a view that has never been scrolled or rendered.
pub open spec fn scroll_origin() -> ScrollState {
    ScrollState { offset: Position { x: 0, y: 0 }, size: None, page_size: None }
}

/// The height of a page (1 before the first render).
pub open spec fn page_height(s: ScrollState) -> u16 {
    match s.page_size {
        Some(p) => p.height,
        None => 1,
    }
}

/// `s` with its vertical offset replaced.
pub open spec fn with_y(s: ScrollState, y: u16) -> ScrollState {
    ScrollState { offset: Position { x: s.offset.x, y }, size: s.size, page_size: s.page_size }
}

impl ScrollState {
    /// Not scrolled, not rendered yet.
    pub fn new() -> (s: ScrollState)
        ensures
            s == scroll_origin(),
    {
        ScrollState { offset: Position { x: 0, y: 0 }, size: None, page_size: None }
    }

    /// The offset.
    pub fn offset(&self) -> (p: Position)
        ensures
            p == self.offset,
    {
        self.offset
    }

    /// Scrolls up one row.
    pub fn scroll_up(&mut self)
        ensures
            *final(self) == with_y(*old(self), sat_sub(old(self).offset.y, 1)),
    {
        self.offset.y = self.offset.y.saturating_sub(1);
    }

    /// Scrolls down one row.
    pub fn scroll_down(&mut self)
        ensures
            *final(self) == with_y(*old(self), sat_add(old(self).offset.y, 1)),
    {
        self.offset.y = self.offset.y.saturating_add(1);
    }

    /// Scrolls down a page, keeping one row of overlap.
    pub fn scroll_page_down(&mut self)
        ensures
            *final(self) == with_y(
                *old(self),
                sat_sub(sat_add(old(self).offset.y, page_height(*old(self))), 1),
            ),
    {
        let page = match self.page_size {
            Some(p) => p.height,
            None => 1,
        };
        self.offset.y = self.offset.y.saturating_add(page).saturating_sub(1);
    }

    /// Scrolls up a page, keeping one row of overlap.
    pub fn scroll_page_up(&mut self)
        ensures
            *final(self) == with_y(
                *old(self),
                sat_sub(sat_add(old(self).offset.y, 1), page_height(*old(self))),
            ),
    {
        let page = match self.page_size {
            Some(p) => p.height,
            None => 1,
        };
        self.offset.y = self.offset.y.saturating_add(1).saturating_sub(page);
    }

    /// Scrolls to the last row of the content (to the end of the range
    /// before the first render; rendering then clamps the offset).
    pub fn scroll_to_bottom(&mut self)
        ensures
            *final(self) == with_y(
                *old(self),
                match old(self).size {
                    Some(s) => sat_sub(s.height, 1),
                    None => u16::MAX,
                },
            ),
    {
        let bottom = match self.size {
            Some(s) => s.height.saturating_sub(1),
            None => u16::MAX,
        };
        self.offset.y = bottom;
    }
}

} // verus!
