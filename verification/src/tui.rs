//! The three-region playground screen: input pane (top-left), script
//! pane (bottom-left), and shared output/error pane (right, full height).
//! The regions are computed by `ratatui`'s layout solver.

use ratatui::layout::{Constraint, Direction, Layout};
use vstd::prelude::*;

verus! {

/// A rectangular screen area: top-left corner and size, in cells.
#[derive(Debug, Clone, Copy, PartialEq, Eq, Structural)]
pub struct Rect {
    pub x: u16,
    pub y: u16,
    pub width: u16,
    pub height: u16,
}

impl Rect {
    /// A rectangle at `(x, y)` of the given size, its width and height
    /// clamped so that its right and bottom edges stay within `u16`.
    pub fn new(x: u16, y: u16, width: u16, height: u16) -> (r: Rect)
        ensures
            r.x == x,
            r.y == y,
            r.width == if width > u16::MAX - x { (u16::MAX - x) as u16 } else { width },
            r.height == if height > u16::MAX - y { (u16::MAX - y) as u16 } else { height },
    {
        let max_width = u16::MAX - x;
        let max_height = u16::MAX - y;
        let width = if width > max_width { max_width } else { width };
        let height = if height > max_height { max_height } else { height };
        Rect { x, y, width, height }
    }
}

/// The axis along which an area is split.
#[derive(Debug, Clone, Copy, PartialEq, Eq, Structural)]
pub enum SplitDirection {
    /// Side by side.
    Horizontal,
    /// One above the other.
    Vertical,
}

/// The name for the two areas `ratatui`'s layout solver gives when it
/// splits `area` along `direction` into parts of `first` and `second`
/// percent.
pub uninterp spec fn solver_split(
    area: Rect,
    direction: SplitDirection,
    first: u16,
    second: u16,
) -> (Rect, Rect);

/// Splits `area` along `direction` into two parts with the percentage
/// constraints `first` and `second`, with `ratatui`'s `Layout::split` (a
/// constraint solver whose result depends only on the layout and the
/// area). The contract names the result and states no more of it.
#[verifier::external_body]
fn split_percent(area: Rect, direction: SplitDirection, first: u16, second: u16) -> (r: (
    Rect,
    Rect,
))
    requires
        first <= 100,
        second <= 100,
    ensures
        r == solver_split(area, direction, first, second),
{
    let dir = match direction {
        SplitDirection::Horizontal => Direction::Horizontal,
        SplitDirection::Vertical => Direction::Vertical,
    };
    let area = ratatui::layout::Rect { x: area.x, y: area.y, width: area.width, height: area.height };
    let constraints = [Constraint::Percentage(first), Constraint::Percentage(second)];
    let parts = Layout::default().direction(dir).constraints(constraints).split(area);
    let a = Rect { x: parts[0].x, y: parts[0].y, width: parts[0].width, height: parts[0].height };
    let b = Rect { x: parts[1].x, y: parts[1].y, width: parts[1].width, height: parts[1].height };
    (a, b)
}

/// The playground's halves of `area` along `direction`: 50% and 50%.
pub open spec fn halves(area: Rect, direction: SplitDirection) -> (Rect, Rect) {
    solver_split(area, direction, 50, 50)
}

/// The three regions of the playground screen.
#[derive(Debug, Clone, Copy, PartialEq, Eq, Structural)]
pub struct Regions {
    pub input: Rect,
    pub script: Rect,
    pub output: Rect,
}

/// The regions from the two columns and the two rows of the left column:
/// input on top of the left column, script below it, output the right
/// column.
pub fn regions_from(columns: (Rect, Rect), left_rows: (Rect, Rect)) -> (r: Regions)
    ensures
        r.input == left_rows.0,
        r.script == left_rows.1,
        r.output == columns.1,
{
    Regions { input: left_rows.0, script: left_rows.1, output: columns.1 }
}

/// Splits `area` into the three playground regions: a left column (input
/// over script) and a right column (output), 50/50 by width, the left
/// column 50/50 by height.
pub fn layout(area: Rect) -> (r: Regions)
    ensures
        r.input == halves(halves(area, SplitDirection::Horizontal).0, SplitDirection::Vertical).0,
        r.script == halves(halves(area, SplitDirection::Horizontal).0, SplitDirection::Vertical).1,
        r.output == halves(area, SplitDirection::Horizontal).1,
{
    let columns = split_percent(area, SplitDirection::Horizontal, 50, 50);
    let left = split_percent(columns.0, SplitDirection::Vertical, 50, 50);
    regions_from(columns, left)
}

/// What the playground shows: the script source, the bound input's label
/// and raw text (or a placeholder label when none is bound), and the last
/// output or error text.
pub struct PlaygroundState<'a> {
    pub script: &'a str,
    pub input_label: &'a str,
    pub input_text: &'a str,
    pub output_text: &'a str,
}

} // verus!
