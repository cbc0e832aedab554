//! Where on the screen the board goes, and when a wait ends.

use vstd::prelude::*;

verus! {

/// A rectangle of terminal cells.
#[derive(Debug, Clone, Copy, PartialEq, Eq, Structural)]
pub struct Area {
    pub x: u16,
    pub y: u16,
    pub width: u16,
    pub height: u16,
}

impl Area {
    /// The column right of the rectangle.
    pub open spec fn right(self) -> int {
        self.x + self.width
    }

    /// The row below the rectangle.
    pub open spec fn bottom(self) -> int {
        self.y + self.height
    }

    /// Whether the rectangle ends within the range of the coordinates.
    pub open spec fn fits(self) -> bool {
        self.right() <= u16::MAX && self.bottom() <= u16::MAX
    }

    /// Whether the two rectangles share a cell or at least touch, so that
    /// what they have in common has a width and a height of zero or more.
    pub open spec fn meets(self, other: Area) -> bool {
        &&& vstd::math::max(self.x as int, other.x as int) <= vstd::math::min(
            self.right(),
            other.right(),
        )
        &&& vstd::math::max(self.y as int, other.y as int) <= vstd::math::min(
            self.bottom(),
            other.bottom(),
        )
    }

    /// What two rectangles have in common.
    pub open spec fn common(self, other: Area) -> Area {
        let x = vstd::math::max(self.x as int, other.x as int);
        let y = vstd::math::max(self.y as int, other.y as int);
        Area {
            x: x as u16,
            y: y as u16,
            width: (vstd::math::min(self.right(), other.right()) - x) as u16,
            height: (vstd::math::min(self.bottom(), other.bottom()) - y) as u16,
        }
    }
}

/// `Rect::intersection` of tui: the rectangle from the greater of the left
/// edges to the lesser of the right edges, and likewise from top to bottom.
/// It computes in 16 bits without a check, so both rectangles must end
/// within range and must meet.
#[verifier::external_body]
fn intersection(a: Area, b: Area) -> (r: Area)
    requires
        a.fits(),
        b.fits(),
        a.meets(b),
    ensures
        r == a.common(b),
{
    let first = tui::layout::Rect { x: a.x, y: a.y, width: a.width, height: a.height };
    let second = tui::layout::Rect { x: b.x, y: b.y, width: b.width, height: b.height };
    let r = first.intersection(second);
    Area { x: r.x, y: r.y, width: r.width, height: r.height }
}

/// Where a rectangle of the width and height desired lies when centred on
/// the middle of `outer`; it is pushed right or down where it would start
/// left of column 0 or above row 0.
pub open spec fn centred(outer: Area, desired_width: u16, desired_height: u16) -> Area {
    let x = outer.x + outer.width / 2 - desired_width / 2;
    let y = outer.y + outer.height / 2 - desired_height / 2;
    Area {
        x: (if x < 0 { 0 } else { x }) as u16,
        y: (if y < 0 { 0 } else { y }) as u16,
        width: desired_width,
        height: desired_height,
    }
}

/// The part of `outer` that a rectangle of the width and height desired
/// covers when it is centred on the middle of `outer`.
pub fn center(outer: Area, desired_width: u16, desired_height: u16) -> (r: Area)
    requires
        outer.fits(),
        centred(outer, desired_width, desired_height).fits(),
    ensures
        r == outer.common(centred(outer, desired_width, desired_height)),
{
    let naive = Area {
        x: u16::saturating_sub(outer.x + outer.width / 2, desired_width / 2),
        y: u16::saturating_sub(outer.y + outer.height / 2, desired_height / 2),
        width: desired_width,
        height: desired_height,
    };
    intersection(outer, naive)
}

/// How long a wait of `duration` has still to run once `elapsed` has
/// passed of it: the rest, and nothing once it is over. Both are counted
/// in nanoseconds.
pub fn remaining_wait(duration: u128, elapsed: u128) -> (rest: u128)
    ensures
        rest == (if elapsed <= duration {
            duration - elapsed
        } else {
            0
        }),
{
    duration.saturating_sub(elapsed)
}

/// How a step of an abortable wait ends: the key `q` aborts it, which is
/// `Some(true)`; otherwise it is over once `elapsed` has reached
/// `duration`, which is `Some(false)`; otherwise it goes on.
pub fn wait_step(pressed: Option<char>, duration: u128, elapsed: u128) -> (r: Option<bool>)
    ensures
        r == (if pressed == Some('q') {
            Some(true)
        } else if elapsed >= duration {
            Some(false)
        } else {
            None::<bool>
        }),
{
    let aborted = match pressed {
        Some(c) => c == 'q',
        None => false,
    };
    if aborted {
        Some(true)
    } else if elapsed >= duration {
        Some(false)
    } else {
        None
    }
}

} // verus!
