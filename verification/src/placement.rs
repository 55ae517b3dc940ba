//! Where an overlay goes beside the widget that it is shown relative to.
use crate::geometry::{
    exceeds, half, half_of, into_signed, into_unsigned, is_px, max2, min2, point_max, rect_extent,
    signed_of, unsigned_of, Point, Rect, Size,
};
use vstd::prelude::*;

verus! {

/// A relative direction.
#[derive(Clone, Copy, Debug, PartialEq, Eq, Structural)]
pub enum Direction {
    /// Negative along the Y axis.
    Up,
    /// Positive along the X axis.
    Right,
    /// Positive along the Y axis.
    Down,
    /// Negative along the X axis.
    Left,
}

impl Direction {
    /// The next direction when rotating clockwise.
    pub open spec fn clockwise(self) -> Direction {
        match self {
            Direction::Up => Direction::Right,
            Direction::Right => Direction::Down,
            Direction::Down => Direction::Left,
            Direction::Left => Direction::Up,
        }
    }

    /// The direction reached by rotating clockwise `turns` times.
    pub open spec fn turned(self, turns: nat) -> Direction
        decreases turns,
    {
        if turns == 0 {
            self
        } else {
            self.turned((turns - 1) as nat).clockwise()
        }
    }

    /// Returns the next direction when rotating clockwise.
    pub fn next_clockwise(&self) -> (next: Direction)
        ensures
            next == self.clockwise(),
    {
        match self {
            Direction::Up => Direction::Right,
            Direction::Down => Direction::Left,
            Direction::Right => Direction::Down,
            Direction::Left => Direction::Up,
        }
    }
}

/// Four turns clockwise lead back to where they started, and on the way there
/// every direction is faced, each once.
pub proof fn law_clockwise_visits_every_direction(start: Direction, direction: Direction)
    ensures
        start.turned(4) == start,
        exists|turns: nat| turns < 4 && #[trigger] start.turned(turns) == direction,
        forall|i: nat, j: nat|
            i < j < 4 ==> #[trigger] start.turned(i) != #[trigger] start.turned(j),
{
    reveal_with_fuel(Direction::turned, 5);
    let zero = start.turned(0);
    let one = start.turned(1);
    let two = start.turned(2);
    let three = start.turned(3);
    assert(direction == zero || direction == one || direction == two || direction == three);
}

/// The space on one side of `anchor`: as wide or tall as that side, and
/// reaching from it to the end of the available space. It is what an overlay
/// on that side may take.
pub open spec fn space_beside(direction: Direction, anchor: Rect<i32>, available: Size<u32>) -> (
    int,
    int,
) {
    let x = unsigned_of(anchor.origin.x as int);
    let y = unsigned_of(anchor.origin.y as int);
    let width = unsigned_of(anchor.size.width as int);
    let height = unsigned_of(anchor.size.height as int);
    match direction {
        Direction::Up => (width, y),
        Direction::Down => (width, available.height - y - height),
        Direction::Left => (x, height),
        Direction::Right => (max2(0, available.width - (x + width)), height),
    }
}

/// The space below `anchor` can be measured: `anchor` does not reach past the
/// bottom of the available space. On the other sides there is always an answer.
pub open spec fn space_exists(
    direction: Direction,
    anchor: Rect<i32>,
    available: Size<u32>,
) -> bool {
    direction is Down ==> unsigned_of(anchor.origin.y as int) + unsigned_of(
        anchor.size.height as int,
    ) <= available.height
}

/// Returns the space that an overlay on one side of `anchor` may take.
pub fn measure_space(direction: Direction, anchor: Rect<i32>, available: Size<u32>) -> (space: Size<
    u32,
>)
    requires
        space_exists(direction, anchor, available),
    ensures
        (space.width as int, space.height as int) == space_beside(direction, anchor, available),
{
    let x = into_unsigned(anchor.origin.x);
    let y = into_unsigned(anchor.origin.y);
    let width = into_unsigned(anchor.size.width);
    let height = into_unsigned(anchor.size.height);
    match direction {
        Direction::Up => Size { width, height: y },
        Direction::Down => Size { width, height: available.height - y - height },
        Direction::Left => Size { width: x, height },
        Direction::Right => Size {
            width: available.width.saturating_sub(x.saturating_add(width)),
            height,
        },
    }
}

/// Returns whether the space that an overlay on one side of `anchor` may take
/// can be measured.
pub fn check_space(direction: Direction, anchor: Rect<i32>, available: Size<u32>) -> (measurable:
    bool)
    ensures
        measurable == space_exists(direction, anchor, available),
{
    match direction {
        Direction::Down => {
            let y = into_unsigned(anchor.origin.y);
            let height = into_unsigned(anchor.size.height);
            y <= available.height && height <= available.height - y
        },
        _ => true,
    }
}

/// The origin at which an area of `size` touches `anchor` on one side, its
/// middle against the middle of that side.
pub open spec fn beside(direction: Direction, anchor: Rect<i32>, size: Size<i32>) -> (int, int) {
    let centered_x = anchor.origin.x + half_of(anchor.size.width as int) - half_of(
        size.width as int,
    );
    let centered_y = anchor.origin.y + half_of(anchor.size.height as int) - half_of(
        size.height as int,
    );
    match direction {
        Direction::Up => (centered_x, anchor.origin.y - size.height),
        Direction::Down => (centered_x, anchor.origin.y + anchor.size.height),
        Direction::Left => (anchor.origin.x - size.width, centered_y),
        Direction::Right => (anchor.origin.x + anchor.size.width, centered_y),
    }
}

/// The coordinates that come up when an area of `size` is put on one side of
/// `anchor` are representable.
pub open spec fn beside_fits(direction: Direction, anchor: Rect<i32>, size: Size<i32>) -> bool {
    let (x, y) = beside(direction, anchor, size);
    &&& is_px(x)
    &&& is_px(y)
    &&& is_px(max2(x, 0) + size.width)
    &&& is_px(max2(y, 0) + size.height)
}

/// An area of `size` beside `anchor`, moved into the available space: off the
/// top and left edges first, then off the bottom and right ones.
pub open spec fn placed(
    direction: Direction,
    anchor: Rect<i32>,
    size: Size<i32>,
    available: Size<u32>,
) -> Rect<i32> {
    let (x, y) = beside(direction, anchor, size);
    Rect {
        origin: Point {
            x: min2(max2(x, 0), available.width - size.width) as i32,
            y: min2(max2(y, 0), available.height - size.height) as i32,
        },
        size,
    }
}

/// Returns where an area of `size` goes on one side of `anchor`.
pub fn place(
    direction: Direction,
    anchor: Rect<i32>,
    size: Size<i32>,
    available: Size<u32>,
) -> (layout: Rect<i32>)
    requires
        anchor.fits(),
        size.width >= 0,
        size.height >= 0,
        beside_fits(direction, anchor, size),
    ensures
        layout == placed(direction, anchor, size, available),
        layout.fits(),
{
    let origin = match direction {
        Direction::Up => Point {
            x: anchor.origin.x + half(anchor.size.width) - half(size.width),
            y: anchor.origin.y - size.height,
        },
        Direction::Down => Point {
            x: anchor.origin.x + half(anchor.size.width) - half(size.width),
            y: anchor.origin.y + anchor.size.height,
        },
        Direction::Left => Point {
            x: anchor.origin.x - size.width,
            y: anchor.origin.y + half(anchor.size.height) - half(size.height),
        },
        Direction::Right => Point {
            x: anchor.origin.x + anchor.size.width,
            y: anchor.origin.y + half(anchor.size.height) - half(size.height),
        },
    };
    let mut layout = Rect { origin: point_max(origin, Point { x: 0, y: 0 }), size };
    let bottom_right = rect_extent(layout);
    if exceeds(bottom_right.x, available.width) {
        layout.origin.x = layout.origin.x - (bottom_right.x - into_signed(available.width));
    }
    if exceeds(bottom_right.y, available.height) {
        layout.origin.y = layout.origin.y - (bottom_right.y - into_signed(available.height));
    }
    layout
}

/// Returns whether `place` can be asked for this side of `anchor`.
pub fn check_place(direction: Direction, anchor: Rect<i32>, size: Size<i32>) -> (fits: bool)
    requires
        size.width >= 0,
        size.height >= 0,
    ensures
        fits == beside_fits(direction, anchor, size),
{
    let left = anchor.origin.x as i64;
    let top = anchor.origin.y as i64;
    let width = size.width as i64;
    let height = size.height as i64;
    let centered_x = left + half(anchor.size.width) as i64 - half(size.width) as i64;
    let centered_y = top + half(anchor.size.height) as i64 - half(size.height) as i64;
    let (x, y) = match direction {
        Direction::Up => (centered_x, top - height),
        Direction::Down => (centered_x, top + anchor.size.height as i64),
        Direction::Left => (left - width, centered_y),
        Direction::Right => (left + anchor.size.width as i64, centered_y),
    };
    let smallest = i32::MIN as i64;
    let largest = i32::MAX as i64;
    smallest <= x && x <= largest && smallest <= y && y <= largest && (if x > 0 {
        x
    } else {
        0
    }) + width <= largest && (if y > 0 {
        y
    } else {
        0
    }) + height <= largest
}

/// An overlay never reaches past the right and bottom ends of the available
/// space, and one that is no larger than that space lies wholly within it.
pub proof fn law_placed_within_available(
    direction: Direction,
    anchor: Rect<i32>,
    size: Size<i32>,
    available: Size<u32>,
)
    requires
        size.width >= 0,
        size.height >= 0,
        beside_fits(direction, anchor, size),
    ensures
        ({
            let layout = placed(direction, anchor, size, available);
            &&& layout.size == size
            &&& layout.right() <= available.width
            &&& layout.bottom() <= available.height
            &&& size.width <= available.width ==> layout.left() >= 0
            &&& size.height <= available.height ==> layout.top() >= 0
        }),
{
}

/// Where there is room for it, an overlay is on the side of the widget that was
/// asked for, touching that side, middle against middle, and clear of the
/// widget itself.
pub proof fn law_placed_on_the_side_asked_for(
    direction: Direction,
    anchor: Rect<i32>,
    size: Size<i32>,
    available: Size<u32>,
)
    requires
        anchor.fits(),
        anchor.size.width >= 0,
        anchor.size.height >= 0,
        size.width >= 0,
        size.height >= 0,
        beside_fits(direction, anchor, size),
        0 <= beside(direction, anchor, size).0 <= available.width - size.width,
        0 <= beside(direction, anchor, size).1 <= available.height - size.height,
    ensures
        ({
            let layout = placed(direction, anchor, size, available);
            &&& !layout.overlaps(anchor)
            &&& match direction {
                Direction::Up => layout.bottom() == anchor.top(),
                Direction::Down => layout.top() == anchor.bottom(),
                Direction::Left => layout.right() == anchor.left(),
                Direction::Right => layout.left() == anchor.right(),
            }
            &&& match direction {
                Direction::Up | Direction::Down => layout.left() + size.width / 2 == anchor.left()
                    + anchor.size.width / 2,
                Direction::Left | Direction::Right => layout.top() + size.height / 2
                    == anchor.top() + anchor.size.height / 2,
            }
        }),
{
}

/// Turning clockwise turns to the right: with `x` to the right and `y` down, what
/// was ahead by `(dx, dy)` is then ahead by `(-dy, dx)`.
pub proof fn law_clockwise_turns_to_the_right(direction: Direction)
    ensures
        ({
            let ahead = |direction: Direction|
                match direction {
                    Direction::Up => (0int, -1int),
                    Direction::Right => (1int, 0int),
                    Direction::Down => (0int, 1int),
                    Direction::Left => (-1int, 0int),
                };
            let (dx, dy) = ahead(direction);
            ahead(direction.clockwise()) == (-dy, dx)
        }),
{
}

/// Turning one time more is turning clockwise once more.
pub proof fn law_turns_add_up(direction: Direction, turns: nat)
    ensures
        direction.turned(0) == direction,
        direction.turned(turns + 1) == direction.turned(turns).clockwise(),
{
}

/// The space beside a widget reaches from that side of the widget to the end of
/// what is available, and is as wide or tall as the side. What of the widget is
/// above or to the left of the available space does not count.
pub proof fn law_space_reaches_to_the_end(
    direction: Direction,
    anchor: Rect<i32>,
    available: Size<u32>,
)
    ensures
        ({
            let (width, height) = space_beside(direction, anchor, available);
            let left = if anchor.origin.x < 0 {
                0
            } else {
                anchor.origin.x as int
            };
            let top = if anchor.origin.y < 0 {
                0
            } else {
                anchor.origin.y as int
            };
            let across = if anchor.size.width < 0 {
                0
            } else {
                anchor.size.width as int
            };
            let down = if anchor.size.height < 0 {
                0
            } else {
                anchor.size.height as int
            };
            match direction {
                Direction::Up => height == top && width == across,
                Direction::Down => top + down + height == available.height && width == across,
                Direction::Left => width == left && height == down,
                Direction::Right => {
                    &&& left + across <= available.width ==> left + across + width
                        == available.width
                    &&& left + across > available.width ==> width == 0
                    &&& height == down
                },
            }
        }),
{
}

/// There is space on every side of a widget that does not reach past the bottom of
/// what is available. Of one that does, only the space below cannot be measured.
pub proof fn law_space_exists_but_past_the_bottom(
    direction: Direction,
    anchor: Rect<i32>,
    available: Size<u32>,
)
    ensures
        space_exists(direction, anchor, available) <==> (direction is Down ==> space_beside(
            direction,
            anchor,
            available,
        ).1 >= 0),
{
}

/// Before it is moved into the available space, an overlay touches the widget on
/// the side that was asked for, and its middle is against the middle of that side.
pub proof fn law_beside_touches_the_middle(
    direction: Direction,
    anchor: Rect<i32>,
    size: Size<i32>,
)
    requires
        anchor.size.width >= 0,
        anchor.size.height >= 0,
        size.width >= 0,
        size.height >= 0,
    ensures
        ({
            let (x, y) = beside(direction, anchor, size);
            let off_x = (2 * x + size.width) - (2 * anchor.origin.x + anchor.size.width);
            let off_y = (2 * y + size.height) - (2 * anchor.origin.y + anchor.size.height);
            &&& match direction {
                Direction::Up => y + size.height == anchor.origin.y,
                Direction::Down => y == anchor.origin.y + anchor.size.height,
                Direction::Left => x + size.width == anchor.origin.x,
                Direction::Right => x == anchor.origin.x + anchor.size.width,
            }
            &&& match direction {
                Direction::Up | Direction::Down => off_x == size.width % 2 - anchor.size.width % 2,
                Direction::Left | Direction::Right => off_y == size.height % 2 - anchor.size.height
                    % 2,
            }
        }),
{
}

/// Of a widget with any size, the middle is the half of that size away from its
/// origin.
pub proof fn law_beside_is_centered_by_halves(
    direction: Direction,
    anchor: Rect<i32>,
    size: Size<i32>,
)
    ensures
        ({
            let (x, y) = beside(direction, anchor, size);
            match direction {
                Direction::Up => {
                    &&& x + half_of(size.width as int) == anchor.origin.x + half_of(
                        anchor.size.width as int,
                    )
                    &&& y + size.height == anchor.origin.y
                },
                Direction::Down => {
                    &&& x + half_of(size.width as int) == anchor.origin.x + half_of(
                        anchor.size.width as int,
                    )
                    &&& y == anchor.origin.y + anchor.size.height
                },
                Direction::Left => {
                    &&& y + half_of(size.height as int) == anchor.origin.y + half_of(
                        anchor.size.height as int,
                    )
                    &&& x + size.width == anchor.origin.x
                },
                Direction::Right => {
                    &&& y + half_of(size.height as int) == anchor.origin.y + half_of(
                        anchor.size.height as int,
                    )
                    &&& x == anchor.origin.x + anchor.size.width
                },
            }
        }),
{
}

/// An area can be put beside a widget exactly if its origin there is a point, and
/// so is its far corner once it has been moved off the top and left edges.
pub proof fn law_beside_fits_if_its_corners_are_points(
    direction: Direction,
    anchor: Rect<i32>,
    size: Size<i32>,
)
    ensures
        ({
            let (x, y) = beside(direction, anchor, size);
            let right = if x < 0 {
                size.width as int
            } else {
                x + size.width
            };
            let bottom = if y < 0 {
                size.height as int
            } else {
                y + size.height
            };
            beside_fits(direction, anchor, size) <==> {
                &&& -0x8000_0000 <= x <= 0x7fff_ffff
                &&& -0x8000_0000 <= y <= 0x7fff_ffff
                &&& -0x8000_0000 <= right <= 0x7fff_ffff
                &&& -0x8000_0000 <= bottom <= 0x7fff_ffff
            }
        }),
{
}

/// An overlay moves no further into the available space than it has to, along each
/// axis by itself: one that is within stays, one that begins before it begins with
/// it, and one that ends after it, or is larger, ends with it.
pub proof fn law_placed_moves_no_further_than_needed(
    direction: Direction,
    anchor: Rect<i32>,
    size: Size<i32>,
    available: Size<u32>,
)
    requires
        size.width >= 0,
        size.height >= 0,
        beside_fits(direction, anchor, size),
    ensures
        ({
            let (x, y) = beside(direction, anchor, size);
            let layout = placed(direction, anchor, size, available);
            &&& layout.size == size
            &&& 0 <= x && x + size.width <= available.width ==> layout.origin.x == x
            &&& 0 <= y && y + size.height <= available.height ==> layout.origin.y == y
            &&& x < 0 && size.width <= available.width ==> layout.origin.x == 0
            &&& y < 0 && size.height <= available.height ==> layout.origin.y == 0
            &&& x + size.width > available.width || size.width > available.width
                ==> layout.origin.x + size.width == available.width
            &&& y + size.height > available.height || size.height > available.height
                ==> layout.origin.y + size.height == available.height
        }),
{
}

} // verus!
