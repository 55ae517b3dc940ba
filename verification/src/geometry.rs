//! Points, sizes and rectangles.
//!
//! A coordinate is counted in the unscaled units of `kludgine::figures`:
//! quarters of a device pixel, held in an `i32` where it may be negative
//! (`figures::units::Px`) and in a `u32` where it may not (`figures::units::UPx`).
use kludgine::figures;
use kludgine::figures::units::{Px, UPx};
use kludgine::figures::{IntoSigned, IntoUnsigned, UnscaledUnit};
use vstd::prelude::*;

verus! {

/// A coordinate in a 2d space.
#[derive(Clone, Copy, Debug, PartialEq, Eq)]
pub struct Point<Unit> {
    /// The x-axis component.
    pub x: Unit,
    /// The y-axis component.
    pub y: Unit,
}

/// A width and a height measurement.
#[derive(Clone, Copy, Debug, PartialEq, Eq)]
pub struct Size<Unit> {
    /// The width component.
    pub width: Unit,
    /// The height component.
    pub height: Unit,
}

/// A 2d area: an origin and a size.
#[derive(Clone, Copy, Debug, PartialEq, Eq)]
pub struct Rect<Unit> {
    /// The origin of the rectangle.
    pub origin: Point<Unit>,
    /// The size of the rectangle.
    pub size: Size<Unit>,
}

/// The space that a widget may take along one axis.
#[derive(Clone, Copy, Debug, PartialEq, Eq)]
pub enum ConstraintLimit {
    /// The widget is expected to fill this much space.
    Fill(u32),
    /// The widget sizes itself to its contents, within this much space.
    SizeToFit(u32),
}

/// The smaller of two numbers.
pub open spec fn min2(a: int, b: int) -> int {
    if a <= b {
        a
    } else {
        b
    }
}

/// The larger of two numbers.
pub open spec fn max2(a: int, b: int) -> int {
    if a <= b {
        b
    } else {
        a
    }
}

/// `a` is a coordinate that an `i32` holds.
pub open spec fn is_px(a: int) -> bool {
    i32::MIN <= a <= i32::MAX
}

/// Half of `v`, rounded toward zero.
pub open spec fn half_of(v: int) -> int {
    if v >= 0 {
        v / 2
    } else {
        -((-v) / 2)
    }
}

/// The part of `v` that an `i32` holds.
pub open spec fn signed_of(v: int) -> int {
    min2(v, i32::MAX as int)
}

/// The part of `v` that is not negative.
pub open spec fn unsigned_of(v: int) -> int {
    max2(v, 0)
}

impl ConstraintLimit {
    /// The amount of space, whatever is to be done with it.
    pub open spec fn limit(self) -> u32 {
        match self {
            ConstraintLimit::Fill(limit) => limit,
            ConstraintLimit::SizeToFit(limit) => limit,
        }
    }

    /// Returns the largest measurement that fits the constraint.
    pub fn max(self) -> (limit: u32)
        ensures
            limit == self.limit(),
    {
        match self {
            ConstraintLimit::Fill(limit) => limit,
            ConstraintLimit::SizeToFit(limit) => limit,
        }
    }
}

impl Rect<i32> {
    /// The far corner of this rectangle is a point that `i32` coordinates can
    /// name.
    pub open spec fn fits(self) -> bool {
        &&& is_px(self.origin.x + self.size.width)
        &&& is_px(self.origin.y + self.size.height)
    }

    /// Returns whether the far corner of this rectangle is representable.
    pub fn check_fits(&self) -> (fits: bool)
        ensures
            fits == self.fits(),
    {
        let x = self.origin.x as i64 + self.size.width as i64;
        let y = self.origin.y as i64 + self.size.height as i64;
        i32::MIN as i64 <= x && x <= i32::MAX as i64 && i32::MIN as i64 <= y && y <= i32::MAX as i64
    }

    /// The coordinate of the left edge.
    pub open spec fn left(self) -> int {
        min2(self.origin.x as int, self.origin.x + self.size.width)
    }

    /// The coordinate of the right edge.
    pub open spec fn right(self) -> int {
        max2(self.origin.x as int, self.origin.x + self.size.width)
    }

    /// The coordinate of the top edge.
    pub open spec fn top(self) -> int {
        min2(self.origin.y as int, self.origin.y + self.size.height)
    }

    /// The coordinate of the bottom edge.
    pub open spec fn bottom(self) -> int {
        max2(self.origin.y as int, self.origin.y + self.size.height)
    }

    /// `point` lies within this rectangle: its left and top edges belong to it,
    /// its right and bottom edges do not.
    pub open spec fn encloses(self, point: Point<i32>) -> bool {
        &&& self.left() <= point.x < self.right()
        &&& self.top() <= point.y < self.bottom()
    }

    /// The two areas have more in common than an edge.
    pub open spec fn overlaps(self, other: Rect<i32>) -> bool {
        &&& other.left() < self.right()
        &&& self.left() < other.right()
        &&& other.top() < self.bottom()
        &&& self.top() < other.bottom()
    }
}

/// Whether `rect` contains `point`, asked of `figures::Rect::contains`.
///
/// Trusted: the answer is `Rect::encloses`. The call adds the size to the
/// origin, so the far corner has to be representable.
#[verifier::external_body]
pub(crate) fn rect_contains(rect: Rect<i32>, point: Point<i32>) -> (contained: bool)
    requires
        rect.fits(),
    ensures
        contained == rect.encloses(point),
{
    let area = figures::Rect::new(
        figures::Point::new(Px::from_unscaled(rect.origin.x), Px::from_unscaled(rect.origin.y)),
        figures::Size::new(Px::from_unscaled(rect.size.width), Px::from_unscaled(rect.size.height)),
    );
    area.contains(figures::Point::new(Px::from_unscaled(point.x), Px::from_unscaled(point.y)))
}

/// Whether the areas of `a` and `b` overlap, asked of
/// `figures::Rect::intersects`.
///
/// Trusted: the answer is `Rect::overlaps`; edges that only touch do not count.
/// The call adds each size to its origin, so both far corners have to be
/// representable.
#[verifier::external_body]
pub(crate) fn rect_intersects(a: Rect<i32>, b: Rect<i32>) -> (overlapping: bool)
    requires
        a.fits(),
        b.fits(),
    ensures
        overlapping == a.overlaps(b),
{
    let first = figures::Rect::new(
        figures::Point::new(Px::from_unscaled(a.origin.x), Px::from_unscaled(a.origin.y)),
        figures::Size::new(Px::from_unscaled(a.size.width), Px::from_unscaled(a.size.height)),
    );
    let second = figures::Rect::new(
        figures::Point::new(Px::from_unscaled(b.origin.x), Px::from_unscaled(b.origin.y)),
        figures::Size::new(Px::from_unscaled(b.size.width), Px::from_unscaled(b.size.height)),
    );
    first.intersects(&second)
}

/// The corner of `rect` that is not its origin, asked of
/// `figures::Rect::extent`.
///
/// Trusted: each component is the origin's plus the size's.
#[verifier::external_body]
pub(crate) fn rect_extent(rect: Rect<i32>) -> (corner: Point<i32>)
    requires
        rect.fits(),
    ensures
        corner.x == rect.origin.x + rect.size.width,
        corner.y == rect.origin.y + rect.size.height,
{
    let corner = figures::Rect::new(
        figures::Point::new(Px::from_unscaled(rect.origin.x), Px::from_unscaled(rect.origin.y)),
        figures::Size::new(Px::from_unscaled(rect.size.width), Px::from_unscaled(rect.size.height)),
    ).extent();
    Point { x: corner.x.into_unscaled(), y: corner.y.into_unscaled() }
}

/// The larger of each component of `a` and `b`, asked of `figures::Point`'s
/// `Ord::max`.
///
/// Trusted: the components are compared apart from each other, whatever the
/// order of the points as wholes.
#[verifier::external_body]
pub(crate) fn point_max(a: Point<i32>, b: Point<i32>) -> (larger: Point<i32>)
    ensures
        larger.x == max2(a.x as int, b.x as int),
        larger.y == max2(a.y as int, b.y as int),
{
    let larger = figures::Point::new(Px::from_unscaled(a.x), Px::from_unscaled(a.y)).max(
        figures::Point::new(Px::from_unscaled(b.x), Px::from_unscaled(b.y)),
    );
    Point { x: larger.x.into_unscaled(), y: larger.y.into_unscaled() }
}

/// The larger of each component of `a` and `b`, asked of `figures::Size`'s
/// `Ord::max`.
///
/// Trusted: the components are compared apart from each other, whatever the
/// order of the sizes as wholes.
#[verifier::external_body]
pub(crate) fn size_max(a: Size<u32>, b: Size<u32>) -> (larger: Size<u32>)
    ensures
        larger.width == max2(a.width as int, b.width as int),
        larger.height == max2(a.height as int, b.height as int),
{
    let larger = figures::Size::new(UPx::from_unscaled(a.width), UPx::from_unscaled(a.height)).max(
        figures::Size::new(UPx::from_unscaled(b.width), UPx::from_unscaled(b.height)),
    );
    Size { width: larger.width.into_unscaled(), height: larger.height.into_unscaled() }
}

/// `v` as a signed coordinate, asked of `figures::units::UPx`'s
/// `IntoSigned::into_signed`.
///
/// Trusted: what is too large for an `i32` becomes `i32::MAX`.
#[verifier::external_body]
pub(crate) fn into_signed(v: u32) -> (signed: i32)
    ensures
        signed == signed_of(v as int),
{
    UPx::from_unscaled(v).into_signed().into_unscaled()
}

/// `v` as an unsigned coordinate, asked of `figures::units::Px`'s
/// `IntoUnsigned::into_unsigned`.
///
/// Trusted: what is negative becomes zero.
#[verifier::external_body]
pub(crate) fn into_unsigned(v: i32) -> (unsigned: u32)
    ensures
        unsigned == unsigned_of(v as int),
{
    Px::from_unscaled(v).into_unsigned().into_unscaled()
}

/// Whether the signed coordinate `a` is larger than the unsigned `b`, asked of
/// the comparison of `figures::units::Px` with `figures::units::UPx`.
///
/// Trusted: the two are compared as numbers.
#[verifier::external_body]
pub(crate) fn exceeds(a: i32, b: u32) -> (larger: bool)
    ensures
        larger == (a > b),
{
    Px::from_unscaled(a) > UPx::from_unscaled(b)
}

/// `size` with both components signed.
pub(crate) fn size_into_signed(size: Size<u32>) -> (signed: Size<i32>)
    ensures
        signed.width == signed_of(size.width as int),
        signed.height == signed_of(size.height as int),
{
    Size { width: into_signed(size.width), height: into_signed(size.height) }
}

/// `size` with both components unsigned.
pub(crate) fn size_into_unsigned(size: Size<i32>) -> (unsigned: Size<u32>)
    ensures
        unsigned.width == unsigned_of(size.width as int),
        unsigned.height == unsigned_of(size.height as int),
{
    Size { width: into_unsigned(size.width), height: into_unsigned(size.height) }
}

/// Half of `v`, rounded toward zero: what `figures` computes for `v / 2`.
pub(crate) fn half(v: i32) -> (h: i32)
    ensures
        h == half_of(v as int),
{
    v / 2
}

/// Twice the half of a number is that number, but for the unit by which an odd
/// one is further from zero.
pub proof fn law_half_is_half(v: int)
    ensures
        v >= 0 ==> 0 <= v - 2 * half_of(v) <= 1,
        v <= 0 ==> -1 <= v - 2 * half_of(v) <= 0,
{
}

/// A constraint allows the amount that it was made with, whatever its kind.
pub proof fn law_limit_is_the_amount(amount: u32)
    ensures
        ConstraintLimit::Fill(amount).limit() == amount,
        ConstraintLimit::SizeToFit(amount).limit() == amount,
{
}

/// A coordinate that both a signed and an unsigned number can hold stays what it
/// is; of the others, each becomes the nearest one that can be held.
pub proof fn law_conversions_keep_what_they_can(v: int)
    ensures
        v <= 0x7fff_ffff ==> signed_of(v) == v,
        v > 0x7fff_ffff ==> signed_of(v) == 0x7fff_ffff,
        v >= 0 ==> unsigned_of(v) == v,
        v < 0 ==> unsigned_of(v) == 0,
{
}

/// A rectangle fits exactly if both coordinates of its far corner are those of
/// some point.
pub proof fn law_fits_if_its_corner_is_a_point(rect: Rect<i32>)
    ensures
        rect.fits() <==> {
            &&& -0x8000_0000 <= rect.origin.x + rect.size.width <= 0x7fff_ffff
            &&& -0x8000_0000 <= rect.origin.y + rect.size.height <= 0x7fff_ffff
        },
{
}

/// A rectangle with a size that is not negative encloses its origin and what is
/// less than its size away from it to the right and down.
pub proof fn law_encloses_from_its_origin(rect: Rect<i32>, point: Point<i32>)
    requires
        rect.size.width >= 0,
        rect.size.height >= 0,
    ensures
        rect.encloses(point) <==> {
            &&& 0 <= point.x - rect.origin.x < rect.size.width
            &&& 0 <= point.y - rect.origin.y < rect.size.height
        },
{
}

/// Two rectangles with an area overlap exactly if some point is in both.
pub proof fn law_overlaps_if_a_point_is_in_both(a: Rect<i32>, b: Rect<i32>)
    requires
        a.fits(),
        b.fits(),
        a.size.width != 0,
        a.size.height != 0,
        b.size.width != 0,
        b.size.height != 0,
    ensures
        a.overlaps(b) <==> exists|point: Point<i32>|
            #[trigger] a.encloses(point) && b.encloses(point),
{
    if a.overlaps(b) {
        let point = Point {
            x: max2(a.left(), b.left()) as i32,
            y: max2(a.top(), b.top()) as i32,
        };
        assert(a.encloses(point) && b.encloses(point));
    }
}

} // verus!
