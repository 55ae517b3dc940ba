//! Overlays and the collection that a layer keeps them in.
//!
//! The collection is `alot::OrderedLots`: a sequence whose entries can be found
//! by position or by the [`LotId`] that each got when it was added. What the
//! calls into it are taken to do is stated here, over the entries in order and
//! over their ids in the same order.
use crate::geometry::Rect;
use crate::placement::Direction;
use crate::widget::{OnceCallback, WidgetId, WidgetRef};
use alot::{LotId, OrderedLots};
use intentional::Assert;
use vstd::prelude::*;

verus! {

/// An overlay on a layer.
#[derive(Debug, PartialEq, Eq)]
pub struct OverlayLayout {
    /// The widget that is shown.
    pub widget: WidgetRef,
    /// The widget that the overlay is shown relative to, if any.
    pub relative_to: Option<WidgetId>,
    /// The side of that widget on which the overlay is shown.
    pub direction: Direction,
    /// Whether the overlay hides when it is no longer hovered.
    pub requires_hover: bool,
    /// Where the overlay is laid out, once it has been.
    pub layout: Option<Rect<i32>>,
    /// What to invoke once the overlay has been dismissed.
    pub on_dismiss: Option<OnceCallback>,
}

impl OverlayLayout {
    /// Ends an overlay that is no longer shown. A callback is to be invoked when
    /// it comes back from here, and only then: an overlay ends once, so its
    /// callback is invoked once.
    pub fn drop(self) -> (on_dismiss: Option<OnceCallback>)
        ensures
            on_dismiss == self.on_dismiss,
    {
        self.on_dismiss
    }
}

/// The id of an entry of an `alot` collection.
#[verifier::external_type_specification]
#[verifier::external_body]
pub struct ExLotId(LotId);

/// The `alot` collection that keeps its entries in order.
#[verifier::external_type_specification]
#[verifier::external_body]
#[verifier::reject_recursive_types(T)]
pub struct ExOrderedLots<T>(OrderedLots<T>);

/// The entries of `lots`, in order.
pub uninterp spec fn lots_items(lots: OrderedLots<OverlayLayout>) -> Seq<OverlayLayout>;

/// The ids of the entries of `lots`, in the same order.
pub uninterp spec fn lots_ids(lots: OrderedLots<OverlayLayout>) -> Seq<LotId>;

/// How many entries there are ids for: an id spends three quarters of the bits
/// of a `usize` on the entry's position in memory.
pub open spec fn lots_limit() -> int {
    if usize::BITS == 32 {
        0x100_0000
    } else {
        0x1_0000_0000_0000
    }
}

/// A collection without entries, made by `OrderedLots::new`.
#[verifier::external_body]
pub(crate) fn lots_new() -> (lots: OrderedLots<OverlayLayout>)
    ensures
        lots_items(lots) == Seq::<OverlayLayout>::empty(),
        lots_ids(lots) == Seq::<LotId>::empty(),
{
    OrderedLots::new()
}

/// The number of entries, from `OrderedLots::len`.
#[verifier::external_body]
pub(crate) fn lots_len(lots: &OrderedLots<OverlayLayout>) -> (len: usize)
    ensures
        len == lots_items(*lots).len(),
{
    lots.len()
}

/// Adds an entry at the end with `OrderedLots::push`.
///
/// Trusted: the entry and its id are appended, and no other entry has that id.
/// The call panics when there are no ids left. An entry that has been removed
/// may have had the same id: that an id is never given out again is not claimed.
#[verifier::external_body]
pub(crate) fn lots_push(lots: &mut OrderedLots<OverlayLayout>, overlay: OverlayLayout) -> (id:
    LotId)
    requires
        lots_items(*old(lots)).len() < lots_limit(),
    ensures
        lots_items(*final(lots)) == lots_items(*old(lots)).push(overlay),
        lots_ids(*final(lots)) == lots_ids(*old(lots)).push(id),
        !lots_ids(*old(lots)).contains(id),
{
    lots.push(overlay)
}

/// Removes the last entry with `OrderedLots::pop`, if there is one.
#[verifier::external_body]
pub(crate) fn lots_pop(lots: &mut OrderedLots<OverlayLayout>) -> (popped: Option<OverlayLayout>)
    ensures
        match popped {
            Some(overlay) => {
                &&& lots_items(*old(lots)).len() > 0
                &&& overlay == lots_items(*old(lots)).last()
                &&& lots_items(*final(lots)) == lots_items(*old(lots)).drop_last()
                &&& lots_ids(*final(lots)) == lots_ids(*old(lots)).drop_last()
            },
            None => {
                &&& lots_items(*old(lots)).len() == 0
                &&& lots_items(*final(lots)) == lots_items(*old(lots))
                &&& lots_ids(*final(lots)) == lots_ids(*old(lots))
            },
        },
{
    lots.pop()
}

/// Looks at the entry at `index` with `OrderedLots::get_by_index`.
#[verifier::external_body]
pub(crate) fn lots_get(lots: &OrderedLots<OverlayLayout>, index: usize) -> (entry: Option<
    &OverlayLayout,
>)
    ensures
        match entry {
            Some(overlay) => {
                &&& index < lots_items(*lots).len()
                &&& *overlay == lots_items(*lots)[index as int]
            },
            None => index >= lots_items(*lots).len(),
        },
{
    lots.get_by_index(index)
}

/// Takes an entry that is known to be there out of the `Option`, with
/// `intentional::Assert::assert_expected`.
///
/// Trusted: the entry comes out as it is. The call panics if there is none.
#[verifier::external_body]
pub(crate) fn expected<'a>(entry: Option<&'a OverlayLayout>) -> (overlay: &'a OverlayLayout)
    requires
        entry is Some,
    ensures
        entry == Some(overlay),
{
    entry.assert_expected()
}

/// Reaches the entry at `index` with `OrderedLots::get_mut_by_index`.
///
/// Trusted: what the entry is changed to takes its place; its id stays, and so
/// do the other entries.
#[verifier::external_body]
pub(crate) fn lots_get_mut(lots: &mut OrderedLots<OverlayLayout>, index: usize) -> (entry: Option<
    &mut OverlayLayout,
>)
    ensures
        match entry {
            Some(overlay) => {
                &&& index < lots_items(*old(lots)).len()
                &&& *overlay == lots_items(*old(lots))[index as int]
                &&& lots_items(*final(lots)) == lots_items(*old(lots)).update(
                    index as int,
                    *final(overlay),
                )
                &&& lots_ids(*final(lots)) == lots_ids(*old(lots))
            },
            None => {
                &&& index >= lots_items(*old(lots)).len()
                &&& lots_items(*final(lots)) == lots_items(*old(lots))
                &&& lots_ids(*final(lots)) == lots_ids(*old(lots))
            },
        },
{
    lots.get_mut_by_index(index)
}

/// Removes the entry at `index` with `OrderedLots::remove_by_index`, if there is
/// one.
///
/// Trusted: the entries after it move up, and keep their ids.
#[verifier::external_body]
pub(crate) fn lots_remove(lots: &mut OrderedLots<OverlayLayout>, index: usize) -> (removed: Option<
    (LotId, OverlayLayout),
>)
    ensures
        match removed {
            Some((id, overlay)) => {
                &&& index < lots_items(*old(lots)).len()
                &&& overlay == lots_items(*old(lots))[index as int]
                &&& id == lots_ids(*old(lots))[index as int]
                &&& lots_items(*final(lots)) == lots_items(*old(lots)).remove(index as int)
                &&& lots_ids(*final(lots)) == lots_ids(*old(lots)).remove(index as int)
            },
            None => {
                &&& index >= lots_items(*old(lots)).len()
                &&& lots_items(*final(lots)) == lots_items(*old(lots))
                &&& lots_ids(*final(lots)) == lots_ids(*old(lots))
            },
        },
{
    lots.remove_by_index(index)
}

/// Finds the entry with the id `id` by `OrderedLots::index_of_id`.
#[verifier::external_body]
pub(crate) fn lots_index_of(lots: &OrderedLots<OverlayLayout>, id: LotId) -> (index: Option<usize>)
    ensures
        match index {
            Some(index) => {
                &&& index < lots_ids(*lots).len()
                &&& lots_ids(*lots)[index as int] == id
                &&& forall|i: int| 0 <= i < index ==> lots_ids(*lots)[i] != id
            },
            None => !lots_ids(*lots).contains(id),
        },
{
    lots.index_of_id(id)
}

} // verus!
