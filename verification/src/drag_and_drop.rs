//! A reorderable list of a term's parts that records how it was edited,
//! and the edits of such a list as handed to the propagation of a term's
//! changes.
use vstd::prelude::*;
use crate::change_tracking_list::{
    self, after_push, after_remove, identity_order, moved_items, order_after_move, ChangeTrackingVec,
    ChangeTrackingView, ChangeView,
};

verus! {

/// One edit of a reorderable list.
#[derive(Clone, PartialEq, Debug)]
pub enum Change<T> {
    /// The given item was appended at the end.
    Pushed(T),
    /// The items were reordered, with the order the list kept: after a
    /// single move, entry `i` is the position before the move of the item
    /// that now stands at position `i`.
    Moved(Vec<usize>),
    /// The item at the given position was removed.
    Removed(usize, T),
}

/// What an edit does to the positions of a list, whatever its items.
pub enum ListEdit {
    Pushed,
    Moved(Seq<usize>),
    Removed(usize),
}

impl<T> Change<T> {
    /// What this edit does to the positions of a list.
    pub open spec fn edit(&self) -> ListEdit {
        match self {
            Change::Pushed(_) => ListEdit::Pushed,
            Change::Moved(order) => ListEdit::Moved(order@),
            Change::Removed(idx, _) => ListEdit::Removed(*idx),
        }
    }
}

/// The position edits of a sequence of edits.
pub open spec fn edits_of<T>(changes: Seq<Change<T>>) -> Seq<ListEdit> {
    changes.map_values(|c: Change<T>| c.edit())
}


/// The position a dragged item lands at when dropped at `target`: the last
/// position if `target` is past the end.
pub open spec fn landing_position(len: nat, target: nat) -> nat {
    if target < len {
        target
    } else {
        (len - 1) as nat
    }
}

/// Whether the recorded order lets the item at `from` move to `to`: the
/// entries it shifts down are positive, and those it shifts up can grow.
pub open spec fn move_allowed<T>(list: ChangeTrackingView<T>, from: int, to: int) -> bool {
    &&& forall|i: int| to < i <= from ==> list.order[i] > 0
    &&& forall|i: int| from <= i < to ==> list.order[i] < usize::MAX
}

/// The mathematical value of a [`DragAndDrop`].
pub struct DragAndDropView<T> {
    /// Whether the list can be edited.
    pub active: bool,
    /// The items and their recorded edits.
    pub list: ChangeTrackingView<T>,
}

/// A list that the user can edit (push, remove, drag items) while it is
/// active, and that records the edits.
pub struct DragAndDrop<T> {
    active: bool,
    items: ChangeTrackingVec<T>,
}

impl<T> View for DragAndDrop<T> {
    type V = DragAndDropView<T>;

    closed spec fn view(&self) -> DragAndDropView<T> {
        DragAndDropView { active: self.active, list: self.items@ }
    }
}

/// The order a single move reports: the positions `0, ..., len - 1` with the
/// one at `from` taken out and put back at `to`.
pub fn single_move_order(len: usize, from: usize, to: usize) -> (res: Vec<usize>)
    requires
        from < len,
        to < len,
    ensures
        res@ == moved_items(identity_order(len as nat), from as int, to as int),
{
    let mut moves: Vec<usize> = Vec::with_capacity(len);
    let mut idx: usize = 0;
    while idx < len
        invariant
            idx <= len,
            moves@ == identity_order(idx as nat),
        decreases len - idx,
    {
        moves.push(idx);
        idx = idx + 1;
        assert(moves@ =~= identity_order(idx as nat));
    }
    let moved = moves.remove(from);
    moves.insert(to, moved);
    moves
}

/// The order a single move reports is the order the list records for it,
/// when no other move is pending.
pub proof fn lemma_single_move_order_is_recorded(len: nat, from: int, to: int)
    requires
        0 <= from < len,
        0 <= to < len,
        len <= usize::MAX,
    ensures
        moved_items(identity_order(len), from, to) == order_after_move(identity_order(len), from, to),
{
    let id = identity_order(len);
    let removed = id.remove(from);
    let moved = moved_items(id, from, to);
    assert forall|i: int| 0 <= i < len implies moved[i] == order_after_move(id, from, to)[i] by {
        if i < to {
            if i < from {
                assert(removed[i] == id[i]);
            } else {
                assert(removed[i] == id[i + 1]);
            }
        } else if i > to {
            if i - 1 < from {
                assert(removed[i - 1] == id[i - 1]);
            } else {
                assert(removed[i - 1] == id[i]);
            }
        }
    }
    assert(moved =~= order_after_move(id, from, to));
}

impl<T> DragAndDrop<T> {
    /// Validity: the list underneath is valid.
    pub closed spec fn wf(&self) -> bool {
        self.items.wf()
    }

    /// An inactive list of the given items, with no recorded edits.
    pub fn new(items: Vec<T>) -> (res: Self)
        ensures
            res.wf(),
            !res@.active,
            res@.list.items == items@,
            res@.list.order == identity_order(items@.len()),
            res@.list.changes == Seq::<ChangeView<T>>::empty(),
            !res@.list.order_has_changed,
    {
        Self { active: false, items: ChangeTrackingVec::new(items) }
    }

    /// Makes the list editable.
    pub fn unlock(&mut self)
        requires
            old(self).wf(),
        ensures
            final(self).wf(),
            final(self)@ == (DragAndDropView { active: true, ..old(self)@ }),
    {
        self.active = true;
    }

    /// Ends the editing: the list is no longer editable, and the edits
    /// recorded so far are handed out and forgotten.
    pub fn lock(&mut self) -> (res: Vec<change_tracking_list::Change<T>>)
        requires
            old(self).wf(),
        ensures
            final(self).wf(),
            res@.map_values(|c: change_tracking_list::Change<T>| c@) == old(self)@.list.changes,
            final(self)@ == (DragAndDropView {
                active: false,
                list: ChangeTrackingView { changes: Seq::empty(), ..old(self)@.list },
            }),
    {
        self.active = false;
        self.items.get_current_changes()
    }

    /// Whether the list can be edited.
    pub fn is_active(&self) -> (res: bool)
        ensures
            res == self@.active,
    {
        self.active
    }

    /// The items, in their current order.
    pub fn items(&self) -> (res: &Vec<T>)
        ensures
            res@ == self@.list.items,
    {
        self.items.items()
    }

    /// The number of items.
    pub fn len(&self) -> (res: usize)
        ensures
            res == self@.list.items.len(),
    {
        self.items.len()
    }

    /// Changes the items in place to as many new ones; no edit of the list
    /// is recorded.
    pub fn update_items(&mut self, items: Vec<T>)
        requires
            old(self).wf(),
            items@.len() == old(self)@.list.items.len(),
        ensures
            final(self).wf(),
            final(self)@ == (DragAndDropView {
                list: ChangeTrackingView { items: items@, ..old(self)@.list },
                ..old(self)@
            }),
    {
        self.items.update_items(items);
    }

    /// Changes the item at `idx` in place; no edit of the list is recorded.
    pub fn set_item(&mut self, idx: usize, item: T)
        requires
            old(self).wf(),
            idx < old(self)@.list.items.len(),
        ensures
            final(self).wf(),
            final(self)@ == (DragAndDropView {
                list: ChangeTrackingView {
                    items: old(self)@.list.items.update(idx as int, item),
                    ..old(self)@.list
                },
                ..old(self)@
            }),
    {
        self.items.set_item(idx, item);
    }

    /// Appends an item, recording the push.
    pub fn push(&mut self, item: T)
        requires
            old(self).wf(),
        ensures
            final(self).wf(),
            final(self)@.active == old(self)@.active,
            final(self)@.list.items == old(self)@.list.items.push(item),
            final(self)@.list.order == identity_order(old(self)@.list.items.len() + 1),
            !final(self)@.list.order_has_changed,
            final(self)@.list.changes == old(self)@.list.changes + change_tracking_list::pending_moves(
                old(self)@.list,
            ) + seq![ChangeView::<T>::Pushed],
            final(self)@ == (DragAndDropView { list: after_push(old(self)@.list, item), ..old(self)@ }),
    {
        self.items.push(item);
    }

    /// Removes the item at `idx`, recording the removal.
    pub fn remove(&mut self, idx: usize)
        requires
            old(self).wf(),
            idx < old(self)@.list.items.len(),
        ensures
            final(self).wf(),
            final(self)@.active == old(self)@.active,
            final(self)@.list.items == old(self)@.list.items.remove(idx as int),
            final(self)@.list.order == identity_order((old(self)@.list.items.len() - 1) as nat),
            !final(self)@.list.order_has_changed,
            final(self)@.list.changes == old(self)@.list.changes + change_tracking_list::pending_moves(
                old(self)@.list,
            ) + seq![ChangeView::Removed(idx, old(self)@.list.items[idx as int])],
            final(self)@ == (DragAndDropView { list: after_remove(old(self)@.list, idx), ..old(self)@ }),
    {
        self.items.remove(idx);
    }

    /// Drops the item dragged from `from` at position `target` (the last
    /// position if `target` is past the end). An inactive list does not
    /// move; otherwise the item moves when it lands elsewhere, and the move
    /// is returned as its old and new positions.
    pub fn drag_to(&mut self, from: usize, target: usize) -> (res: Option<(usize, usize)>)
        requires
            old(self).wf(),
            from < old(self)@.list.items.len(),
            old(self)@.active ==> move_allowed(
                old(self)@.list,
                from as int,
                landing_position(old(self)@.list.items.len(), target as nat) as int,
            ),
        ensures
            final(self).wf(),
            ({
                let to = landing_position(old(self)@.list.items.len(), target as nat);
                if old(self)@.active && to != from {
                    &&& res == Some((from, to as usize))
                    &&& final(self)@ == (DragAndDropView {
                        list: ChangeTrackingView {
                            items: moved_items(old(self)@.list.items, from as int, to as int),
                            order: order_after_move(old(self)@.list.order, from as int, to as int),
                            order_has_changed: true,
                            ..old(self)@.list
                        },
                        ..old(self)@
                    })
                } else {
                    &&& res is None
                    &&& final(self)@ == old(self)@
                }
            }),
    {
        if !self.active {
            return None;
        }
        let last = self.items.len() - 1;
        let to = if target < last {
            target
        } else {
            last
        };
        if to != from {
            self.items.move_item(from, to);
            return Some((from, to));
        }
        None
    }
}

} // verus!
