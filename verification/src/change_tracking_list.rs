//! A list whose edits (pushes, moves and removals) are recorded so that they
//! can later be replayed on data that depends on the list's order.
use vstd::prelude::*;
use vstd::std_specs::iter::IteratorSpec;

verus! {

/// The mutable iterator over a slice, carried through as an opaque value.
#[verifier::external_type_specification]
#[verifier::external_body]
#[verifier::reject_recursive_types(T)]
pub struct ExIterMut<'a, T: 'a>(std::slice::IterMut<'a, T>);

/// One recorded edit of a [`ChangeTrackingVec`].
#[derive(PartialEq, Debug)]
pub enum Change<T> {
    /// An item was appended at the end.
    Pushed(),
    /// The items were reordered, with the order the list kept (see
    /// [`ChangeTrackingView::order`]): after a single move, entry `i` is the
    /// position before the move of the item that now stands at position `i`.
    Moved(Vec<usize>),
    /// The item at the given position was removed; it is handed back.
    Removed(usize, T),
}

/// The mathematical value of a [`Change`].
pub enum ChangeView<T> {
    Pushed,
    Moved(Seq<usize>),
    Removed(usize, T),
}

impl<T> View for Change<T> {
    type V = ChangeView<T>;

    open spec fn view(&self) -> ChangeView<T> {
        match self {
            Change::Pushed() => ChangeView::Pushed,
            Change::Moved(order) => ChangeView::Moved(order@),
            Change::Removed(idx, item) => ChangeView::Removed(*idx, *item),
        }
    }
}

/// The abstract state of a [`ChangeTrackingVec`].
pub struct ChangeTrackingView<T> {
    /// The items, in their current order.
    pub items: Seq<T>,
    /// The order kept since it was last recorded: the identity, updated by
    /// each move as [`order_after_move`] says. After a single move, entry `i`
    /// is where the item now at position `i` stood before; a later move only
    /// shifts entries by one, which does not compose two moves.
    pub order: Seq<usize>,
    /// The edits recorded and not yet taken.
    pub changes: Seq<ChangeView<T>>,
    /// Whether the items were moved since the order was last recorded.
    pub order_has_changed: bool,
}

/// `0, 1, ..., n - 1`: the order of a list that was not rearranged.
pub open spec fn identity_order(n: nat) -> Seq<usize> {
    Seq::new(n, |i: int| i as usize)
}

/// The sequence `s` with the element at `from` taken out and put back at `to`.
pub open spec fn moved_items<T>(s: Seq<T>, from: int, to: int) -> Seq<T> {
    s.remove(from).insert(to, s[from])
}

/// How [`ChangeTrackingVec::move_item`] updates the recorded order: the
/// entry at `to` becomes `from`, and the entries between the two positions
/// are shifted by one towards the place the moved item left.
pub open spec fn order_after_move(o: Seq<usize>, from: int, to: int) -> Seq<usize> {
    Seq::new(
        o.len(),
        |i: int|
            if i == to {
                from as usize
            } else if to < i <= from {
                (o[i] - 1) as usize
            } else if from <= i < to {
                (o[i] + 1) as usize
            } else {
                o[i]
            },
    )
}

/// The order recorded with a push or a removal: a pending reordering is
/// recorded first.
pub open spec fn pending_moves<T>(v: ChangeTrackingView<T>) -> Seq<ChangeView<T>> {
    if v.order_has_changed {
        seq![ChangeView::Moved(v.order)]
    } else {
        Seq::empty()
    }
}

/// The entries of `s` reordered by a recorded order: position `i` takes the
/// entry that stood at `order[i]`; a position the order does not fill is
/// left empty.
pub open spec fn reordered<T>(s: Seq<Option<T>>, order: Seq<usize>) -> Seq<Option<T>> {
    Seq::new(
        s.len(),
        |i: int|
            if i < order.len() && order[i] < s.len() {
                s[order[i] as int]
            } else {
                None
            },
    )
}

/// The recorded edits replayed on `s`: a push appends an empty slot, a
/// reordering reorders, a removal removes.
pub open spec fn replay<T>(s: Seq<Option<T>>, changes: Seq<ChangeView<T>>) -> Seq<Option<T>>
    decreases changes.len(),
{
    if changes.len() == 0 {
        s
    } else {
        let r = replay(s, changes.drop_last());
        match changes.last() {
            ChangeView::Pushed => r.push(None),
            ChangeView::Moved(order) => reordered(r, order),
            ChangeView::Removed(idx, _) => r.remove(idx as int),
        }
    }
}

/// Replaying edits one more at a time.
pub proof fn lemma_replay_append<T>(s: Seq<Option<T>>, cs: Seq<ChangeView<T>>, more: Seq<ChangeView<T>>)
    ensures
        replay(s, cs + more) == replay(replay(s, cs), more),
    decreases more.len(),
{
    if more.len() == 0 {
        assert(cs + more =~= cs);
    } else {
        lemma_replay_append(s, cs, more.drop_last());
        assert((cs + more).drop_last() =~= cs + more.drop_last());
        assert((cs + more).last() == more.last());
    }
}

/// The state of a list after [`ChangeTrackingVec::push`].
pub open spec fn after_push<T>(v: ChangeTrackingView<T>, item: T) -> ChangeTrackingView<T> {
    ChangeTrackingView {
        items: v.items.push(item),
        order: identity_order(v.items.len() + 1),
        changes: v.changes + pending_moves(v) + seq![ChangeView::<T>::Pushed],
        order_has_changed: false,
    }
}

/// The state of a list after [`ChangeTrackingVec::remove`] at `idx`.
pub open spec fn after_remove<T>(v: ChangeTrackingView<T>, idx: usize) -> ChangeTrackingView<T> {
    ChangeTrackingView {
        items: v.items.remove(idx as int),
        order: identity_order((v.items.len() - 1) as nat),
        changes: v.changes + pending_moves(v) + seq![ChangeView::Removed(idx, v.items[idx as int])],
        order_has_changed: false,
    }
}

/// The state of a list after [`ChangeTrackingVec::move_item`].
pub open spec fn after_move<T>(v: ChangeTrackingView<T>, from: int, to: int) -> ChangeTrackingView<T> {
    ChangeTrackingView {
        items: moved_items(v.items, from, to),
        order: order_after_move(v.order, from, to),
        order_has_changed: true,
        ..v
    }
}

/// The entries after the recorded edits and the pending reordering.
pub open spec fn replayed<T>(v: ChangeTrackingView<T>, base: Seq<T>) -> Seq<Option<T>> {
    let r = replay(base.map_values(|x: T| Some(x)), v.changes);
    if v.order_has_changed {
        reordered(r, v.order)
    } else {
        r
    }
}

/// Whether the edits recorded by a list, replayed on the items it started
/// from (`base`) together with a pending reordering, put every one of those
/// items where it stands now; the slots of pushed items stay empty.
pub open spec fn replays_to<T>(v: ChangeTrackingView<T>, base: Seq<T>) -> bool {
    &&& replayed(v, base).len() == v.items.len()
    &&& forall|i: int|
        0 <= i < v.items.len() && (#[trigger] replayed(v, base)[i]) is Some ==> replayed(v, base)[i]
            == Some(v.items[i])
}

/// Replaying a single edit.
proof fn lemma_replay_single<T>(r: Seq<Option<T>>, e: ChangeView<T>)
    ensures
        replay(r, seq![e]) == match e {
            ChangeView::Pushed => r.push(None),
            ChangeView::Moved(order) => reordered(r, order),
            ChangeView::Removed(idx, _) => r.remove(idx as int),
        },
{
    reveal_with_fuel(replay, 2);
    assert(seq![e].drop_last() =~= Seq::<ChangeView<T>>::empty());
    assert(seq![e].last() == e);
}

/// Recording the pending reordering, then one more edit, replays as the
/// pending reordering followed by that edit.
proof fn lemma_replay_flushed<T>(v: ChangeTrackingView<T>, base: Seq<T>, e: ChangeView<T>)
    ensures
        replay(
            base.map_values(|x: T| Some(x)),
            v.changes + pending_moves(v) + seq![e],
        ) == replay(replayed(v, base), seq![e]),
{
    let b = base.map_values(|x: T| Some(x));
    let r = replay(b, v.changes);
    lemma_replay_append(b, v.changes + pending_moves(v), seq![e]);
    lemma_replay_append(b, v.changes, pending_moves(v));
    assert(replay(r, pending_moves(v)) == replayed(v, base)) by {
        if v.order_has_changed {
            assert(pending_moves(v) == seq![ChangeView::<T>::Moved(v.order)]);
            lemma_replay_single(r, ChangeView::<T>::Moved(v.order));
        } else {
            assert(pending_moves(v) =~= Seq::<ChangeView<T>>::empty());
        }
    }
}

/// A push keeps the recorded edits replaying to the list.
pub proof fn lemma_push_replays<T>(v: ChangeTrackingView<T>, base: Seq<T>, item: T)
    requires
        replays_to(v, base),
    ensures
        replays_to(after_push(v, item), base),
{
    lemma_replay_flushed(v, base, ChangeView::<T>::Pushed);
    let cur = replayed(v, base);
    lemma_replay_single(cur, ChangeView::<T>::Pushed);
    let w = after_push(v, item);
    assert(replayed(w, base) =~= cur.push(None));
    assert forall|i: int| 0 <= i < w.items.len() && (#[trigger] replayed(w, base)[i]) is Some implies replayed(
        w,
        base,
    )[i] == Some(w.items[i]) by {
        assert(i < cur.len());
        assert(replayed(w, base)[i] == replayed(v, base)[i]);
        assert(w.items[i] == v.items[i]);
    }
}

/// A removal keeps the recorded edits replaying to the list.
pub proof fn lemma_remove_replays<T>(v: ChangeTrackingView<T>, base: Seq<T>, idx: usize)
    requires
        replays_to(v, base),
        idx < v.items.len(),
    ensures
        replays_to(after_remove(v, idx), base),
{
    lemma_replay_flushed(v, base, ChangeView::Removed(idx, v.items[idx as int]));
    let cur = replayed(v, base);
    lemma_replay_single(cur, ChangeView::Removed(idx, v.items[idx as int]));
    let w = after_remove(v, idx);
    assert(replayed(w, base) =~= cur.remove(idx as int));
    assert forall|i: int| 0 <= i < w.items.len() && (#[trigger] replayed(w, base)[i]) is Some implies replayed(
        w,
        base,
    )[i] == Some(w.items[i]) by {
        let oi = if i < idx { i } else { i + 1 };
        assert(replayed(w, base)[i] == replayed(v, base)[oi]);
        assert(w.items[i] == v.items[oi]);
    }
}

/// A move made while no other move is pending keeps the recorded edits
/// replaying to the list.
pub proof fn lemma_move_replays<T>(v: ChangeTrackingView<T>, base: Seq<T>, from: int, to: int)
    requires
        replays_to(v, base),
        !v.order_has_changed,
        v.order == identity_order(v.items.len()),
        0 <= from < v.items.len(),
        0 <= to < v.items.len(),
        v.items.len() <= usize::MAX,
    ensures
        replays_to(after_move(v, from, to), base),
{
    lemma_single_move_records_origins(v.items, from, to);
    let cur = replayed(v, base);
    let order = order_after_move(v.order, from, to);
    let w = after_move(v, from, to);
    assert(replayed(w, base) == reordered(cur, order));
    assert forall|i: int| 0 <= i < w.items.len() && (#[trigger] replayed(w, base)[i]) is Some implies replayed(
        w,
        base,
    )[i] == Some(w.items[i]) by {
        assert(0 <= order[i] < v.items.len());
        assert(replayed(w, base)[i] == replayed(v, base)[order[i] as int]);
        assert(moved_items(v.items, from, to)[i] == v.items[order[i] as int]);
    }
}

/// When no move is pending, a single [`ChangeTrackingVec::move_item`] records
/// an order that tells, for each new position, where its item came from:
/// the item now at position `i` is the one that stood at `order[i]`. The
/// entries stay within the list, and the move's preconditions on the order
/// hold for the identity order.
pub proof fn lemma_single_move_records_origins<T>(items: Seq<T>, from: int, to: int)
    requires
        0 <= from < items.len(),
        0 <= to < items.len(),
        items.len() <= usize::MAX,
    ensures
        ({
            let order = order_after_move(identity_order(items.len()), from, to);
            &&& order.len() == items.len()
            &&& forall|i: int|
                0 <= i < items.len() ==> 0 <= #[trigger] order[i] < items.len()
                    && moved_items(items, from, to)[i] == items[order[i] as int]
        }),
        forall|i: int| to < i <= from ==> identity_order(items.len())[i] > 0,
        forall|i: int| from <= i < to ==> identity_order(items.len())[i] < usize::MAX,
{
    let order = order_after_move(identity_order(items.len()), from, to);
    assert forall|i: int| 0 <= i < items.len() implies 0 <= #[trigger] order[i] < items.len()
        && moved_items(items, from, to)[i] == items[order[i] as int] by {
        let removed = items.remove(from);
        if i < to {
            if i < from {
                assert(removed[i] == items[i]);
            } else {
                assert(removed[i] == items[i + 1]);
            }
        } else if i > to {
            if i - 1 < from {
                assert(removed[i - 1] == items[i - 1]);
            } else {
                assert(removed[i - 1] == items[i]);
            }
        }
    }
}

/// Moving an item from `from` to `to` and then from `to` back to `from`
/// gives back the original items.
pub proof fn lemma_move_back_restores_items<T>(items: Seq<T>, from: int, to: int)
    requires
        0 <= from < items.len(),
        0 <= to < items.len(),
    ensures
        moved_items(moved_items(items, from, to), to, from) == items,
{
    let once = moved_items(items, from, to);
    assert(once[to] == items[from]);
    assert(once.remove(to) =~= items.remove(from));
    assert(moved_items(once, to, from) =~= items);
}

/// The number of pushes among the edits.
pub open spec fn push_count<T>(cs: Seq<ChangeView<T>>) -> nat
    decreases cs.len(),
{
    if cs.len() == 0 {
        0
    } else {
        push_count(cs.drop_last()) + if cs.last() is Pushed {
            1nat
        } else {
            0nat
        }
    }
}

/// One recorded edit replayed on the items `r`: a push appends
/// `pushed_item`, a reordering puts at each position `i` the item that stood
/// at `order[i]`, a removal removes the item at its position. `None` when
/// the edit does not fit `r`: an order of another length or with an entry
/// beyond the items, or a removal whose position is beyond the items or
/// holds another item than the one recorded.
pub open spec fn replay_edit<T>(r: Seq<T>, e: ChangeView<T>, pushed_item: T) -> Option<Seq<T>> {
    match e {
        ChangeView::Pushed => Some(r.push(pushed_item)),
        ChangeView::Moved(order) => if order.len() == r.len() && forall|i: int|
            0 <= i < order.len() ==> (#[trigger] order[i] as int) < r.len() {
            Some(Seq::new(r.len(), |i: int| r[order[i] as int]))
        } else {
            None
        },
        ChangeView::Removed(idx, item) => if (idx as int) < r.len() && r[idx as int] == item {
            Some(r.remove(idx as int))
        } else {
            None
        },
    }
}

/// The recorded edits replayed one after the other on `s`; the `k`-th push
/// appends `pushed[k]`. `None` when some edit does not fit.
pub open spec fn replay_items<T>(s: Seq<T>, cs: Seq<ChangeView<T>>, pushed: Seq<T>) -> Option<Seq<T>>
    decreases cs.len(),
{
    if cs.len() == 0 {
        Some(s)
    } else {
        match replay_items(s, cs.drop_last(), pushed) {
            Some(r) => replay_edit(r, cs.last(), pushed[push_count(cs.drop_last()) as int]),
            None => None,
        }
    }
}

/// Whether the edits recorded by a list, followed by its pending
/// reordering, replayed on the items it started from (`base`) with the
/// items pushed since (`pushed`, in order), fit at every step and end in
/// exactly the items the list holds now.
pub open spec fn replays_fully<T>(v: ChangeTrackingView<T>, base: Seq<T>, pushed: Seq<T>) -> bool {
    &&& pushed.len() == push_count(v.changes)
    &&& replay_items(base, v.changes + pending_moves(v), pushed) == Some(v.items)
}

/// Replaying one more edit.
proof fn lemma_replay_items_step<T>(s: Seq<T>, cs: Seq<ChangeView<T>>, e: ChangeView<T>, pushed: Seq<T>)
    ensures
        replay_items(s, cs.push(e), pushed) == match replay_items(s, cs, pushed) {
            Some(r) => replay_edit(r, e, pushed[push_count(cs) as int]),
            None => None,
        },
        push_count(cs.push(e)) == push_count(cs) + if e is Pushed {
            1nat
        } else {
            0nat
        },
{
    assert(cs.push(e).drop_last() =~= cs);
    assert(cs.push(e).last() == e);
}

/// Only the first pushed items that the edits push matter to a replay.
proof fn lemma_replay_items_pushed<T>(s: Seq<T>, cs: Seq<ChangeView<T>>, p: Seq<T>, q: Seq<T>)
    requires
        forall|k: int| 0 <= k < push_count(cs) ==> p[k] == q[k],
    ensures
        replay_items(s, cs, p) == replay_items(s, cs, q),
    decreases cs.len(),
{
    if cs.len() > 0 {
        let init = cs.drop_last();
        lemma_replay_items_pushed(s, init, p, q);
        assert(cs =~= init.push(cs.last()));
        lemma_replay_items_step(s, init, cs.last(), p);
        lemma_replay_items_step(s, init, cs.last(), q);
    }
}

/// The edits of a list and its pending reordering, followed by one more
/// edit; the pending reordering pushes nothing.
proof fn lemma_settled_then<T>(v: ChangeTrackingView<T>, e: ChangeView<T>)
    ensures
        (v.changes + pending_moves(v)).push(e) == v.changes + pending_moves(v) + seq![e],
        push_count(v.changes + pending_moves(v)) == push_count(v.changes),
{
    assert((v.changes + pending_moves(v)).push(e) =~= v.changes + pending_moves(v) + seq![e]);
    if v.order_has_changed {
        assert(v.changes + pending_moves(v) =~= v.changes.push(ChangeView::Moved(v.order)));
        lemma_replay_items_step(Seq::<T>::empty(), v.changes, ChangeView::Moved(v.order), Seq::empty());
    } else {
        assert(v.changes + pending_moves(v) =~= v.changes);
    }
}

/// A push keeps the full replay ending in the list's items, the pushed item
/// taken as the next one pushed.
pub proof fn lemma_push_replays_fully<T>(v: ChangeTrackingView<T>, base: Seq<T>, pushed: Seq<T>, item: T)
    requires
        replays_fully(v, base, pushed),
    ensures
        replays_fully(after_push(v, item), base, pushed.push(item)),
{
    let c = v.changes + pending_moves(v);
    let w = after_push(v, item);
    lemma_settled_then(v, ChangeView::<T>::Pushed);
    assert(pending_moves(w) =~= Seq::<ChangeView<T>>::empty());
    assert(w.changes + pending_moves(w) =~= c.push(ChangeView::<T>::Pushed));
    lemma_replay_items_pushed(base, c, pushed, pushed.push(item));
    lemma_replay_items_step(base, c, ChangeView::<T>::Pushed, pushed.push(item));
    lemma_replay_items_step(Seq::<T>::empty(), v.changes + pending_moves(v), ChangeView::<T>::Pushed, pushed);
    assert(w.changes == c.push(ChangeView::<T>::Pushed));
}

/// A removal keeps the full replay ending in the list's items: the removal
/// finds the removed item at its position.
pub proof fn lemma_remove_replays_fully<T>(v: ChangeTrackingView<T>, base: Seq<T>, pushed: Seq<T>, idx: usize)
    requires
        replays_fully(v, base, pushed),
        idx < v.items.len(),
    ensures
        replays_fully(after_remove(v, idx), base, pushed),
{
    let c = v.changes + pending_moves(v);
    let e = ChangeView::Removed(idx, v.items[idx as int]);
    let w = after_remove(v, idx);
    lemma_settled_then(v, e);
    assert(pending_moves(w) =~= Seq::<ChangeView<T>>::empty());
    assert(w.changes + pending_moves(w) =~= c.push(e));
    lemma_replay_items_step(base, c, e, pushed);
    assert(w.changes == c.push(e));
}

/// A move made while no other move is pending keeps the full replay ending
/// in the list's items: the pending reordering puts each item where it was
/// moved.
pub proof fn lemma_move_replays_fully<T>(v: ChangeTrackingView<T>, base: Seq<T>, pushed: Seq<T>, from: int, to: int)
    requires
        replays_fully(v, base, pushed),
        !v.order_has_changed,
        v.order == identity_order(v.items.len()),
        0 <= from < v.items.len(),
        0 <= to < v.items.len(),
        v.items.len() <= usize::MAX,
    ensures
        replays_fully(after_move(v, from, to), base, pushed),
{
    lemma_single_move_records_origins(v.items, from, to);
    let order = order_after_move(v.order, from, to);
    let e = ChangeView::<T>::Moved(order);
    let w = after_move(v, from, to);
    assert(v.changes + pending_moves(v) =~= v.changes);
    assert(w.changes + pending_moves(w) =~= v.changes.push(e));
    lemma_replay_items_step(base, v.changes, e, pushed);
    assert(Seq::new(v.items.len(), |i: int| v.items[order[i] as int]) =~= moved_items(v.items, from, to));
}

/// A list that records its edits.
pub struct ChangeTrackingVec<T> {
    current_changes: Vec<Change<T>>,
    items: Vec<T>,
    order_changes: Vec<usize>,
    order_has_changed: bool,
}

impl<T> View for ChangeTrackingVec<T> {
    type V = ChangeTrackingView<T>;

    closed spec fn view(&self) -> ChangeTrackingView<T> {
        ChangeTrackingView {
            items: self.items@,
            order: self.order_changes@,
            changes: self.current_changes@.map_values(|c: Change<T>| c@),
            order_has_changed: self.order_has_changed,
        }
    }
}

impl<T> ChangeTrackingVec<T> {
    /// Validity: one order entry per item, and the order is the identity
    /// whenever no move is pending.
    pub open spec fn wf(&self) -> bool {
        &&& self@.order.len() == self@.items.len()
        &&& !self@.order_has_changed ==> self@.order == identity_order(self@.items.len())
    }

    /// A list of the given items with no recorded edits.
    pub fn new(items: Vec<T>) -> (res: Self)
        ensures
            res.wf(),
            res@.items == items@,
            res@.order == identity_order(items@.len()),
            res@.changes == Seq::<ChangeView<T>>::empty(),
            !res@.order_has_changed,
            replays_to(res@, items@),
            replays_fully(res@, items@, Seq::empty()),
    {
        let mut order_changes = Vec::<usize>::with_capacity(items.len());
        let mut idx: usize = 0;
        while idx < items.len()
            invariant
                idx <= items@.len(),
                order_changes@ == identity_order(idx as nat),
            decreases items@.len() - idx,
        {
            order_changes.push(idx);
            idx = idx + 1;
        }
        let res = Self {
            current_changes: Vec::new(),
            order_changes,
            items,
            order_has_changed: false,
        };
        assert(res@.changes =~= Seq::<ChangeView<T>>::empty());
        assert(replay(items@.map_values(|x: T| Some(x)), res@.changes) == items@.map_values(
            |x: T| Some(x),
        ));
        assert(res@.changes + pending_moves(res@) =~= Seq::<ChangeView<T>>::empty());
        res
    }

    /// Appends an item, recording a pending reordering first and then the push.
    pub fn push(&mut self, item: T)
        requires
            old(self).wf(),
        ensures
            final(self).wf(),
            final(self)@.items == old(self)@.items.push(item),
            final(self)@.order == identity_order(old(self)@.items.len() + 1),
            !final(self)@.order_has_changed,
            final(self)@.changes == old(self)@.changes + pending_moves(old(self)@)
                + seq![ChangeView::<T>::Pushed],
            forall|base: Seq<T>| #[trigger] replays_to(old(self)@, base) ==> replays_to(final(self)@, base),
            forall|base: Seq<T>, pushed: Seq<T>|
                #[trigger] replays_fully(old(self)@, base, pushed) ==> replays_fully(
                    final(self)@,
                    base,
                    pushed.push(item),
                ),
    {
        let ghost old_view = self@;
        if let Some(order_changes) = self.flush_order_changes() {
            self.current_changes.push(Change::Moved(order_changes));
        }
        assert(self@.changes == old_view.changes + pending_moves(old_view));
        self.items.push(item);
        let last = self.items.len() - 1;
        self.order_changes.push(last);
        self.current_changes.push(Change::Pushed());
        assert(self@.order =~= identity_order(old_view.items.len() + 1));
        assert(self@.items == after_push(old_view, item).items);
        assert(self@.changes == after_push(old_view, item).changes);
        assert(self@ == after_push(old_view, item));
        assert forall|base: Seq<T>| #[trigger] replays_to(old_view, base) implies replays_to(self@, base) by {
            lemma_push_replays(old_view, base, item);
        }
        assert forall|base: Seq<T>, pushed: Seq<T>| #[trigger] replays_fully(old_view, base, pushed) implies replays_fully(
            self@,
            base,
            pushed.push(item),
        ) by {
            lemma_push_replays_fully(old_view, base, pushed, item);
        }
    }

    /// Moves the item at `from` to position `to`, updating the recorded order.
    pub fn move_item(&mut self, from: usize, to: usize)
        requires
            old(self).wf(),
            from < old(self)@.items.len(),
            to < old(self)@.items.len(),
            forall|i: int| to < i <= from ==> old(self)@.order[i] > 0,
            forall|i: int| from <= i < to ==> old(self)@.order[i] < usize::MAX,
        ensures
            final(self).wf(),
            final(self)@.items == moved_items(old(self)@.items, from as int, to as int),
            final(self)@.order == order_after_move(old(self)@.order, from as int, to as int),
            final(self)@.order_has_changed,
            final(self)@.changes == old(self)@.changes,
            forall|base: Seq<T>|
                #[trigger] replays_to(old(self)@, base) && !old(self)@.order_has_changed ==> replays_to(
                    final(self)@,
                    base,
                ),
            forall|base: Seq<T>, pushed: Seq<T>|
                #[trigger] replays_fully(old(self)@, base, pushed) && !old(self)@.order_has_changed
                    ==> replays_fully(final(self)@, base, pushed),
    {
        let ghost old_view = self@;
        let ghost old_order = self.order_changes@;
        let ghost old_items = self.items@;
        let n = self.order_changes.len();
        let item = self.items.remove(from);
        self.items.insert(to, item);
        assert(self.items@ =~= moved_items(old_items, from as int, to as int));
        let ghost new_items = self.items@;
        if from > to {
            self.order_changes[to] = from;
            let mut i: usize = to + 1;
            while i <= from
                invariant
                    n == old_order.len(),
                    to < from < n,
                    self.items@ == new_items,
                    self.current_changes == old(self).current_changes,
                    to + 1 <= i <= from + 1,
                    self.order_changes@.len() == old_order.len(),
                    forall|j: int| to < j <= from ==> old_order[j] > 0,
                    forall|j: int|
                        0 <= j < old_order.len() ==> #[trigger] self.order_changes@[j] == if j
                            == to {
                            from
                        } else if to < j < i {
                            (old_order[j] - 1) as usize
                        } else {
                            old_order[j]
                        },
                decreases from + 1 - i,
            {
                let v = self.order_changes[i];
                self.order_changes[i] = v - 1;
                i = i + 1;
            }
        } else {
            self.order_changes[to] = from;
            let mut i: usize = from;
            while i < to
                invariant
                    n == old_order.len(),
                    from <= to < n,
                    self.items@ == new_items,
                    self.current_changes == old(self).current_changes,
                    from <= i <= to,
                    self.order_changes@.len() == old_order.len(),
                    forall|j: int| from <= j < to ==> old_order[j] < usize::MAX,
                    forall|j: int|
                        0 <= j < old_order.len() ==> #[trigger] self.order_changes@[j] == if j
                            == to {
                            from
                        } else if from <= j < i {
                            (old_order[j] + 1) as usize
                        } else {
                            old_order[j]
                        },
                decreases to - i,
            {
                let v = self.order_changes[i];
                self.order_changes[i] = v + 1;
                i = i + 1;
            }
        }
        self.order_has_changed = true;
        assert(self@.order =~= order_after_move(old_order, from as int, to as int));
        assert(self@ == after_move(old_view, from as int, to as int));
        assert forall|base: Seq<T>|
            #[trigger] replays_to(old_view, base) && !old_view.order_has_changed implies replays_to(
            self@,
            base,
        ) by {
            lemma_move_replays(old_view, base, from as int, to as int);
        }
        assert forall|base: Seq<T>, pushed: Seq<T>|
            #[trigger] replays_fully(old_view, base, pushed) && !old_view.order_has_changed implies replays_fully(
            self@,
            base,
            pushed,
        ) by {
            lemma_move_replays_fully(old_view, base, pushed, from as int, to as int);
        }
    }

    /// Removes the item at `idx`, recording a pending reordering first and
    /// then the removal together with the removed item.
    pub fn remove(&mut self, idx: usize)
        requires
            old(self).wf(),
            idx < old(self)@.items.len(),
        ensures
            final(self).wf(),
            final(self)@.items == old(self)@.items.remove(idx as int),
            final(self)@.order == identity_order((old(self)@.items.len() - 1) as nat),
            !final(self)@.order_has_changed,
            final(self)@.changes == old(self)@.changes + pending_moves(old(self)@) + seq![
                ChangeView::Removed(idx, old(self)@.items[idx as int]),
            ],
            forall|base: Seq<T>| #[trigger] replays_to(old(self)@, base) ==> replays_to(final(self)@, base),
            forall|base: Seq<T>, pushed: Seq<T>|
                #[trigger] replays_fully(old(self)@, base, pushed) ==> replays_fully(final(self)@, base, pushed),
    {
        let ghost old_view = self@;
        if let Some(order_changes) = self.flush_order_changes() {
            self.current_changes.push(Change::Moved(order_changes));
        }
        assert(self@.changes == old_view.changes + pending_moves(old_view));
        let removed = self.items.remove(idx);
        self.order_changes.remove(idx);
        // order changes before the removal have already been recorded
        self.reset_order();
        self.current_changes.push(Change::Removed(idx, removed));
        assert(self@.items == after_remove(old_view, idx).items);
        assert(self@.changes == after_remove(old_view, idx).changes);
        assert(self@ == after_remove(old_view, idx));
        assert forall|base: Seq<T>| #[trigger] replays_to(old_view, base) implies replays_to(self@, base) by {
            lemma_remove_replays(old_view, base, idx);
        }
        assert forall|base: Seq<T>, pushed: Seq<T>| #[trigger] replays_fully(old_view, base, pushed) implies replays_fully(
            self@,
            base,
            pushed,
        ) by {
            lemma_remove_replays_fully(old_view, base, pushed, idx);
        }
    }

    /// The items, in their current order.
    pub fn iter(&self) -> (res: std::slice::Iter<'_, T>)
        ensures
            res.remaining() == self@.items.as_ref(),
    {
        broadcast use vstd::std_specs::slice::axiom_spec_slice_iter;
        self.items.as_slice().iter()
    }

    /// The items, to be changed in place through the returned iterator.
    ///
    /// Trusted: the body calls `<[T]>::iter_mut` of std, which hands out a
    /// mutable reference to each existing item and cannot add or remove
    /// items. The contract says that the number of items, the recorded order
    /// and the recorded edits stay as they were; what the caller writes
    /// through the iterator is left unsaid.
    #[verifier::external_body]
    pub fn iter_mut(&mut self) -> (res: std::slice::IterMut<'_, T>)
        requires
            old(self).wf(),
        ensures
            final(self)@.items.len() == old(self)@.items.len(),
            final(self)@.order == old(self)@.order,
            final(self)@.changes == old(self)@.changes,
            final(self)@.order_has_changed == old(self)@.order_has_changed,
    {
        self.items.iter_mut()
    }

    /// Changes the items in place to as many new ones, as edits made to the
    /// items themselves do; no edit of the list is recorded.
    pub fn update_items(&mut self, items: Vec<T>)
        requires
            old(self).wf(),
            items@.len() == old(self)@.items.len(),
        ensures
            final(self).wf(),
            final(self)@ == (ChangeTrackingView { items: items@, ..old(self)@ }),
    {
        self.items = items;
    }

    /// Changes the item at `idx` in place; no edit of the list is recorded.
    pub fn set_item(&mut self, idx: usize, item: T)
        requires
            old(self).wf(),
            idx < old(self)@.items.len(),
        ensures
            final(self).wf(),
            final(self)@ == (ChangeTrackingView {
                items: old(self)@.items.update(idx as int, item),
                ..old(self)@
            }),
    {
        self.items.set(idx, item);
    }

    /// The number of items.
    pub fn len(&self) -> (res: usize)
        ensures
            res == self@.items.len(),
    {
        self.items.len()
    }

    /// The items, in their current order.
    pub fn items(&self) -> (res: &Vec<T>)
        ensures
            res@ == self@.items,
    {
        &self.items
    }

    /// For each current position, where its item stood when the order was
    /// last recorded.
    pub fn order_changes(&self) -> (res: &Vec<usize>)
        ensures
            res@ == self@.order,
    {
        &self.order_changes
    }

    /// The edits recorded and not yet taken.
    pub fn current_changes(&self) -> (res: &Vec<Change<T>>)
        ensures
            res@.map_values(|c: Change<T>| c@) == self@.changes,
    {
        &self.current_changes
    }

    /// Whether the items were moved since the order was last recorded.
    pub fn order_has_changed(&self) -> (res: bool)
        ensures
            res == self@.order_has_changed,
    {
        self.order_has_changed
    }

    /// Hands out the recorded edits and forgets them.
    pub fn get_current_changes(&mut self) -> (res: Vec<Change<T>>)
        requires
            old(self).wf(),
        ensures
            final(self).wf(),
            res@.map_values(|c: Change<T>| c@) == old(self)@.changes,
            final(self)@ == (ChangeTrackingView { changes: Seq::empty(), ..old(self)@ }),
            !old(self)@.order_has_changed ==> replays_to(final(self)@, final(self)@.items),
            !old(self)@.order_has_changed ==> replays_fully(final(self)@, final(self)@.items, Seq::empty()),
    {
        let mut empty_changes: Vec<Change<T>> = Vec::new();
        std::mem::swap(&mut self.current_changes, &mut empty_changes);
        assert(self@.changes =~= Seq::<ChangeView<T>>::empty());
        assert(replay(self@.items.map_values(|x: T| Some(x)), self@.changes) == self@.items.map_values(
            |x: T| Some(x),
        ));
        assert(!self@.order_has_changed ==> self@.changes + pending_moves(self@) =~= Seq::<ChangeView<T>>::empty());
        empty_changes
    }

    /// If the items were moved since the order was last recorded, returns
    /// that order and starts a new one from the current positions.
    pub fn flush_order_changes(&mut self) -> (res: Option<Vec<usize>>)
        requires
            old(self).wf(),
        ensures
            final(self).wf(),
            old(self)@.order_has_changed <==> res is Some,
            res matches Some(order) ==> order@ == old(self)@.order,
            final(self)@ == (ChangeTrackingView {
                order: identity_order(old(self)@.items.len()),
                order_has_changed: false,
                ..old(self)@
            }),
    {
        if self.order_has_changed {
            let mut order_changes = Vec::<usize>::with_capacity(self.items.len());
            let mut i: usize = 0;
            while i < self.order_changes.len()
                invariant
                    i <= self.order_changes@.len(),
                    order_changes@ == self.order_changes@.take(i as int),
                decreases self.order_changes@.len() - i,
            {
                order_changes.push(self.order_changes[i]);
                i = i + 1;
                assert(order_changes@ =~= self.order_changes@.take(i as int));
            }
            assert(order_changes@ =~= self.order_changes@);
            self.reset_order();
            self.order_has_changed = false;
            return Some(order_changes);
        }
        None
    }

    /// Makes the recorded order the identity.
    fn reset_order(&mut self)
        ensures
            final(self)@ == (ChangeTrackingView {
                order: identity_order(old(self)@.order.len()),
                ..old(self)@
            }),
    {
        let ghost len = self.order_changes@.len();
        let mut idx: usize = 0;
        while idx < self.order_changes.len()
            invariant
                self.order_changes@.len() == len,
                idx <= len,
                forall|j: int| 0 <= j < idx ==> self.order_changes@[j] == j,
                self.items == old(self).items,
                self.current_changes == old(self).current_changes,
                self.order_has_changed == old(self).order_has_changed,
            decreases len - idx,
        {
            self.order_changes[idx] = idx;
            idx = idx + 1;
        }
        assert(self.order_changes@ =~= identity_order(len));
    }
}

} // verus!
