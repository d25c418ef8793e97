//! The priority-ordered list that every scheduling queue is built on.
//!
//! A `List` holds references to task-owned list items, in ring order.  The
//! ring is a vector of entries closed by a conceptual end marker, whose key
//! is the maximum representable value and which the cursor position
//! `index == entries.len()` stands for.  An entry names its owning task and which of the
//! task's two items (state or event) it stands for; the sort key itself lives
//! in the task's [`ListItem`], so there is a single source of truth for it.

use vstd::prelude::*;

use crate::config::MAX_PRIORITIES;
use crate::port::{TickType, UBaseType};
use crate::task_control::with_container;
use crate::task_global::Kernel;

verus! {

/// One of a task's two membership records: the sort key, the owning task and
/// the list (if any) that currently links the item.  Lists are named by their
/// index in the kernel's list arena.
#[derive(Clone, Copy, Debug)]
pub struct ListItem {
    /// The value being listed: a wake time on delayed lists, an inverted
    /// priority on ready and event lists.
    pub item_value: TickType,
    /// The task that contains this list item.
    pub owner: usize,
    /// The list this item is currently placed in, if any.
    pub container: Option<usize>,
}

impl ListItem {
    /// A fresh, unlinked item.  The default value is the highest possible
    /// one, as carried by end markers.
    pub fn new() -> (r: ListItem)
        ensures
            r.item_value == TickType::MAX,
            r.owner == 0,
            r.container.is_none(),
    {
        ListItem { item_value: TickType::MAX, owner: 0, container: None }
    }

    /// Builder step: choose the sort key.
    pub fn item_value(self, item_value: TickType) -> (r: ListItem)
        ensures
            r == (ListItem { item_value, ..self }),
    {
        ListItem { item_value, ..self }
    }

    /// Builder step: choose the owning task.
    pub fn owner(self, owner: usize) -> (r: ListItem)
        ensures
            r == (ListItem { owner, ..self }),
    {
        ListItem { owner, ..self }
    }

    /// Record which list the item has been placed in.
    pub fn set_container(&mut self, container: usize)
        ensures
            *final(self) == (ListItem { container: Some(container), ..*old(self) }),
    {
        self.container = Some(container);
    }
}

/// Read a list item's sort key.
pub fn get_list_item_value(item: &ListItem) -> (r: TickType)
    ensures
        r == item.item_value,
{
    item.item_value
}

/// Set a list item's sort key.  The key orders the item at insertion time;
/// changing it does not reposition an already linked item.
pub fn set_list_item_value(item: &mut ListItem, item_value: TickType)
    ensures
        *final(item) == (ListItem { item_value, ..*old(item) }),
{
    item.item_value = item_value;
}

/// Read the owning task of a list item.
pub fn get_list_item_owner(item: &ListItem) -> (r: usize)
    ensures
        r == item.owner,
{
    item.owner
}

/// Set the owning task of a list item.
pub fn set_list_item_owner(item: &mut ListItem, owner: usize)
    ensures
        *final(item) == (ListItem { owner, ..*old(item) }),
{
    item.owner = owner;
}

/// The list an item is currently linked into, if any.
pub fn get_list_item_container(item: &ListItem) -> (r: Option<usize>)
    ensures
        r == item.container,
{
    item.container
}

/// One linked position in a list: the owning task, and whether the link is
/// through the task's state item (`true`) or its event item (`false`).
#[derive(Clone, Copy, Debug, PartialEq, Eq, Structural)]
pub struct ListEntry {
    pub owner: usize,
    pub is_state: bool,
}

/// A scheduling list: entries in ring order plus the round-robin cursor.
///
/// `index == entries.len()` means the cursor rests on the end marker, as it
/// does in a freshly initialised list.
#[derive(Clone, Debug)]
pub struct List {
    pub entries: Vec<ListEntry>,
    pub index: usize,
    pub number_of_items: UBaseType,
}

impl List {
    /// Structural soundness of one list: the item counter matches the ring
    /// and the cursor rests on an entry or on the end marker.
    pub open spec fn wf(&self) -> bool {
        &&& self.number_of_items == self.entries@.len()
        &&& self.index <= self.entries@.len()
    }

    /// An empty list with the cursor on the end marker.
    pub fn new() -> (l: List)
        ensures
            l.wf(),
            l.entries@ =~= Seq::<ListEntry>::empty(),
            l.index == 0,
    {
        List { entries: Vec::new(), index: 0, number_of_items: 0 }
    }

    /// True when the list links no items.
    pub fn is_empty(&self) -> (r: bool)
        requires
            self.wf(),
        ensures
            r == (self.entries@.len() == 0),
    {
        self.number_of_items == 0
    }

    /// The number of linked items.
    pub fn get_length(&self) -> (r: UBaseType)
        requires
            self.wf(),
        ensures
            r == self.entries@.len(),
    {
        self.number_of_items
    }

    /// Link `e` at ring position `pos`.  The cursor keeps resting on the same
    /// entry (or end marker) it rested on before.
    pub fn insert_at(&mut self, pos: usize, e: ListEntry)
        requires
            old(self).wf(),
            pos <= old(self).entries@.len(),
            old(self).entries@.len() < usize::MAX,
        ensures
            final(self).wf(),
            final(self).entries@ =~= old(self).entries@.insert(pos as int, e),
            final(self).index == if pos <= old(self).index {
                old(self).index + 1
            } else {
                old(self).index as int
            },
    {
        let move_cursor: bool = pos <= self.index;
        self.entries.insert(pos, e);
        if move_cursor {
            self.index = self.index + 1;
        }
        self.number_of_items = self.number_of_items + 1;
    }

    /// Link `e` immediately before the cursor, making it the last entry the
    /// round robin will reach before coming back to the current one.
    pub fn insert_end(&mut self, e: ListEntry)
        requires
            old(self).wf(),
            old(self).entries@.len() < usize::MAX,
        ensures
            final(self).wf(),
            final(self).entries@ =~= old(self).entries@.insert(old(self).index as int, e),
            final(self).index == old(self).index + 1,
    {
        let pos: usize = self.index;
        self.insert_at(pos, e);
    }

    /// Unlink the entry at ring position `pos`.  If the cursor rested on the
    /// removed entry it falls back to the previous position, so that the next
    /// round-robin step reaches the entry that followed the removed one.
    pub fn remove_at(&mut self, pos: usize)
        requires
            old(self).wf(),
            pos < old(self).entries@.len(),
        ensures
            final(self).wf(),
            final(self).entries@ =~= old(self).entries@.remove(pos as int),
            final(self).index == if pos < old(self).index {
                (old(self).index - 1) as int
            } else if pos == old(self).index {
                if pos == 0 {
                    old(self).entries@.len() - 1
                } else {
                    pos - 1
                }
            } else {
                old(self).index as int
            },
    {
        let old_index: usize = self.index;
        self.entries.remove(pos);
        self.number_of_items = self.number_of_items - 1;
        if pos < old_index {
            self.index = old_index - 1;
        } else if pos == old_index {
            if pos == 0 {
                self.index = self.entries.len();
            } else {
                self.index = pos - 1;
            }
        }
    }

    /// Where the cursor lands when advanced one step: the next entry in ring
    /// order, skipping the end marker.
    pub open spec fn next_index(&self) -> int {
        if self.index + 1 >= self.entries@.len() {
            0
        } else {
            self.index + 1
        }
    }

    /// Advance the cursor one step, wrapping past the end marker.
    pub fn increment_index(&mut self)
        requires
            old(self).wf(),
            old(self).entries@.len() > 0,
        ensures
            final(self).wf(),
            final(self).entries@ == old(self).entries@,
            final(self).index == old(self).next_index(),
    {
        if self.index >= self.entries.len() - 1 {
            self.index = 0;
        } else {
            self.index = self.index + 1;
        }
    }

    /// Advance the cursor and return the owner of the entry it lands on;
    /// repeated calls walk every linked item round robin.
    pub fn get_owner_of_next_entry(&mut self) -> (r: usize)
        requires
            old(self).wf(),
            old(self).entries@.len() > 0,
        ensures
            final(self).wf(),
            final(self).entries@ == old(self).entries@,
            final(self).index == old(self).next_index(),
            r == final(self).entries@[final(self).index as int].owner,
    {
        self.increment_index();
        self.entries[self.index].owner
    }

    /// The owner of the first linked entry.
    pub fn get_owner_of_head_entry(&self) -> (r: usize)
        requires
            self.wf(),
            self.entries@.len() > 0,
        ensures
            r == self.entries@[0].owner,
    {
        self.entries[0].owner
    }

    /// The ring position of the entry for `owner`'s state or event item, if
    /// that item is linked here.
    pub fn find_entry(&self, owner: usize, is_state: bool) -> (r: Option<usize>)
        requires
            self.wf(),
        ensures
            match r {
                Some(i) => i < self.entries@.len()
                    && self.entries@[i as int] == (ListEntry { owner, is_state }),
                None => forall|j: int| 0 <= j < self.entries@.len()
                    ==> self.entries@[j] != (ListEntry { owner, is_state }),
            },
    {
        let mut i: usize = 0;
        while i < self.entries.len()
            invariant
                self.wf(),
                i <= self.entries@.len(),
                forall|j: int| 0 <= j < i ==> self.entries@[j] != (ListEntry { owner, is_state }),
            decreases self.entries@.len() - i,
        {
            let e: ListEntry = self.entries[i];
            if e.owner == owner && e.is_state == is_state {
                return Some(i);
            }
            i = i + 1;
        }
        None
    }
}

/// `pos` is the sorted insertion position for key `v` in list `l`: every
/// entry before it carries a key at most `v`, and the entry at it (if any)
/// carries a larger one.  Items of equal key therefore go after the ones
/// already linked, which is what gives equal-priority tasks their round-robin
/// fairness.
pub open spec fn is_sorted_insert_pos(k: &Kernel, l: int, v: TickType, pos: int) -> bool {
    &&& 0 <= pos <= k.entries_of(l).len()
    &&& forall|j: int| 0 <= j < pos ==> k.entry_value(#[trigger] k.entries_of(l)[j]) <= v
    &&& (pos < k.entries_of(l).len() ==> k.entry_value(k.entries_of(l)[pos]) > v)
}

/// Walk list `l` from its head and return the sorted insertion position for
/// key `value`.
pub fn find_insert_position(k: &Kernel, l: usize, value: TickType) -> (pos: usize)
    requires
        k.lists_wf(),
        k.membership_wf(),
        l < k.lists@.len(),
    ensures
        is_sorted_insert_pos(k, l as int, value, pos as int),
{
    let n: usize = k.lists[l].entries.len();
    let mut i: usize = 0;
    while i < n
        invariant
            k.lists_wf(),
            k.membership_wf(),
            l < k.lists@.len(),
            n == k.entries_of(l as int).len(),
            i <= n,
            forall|j: int|
                0 <= j < i ==> k.entry_value(#[trigger] k.entries_of(l as int)[j]) <= value,
        decreases n - i,
    {
        let e: ListEntry = k.lists[l].entries[i];
        proof {
            assert(k.entries_of(l as int)[i as int] == e);
            assert(e.owner < k.tasks@.len());
        }
        let item_value: TickType = if e.is_state {
            k.tasks[e.owner].state_list_item.item_value
        } else {
            k.tasks[e.owner].event_list_item.item_value
        };
        if item_value > value {
            return i;
        }
        i = i + 1;
    }
    n
}

/// Link the chosen item of task `t` into list `l`, placed by ascending item
/// value, after items of equal value.  A sorted list stays sorted.
pub fn list_insert(k: &mut Kernel, l: usize, t: usize, is_state: bool)
    requires
        old(k).lists_wf(),
        old(k).membership_wf(),
        l < old(k).lists@.len(),
        t < old(k).tasks@.len(),
        old(k).container_of(t, is_state).is_none(),
        old(k).entries_of(l as int).len() < usize::MAX,
    ensures
        final(k).lists_wf(),
        final(k).membership_wf(),
        Kernel::same_scalars(old(k), final(k)),
        final(k).tasks@ == old(k).tasks@.update(
            t as int,
            with_container(old(k).tasks@[t as int], is_state, Some(l)),
        ),
        final(k).lists@.len() == old(k).lists@.len(),
        forall|x: int|
            0 <= x < old(k).lists@.len() && x != l ==> final(k).lists@[x] == old(k).lists@[x],
        forall|e: ListEntry|
            e.owner < old(k).tasks@.len() ==> #[trigger] final(k).entry_value(e) == old(k).entry_value(e),
        old(k).tasks_wf() ==> final(k).tasks_wf(),
        old(k).ready_wf() && (l >= MAX_PRIORITIES || (is_state && old(k).tasks@[t as int].task_priority == l && l <= old(k).top_ready_priority)) ==> final(k).ready_wf(),
        old(k).delayed_wf() && l != old(k).delayed_list
            && l != old(k).overflow_delayed_list ==> final(k).delayed_wf(),
        exists|pos: int|
            {
                &&& #[trigger] is_sorted_insert_pos(
                    old(k),
                    l as int,
                    old(k).item_of(t, is_state).item_value,
                    pos,
                )
                &&& final(k).entries_of(l as int) =~= old(k).entries_of(l as int).insert(
                    pos,
                    ListEntry { owner: t, is_state },
                )
                &&& final(k).lists@[l as int].index == if pos <= old(k).lists@[l as int].index {
                    old(k).lists@[l as int].index + 1
                } else {
                    old(k).lists@[l as int].index as int
                }
            },
        old(k).list_sorted(l as int) ==> final(k).list_sorted(l as int),
        forall|x: int|
            0 <= x < old(k).lists@.len() && x != l && old(k).list_sorted(x) ==> final(k).list_sorted(x),
{
    let ghost pre = *k;
    let value: TickType = if is_state {
        k.tasks[t].state_list_item.item_value
    } else {
        k.tasks[t].event_list_item.item_value
    };
    let pos: usize = find_insert_position(k, l, value);
    k.item_insert_at(l, pos, t, is_state);
    proof {
        let post = *k;
        let entry = ListEntry { owner: t, is_state };
        assert(is_sorted_insert_pos(&pre, l as int, value, pos as int));
        assert(post.entries_of(l as int) =~= pre.entries_of(l as int).insert(pos as int, entry));
        pre.entries_of(l as int).insert_ensures(pos as int, entry);
        if pre.list_sorted(l as int) {
            assert forall|j1: int, j2: int|
                0 <= j1 < j2 < post.entries_of(l as int).len() implies post.entry_value(
                #[trigger] post.entries_of(l as int)[j1],
            ) <= post.entry_value(#[trigger] post.entries_of(l as int)[j2]) by {
                let s = pre.entries_of(l as int);
                let p = pos as int;
                let v1 = post.entry_value(post.entries_of(l as int)[j1]);
                let v2 = post.entry_value(post.entries_of(l as int)[j2]);
                if j1 == p {
                    assert(post.entries_of(l as int)[j1] == entry);
                    let j2o = j2 - 1;
                    assert(post.entries_of(l as int)[j2] == s[j2o]);
                    if j2o == p {
                        assert(pre.entry_value(s[j2o]) > value);
                    } else {
                        assert(pre.entry_value(s[p]) > value);
                        assert(pre.entry_value(s[p]) <= pre.entry_value(s[j2o]));
                    }
                } else if j2 == p {
                    assert(post.entries_of(l as int)[j2] == entry);
                    assert(post.entries_of(l as int)[j1] == s[j1]);
                    assert(pre.entry_value(s[j1]) <= value);
                } else {
                    let j1o = if j1 < p {
                        j1
                    } else {
                        j1 - 1
                    };
                    let j2o = if j2 < p {
                        j2
                    } else {
                        j2 - 1
                    };
                    assert(post.entries_of(l as int)[j1] == s[j1o]);
                    assert(post.entries_of(l as int)[j2] == s[j2o]);
                    if j1o == j2o {
                        assert(false);
                    } else {
                        assert(pre.entry_value(s[j1o]) <= pre.entry_value(s[j2o]));
                    }
                }
            }
        }
        assert forall|x: int|
            0 <= x < pre.lists@.len() && x != l && pre.list_sorted(x) implies post.list_sorted(
            x,
        ) by {
            assert(post.entries_of(x) == pre.entries_of(x));
            assert forall|j1: int, j2: int|
                0 <= j1 < j2 < post.entries_of(x).len() implies post.entry_value(
                #[trigger] post.entries_of(x)[j1],
            ) <= post.entry_value(#[trigger] post.entries_of(x)[j2]) by {
                assert(pre.entry_value(pre.entries_of(x)[j1]) <= pre.entry_value(
                    pre.entries_of(x)[j2],
                ));
            }
        }
    }
}

/// Link the chosen item of task `t` into list `l` immediately before the
/// cursor: the round robin will reach every other linked item before coming
/// back to this one.  This is how ready lists get their FIFO order.
pub fn list_insert_end(k: &mut Kernel, l: usize, t: usize, is_state: bool)
    requires
        old(k).lists_wf(),
        old(k).membership_wf(),
        l < old(k).lists@.len(),
        t < old(k).tasks@.len(),
        old(k).container_of(t, is_state).is_none(),
        old(k).entries_of(l as int).len() < usize::MAX,
    ensures
        final(k).lists_wf(),
        final(k).membership_wf(),
        Kernel::same_scalars(old(k), final(k)),
        final(k).tasks@ == old(k).tasks@.update(
            t as int,
            with_container(old(k).tasks@[t as int], is_state, Some(l)),
        ),
        final(k).lists@.len() == old(k).lists@.len(),
        forall|x: int|
            0 <= x < old(k).lists@.len() && x != l ==> final(k).lists@[x] == old(k).lists@[x],
        final(k).entries_of(l as int) =~= old(k).entries_of(l as int).insert(
            old(k).lists@[l as int].index as int,
            ListEntry { owner: t, is_state },
        ),
        final(k).lists@[l as int].index == old(k).lists@[l as int].index + 1,
        forall|e: ListEntry|
            e.owner < old(k).tasks@.len() ==> #[trigger] final(k).entry_value(e) == old(k).entry_value(e),
        old(k).tasks_wf() ==> final(k).tasks_wf(),
        old(k).ready_wf() && (l >= MAX_PRIORITIES || (is_state && old(k).tasks@[t as int].task_priority == l && l <= old(k).top_ready_priority)) ==> final(k).ready_wf(),
        old(k).delayed_wf() && l != old(k).delayed_list
            && l != old(k).overflow_delayed_list ==> final(k).delayed_wf(),
{
    let pos: usize = k.lists[l].index;
    k.item_insert_at(l, pos, t, is_state);
}

/// Unlink the chosen item of task `t` from whatever list contains it and
/// return how many items remain there.
pub fn list_remove(k: &mut Kernel, t: usize, is_state: bool) -> (remaining: UBaseType)
    requires
        old(k).lists_wf(),
        old(k).membership_wf(),
        t < old(k).tasks@.len(),
        old(k).container_of(t, is_state).is_some(),
    ensures
        final(k).lists_wf(),
        final(k).membership_wf(),
        Kernel::same_scalars(old(k), final(k)),
        final(k).tasks@ == old(k).tasks@.update(
            t as int,
            with_container(old(k).tasks@[t as int], is_state, None),
        ),
        final(k).lists@.len() == old(k).lists@.len(),
        forall|x: int|
            0 <= x < old(k).lists@.len() && x != old(k).container_of(t, is_state).unwrap()
                ==> final(k).lists@[x] == old(k).lists@[x],
        ({
            let l = old(k).container_of(t, is_state).unwrap() as int;
            let j = old(k).entry_index(l, t, is_state);
            &&& 0 <= j < old(k).entries_of(l).len()
            &&& old(k).entries_of(l)[j] == (ListEntry { owner: t, is_state })
            &&& final(k).entries_of(l) =~= old(k).entries_of(l).remove(j)
            &&& remaining == final(k).entries_of(l).len()
            &&& final(k).lists@[l].index == if j < old(k).lists@[l].index {
                (old(k).lists@[l].index - 1) as int
            } else if j == old(k).lists@[l].index {
                if j == 0 {
                    old(k).entries_of(l).len() - 1
                } else {
                    j - 1
                }
            } else {
                old(k).lists@[l].index as int
            }
        }),
        forall|e: ListEntry|
            e.owner < old(k).tasks@.len() ==> #[trigger] final(k).entry_value(e) == old(k).entry_value(e),
        old(k).tasks_wf() ==> final(k).tasks_wf(),
        old(k).ready_wf() ==> final(k).ready_wf(),
        old(k).delayed_wf() ==> final(k).delayed_wf(),
        forall|x: int|
            0 <= x < old(k).lists@.len() && old(k).list_sorted(x) ==> final(k).list_sorted(x),
{
    k.item_remove(t, is_state)
}

/// True when list `l` links no items.
pub fn list_is_empty(k: &Kernel, l: usize) -> (r: bool)
    requires
        k.lists_wf(),
        l < k.lists@.len(),
    ensures
        r == (k.entries_of(l as int).len() == 0),
{
    k.lists[l].is_empty()
}

/// The number of items linked in list `l`.
pub fn current_list_length(k: &Kernel, l: usize) -> (r: UBaseType)
    requires
        k.lists_wf(),
        l < k.lists@.len(),
    ensures
        r == k.entries_of(l as int).len(),
{
    k.lists[l].get_length()
}

/// The first entry linked in list `l`.
pub fn get_head_entry(k: &Kernel, l: usize) -> (e: ListEntry)
    requires
        k.lists_wf(),
        l < k.lists@.len(),
        k.entries_of(l as int).len() > 0,
    ensures
        e == k.entries_of(l as int)[0],
{
    k.lists[l].entries[0]
}

/// The owner of the first item linked in list `l`.
pub fn get_owner_of_head_entry(k: &Kernel, l: usize) -> (r: usize)
    requires
        k.lists_wf(),
        l < k.lists@.len(),
        k.entries_of(l as int).len() > 0,
    ensures
        r == k.entries_of(l as int)[0].owner,
{
    k.lists[l].get_owner_of_head_entry()
}

/// Advance list `l`'s round-robin cursor and return the owner of the entry
/// it lands on.  Everything but that one cursor is unchanged.
pub fn get_owner_of_next_entry(k: &mut Kernel, l: usize) -> (r: usize)
    requires
        old(k).lists_wf(),
        l < old(k).lists@.len(),
        old(k).entries_of(l as int).len() > 0,
    ensures
        final(k).lists_wf(),
        Kernel::same_scalars(old(k), final(k)),
        final(k).tasks@ == old(k).tasks@,
        final(k).lists@.len() == old(k).lists@.len(),
        forall|x: int|
            0 <= x < old(k).lists@.len() && x != l ==> final(k).lists@[x] == old(k).lists@[x],
        final(k).entries_of(l as int) == old(k).entries_of(l as int),
        final(k).lists@[l as int].index == old(k).lists@[l as int].next_index(),
        r == final(k).entries_of(l as int)[final(k).lists@[l as int].index as int].owner,
        old(k).membership_wf() ==> final(k).membership_wf(),
        old(k).tasks_wf() ==> final(k).tasks_wf(),
        old(k).ready_wf() ==> final(k).ready_wf(),
        old(k).delayed_wf() ==> final(k).delayed_wf(),
        forall|x: int|
            0 <= x < old(k).lists@.len() && old(k).list_sorted(x) ==> final(k).list_sorted(x),
{
    let ghost pre = *k;
    let lst = &mut k.lists[l];
    let r: usize = lst.get_owner_of_next_entry();
    proof {
        let post = *k;
        assert forall|x: int| 0 <= x < pre.lists@.len() implies pre.entries_of(x)
            == post.entries_of(x) by {}
        crate::task_global::lemma_components_transfer(pre, post);
    }
    r
}

/// Whether the chosen item of task `t` is currently linked in list `l`.
pub fn is_contained_within(k: &Kernel, l: usize, t: usize, is_state: bool) -> (r: bool)
    requires
        t < k.tasks@.len(),
    ensures
        r == (k.container_of(t, is_state) == Some(l)),
{
    let c: Option<usize> = if is_state {
        k.tasks[t].state_list_item.container
    } else {
        k.tasks[t].event_list_item.container
    };
    match c {
        Some(x) => x == l,
        None => false,
    }
}

} // verus!
