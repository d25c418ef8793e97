//! Event-list plumbing shared by the blocking queues: the overflow-safe
//! timeout tracker, parking a task on an event list, waking the head waiter,
//! and mutex priority inheritance and disinheritance.

use vstd::prelude::*;

use crate::config::MAX_PRIORITIES;
use crate::list::{list_insert, list_remove, get_owner_of_head_entry};
use crate::port::{TickType, UBaseType, portMAX_DELAY};
use crate::task_control::TaskHandle;
use crate::task_global::{Kernel, lemma_components_transfer, PENDING_READY_LIST};

verus! {

/// Marks an event-list item value as borrowed for another purpose; priority
/// changes must then leave it alone.
pub const taskEVENT_LIST_ITEM_VALUE_IN_USE: TickType = 0x8000_0000;

/// One wait attempt's bookkeeping: when it started and in which tick epoch.
#[derive(Clone, Copy, Debug, PartialEq, Eq, Structural)]
pub struct time_out {
    pub overflow_count: crate::port::BaseType,
    pub time_on_entering: TickType,
}

impl time_out {
    /// A blank record, to be armed by [`task_set_time_out_state`].
    pub fn new() -> (r: time_out)
        ensures
            r.overflow_count == 0,
            r.time_on_entering == 0,
    {
        time_out { overflow_count: 0, time_on_entering: 0 }
    }
}

/// Arm a wait: capture the current tick and overflow epoch.
pub fn task_set_time_out_state(k: &Kernel, pxtimeout: &mut time_out)
    ensures
        final(pxtimeout).overflow_count == k.num_of_overflows,
        final(pxtimeout).time_on_entering == k.tick_count,
{
    pxtimeout.overflow_count = k.num_of_overflows;
    pxtimeout.time_on_entering = k.tick_count;
}

/// The ticks that have elapsed since `entering`, on the wrapping counter.
pub open spec fn elapsed_since(now: TickType, entering: TickType) -> int {
    if now >= entering {
        now - entering
    } else {
        now + 0x1_0000_0000 - entering
    }
}

/// Has this wait expired?  An aborted wait has; an indefinite wait never
/// does; a wait spanning a counter overflow is treated as a fresh window;
/// otherwise the wait expires once the elapsed ticks reach the remaining
/// budget, and a wait that goes on has its budget decremented and its entry
/// tick re-armed.
pub fn task_check_for_timeout(k: &mut Kernel, pxtimeout: &mut time_out, ticks_to_wait: &mut TickType) -> (expired: bool)
    requires
        old(k).wf(),
        old(k).current_task.is_some(),
    ensures
        final(k).wf(),
        final(k).lists@ == old(k).lists@,
        final(k).tick_count == old(k).tick_count,
        final(k).current_task == old(k).current_task,
        final(k).scheduler_suspended == old(k).scheduler_suspended,
        final(k).scheduler_running == old(k).scheduler_running,
        final(k).next_task_unblock_time == old(k).next_task_unblock_time,
        final(k).delayed_list == old(k).delayed_list,
        final(k).overflow_delayed_list == old(k).overflow_delayed_list,
        final(k).yield_pending == old(k).yield_pending,
        final(k).pended_ticks == old(k).pended_ticks,
        final(k).num_of_overflows == old(k).num_of_overflows,
        ({
            let cur = old(k).current_task.unwrap() as int;
            let aborted = old(k).tasks@[cur].delay_aborted;
            let elapsed = elapsed_since(old(k).tick_count, old(pxtimeout).time_on_entering);
            if aborted {
                &&& expired
                &&& final(k).tasks@ == old(k).tasks@.update(
                    cur,
                    (crate::task_control::task_control_block {
                        delay_aborted: false,
                        ..old(k).tasks@[cur]
                    }),
                )
                &&& *final(pxtimeout) == *old(pxtimeout)
                &&& *final(ticks_to_wait) == *old(ticks_to_wait)
            } else {
                &&& final(k).tasks@ == old(k).tasks@
                &&& if *old(ticks_to_wait) == portMAX_DELAY {
                    &&& !expired
                    &&& *final(pxtimeout) == *old(pxtimeout)
                    &&& *final(ticks_to_wait) == *old(ticks_to_wait)
                } else if old(k).num_of_overflows != old(pxtimeout).overflow_count && old(k).tick_count >= old(pxtimeout).time_on_entering {
                    &&& !expired
                    &&& *final(pxtimeout) == *old(pxtimeout)
                    &&& *final(ticks_to_wait) == *old(ticks_to_wait)
                } else if elapsed < *old(ticks_to_wait) {
                    &&& !expired
                    &&& *final(ticks_to_wait) == *old(ticks_to_wait) - elapsed
                    &&& final(pxtimeout).time_on_entering == old(k).tick_count
                    &&& final(pxtimeout).overflow_count == old(k).num_of_overflows
                } else {
                    &&& expired
                    &&& *final(pxtimeout) == *old(pxtimeout)
                    &&& *final(ticks_to_wait) == *old(ticks_to_wait)
                }
            }
        }),
{
    let cur: usize = match k.current_task {
        Some(c) => c,
        None => 0,
    };
    let handle = TaskHandle(cur);
    if handle.get_delay_aborted(k) {
        handle.set_delay_aborted(k, false);
        return true;
    }
    if *ticks_to_wait == portMAX_DELAY {
        return false;
    }
    if k.num_of_overflows != pxtimeout.overflow_count && k.tick_count
        >= pxtimeout.time_on_entering {
        return false;
    }
    let now: TickType = k.tick_count;
    let entering: TickType = pxtimeout.time_on_entering;
    let elapsed: TickType = if now >= entering {
        now - entering
    } else {
        now + (portMAX_DELAY - entering)  + 1
    };
    if elapsed < *ticks_to_wait {
        *ticks_to_wait = *ticks_to_wait - elapsed;
        task_set_time_out_state(k, pxtimeout);
        false
    } else {
        true
    }
}

/// Drop a pending context-switch request.
pub fn task_missed_yield(k: &mut Kernel)
    requires
        old(k).wf(),
    ensures
        final(k).wf(),
        !final(k).yield_pending,
        final(k).lists@ == old(k).lists@,
        final(k).tasks@ == old(k).tasks@,
        final(k).tick_count == old(k).tick_count,
        final(k).current_task == old(k).current_task,
        final(k).scheduler_suspended == old(k).scheduler_suspended,
        final(k).scheduler_running == old(k).scheduler_running,
        final(k).pended_ticks == old(k).pended_ticks,
        final(k).num_of_overflows == old(k).num_of_overflows,
        final(k).next_task_unblock_time == old(k).next_task_unblock_time,
        final(k).delayed_list == old(k).delayed_list,
        final(k).overflow_delayed_list == old(k).overflow_delayed_list,
{
    let ghost pre = *k;
    k.yield_pending = false;
    proof {
        assert forall|x: int| 0 <= x < pre.lists@.len() implies pre.entries_of(x) == k.entries_of(
            x,
        ) by {}
        lemma_components_transfer(pre, *k);
    }
}

/// Count one more mutex held by the current task and hand its handle back,
/// for storage as the mutex holder.
pub fn task_increment_mutex_held_count(k: &mut Kernel) -> (r: Option<TaskHandle>)
    requires
        old(k).wf(),
        match old(k).current_task {
            Some(c) => old(k).tasks@[c as int].mutexes_held < UBaseType::MAX,
            None => true,
        },
    ensures
        final(k).wf(),
        final(k).lists@ == old(k).lists@,
        final(k).tick_count == old(k).tick_count,
        final(k).current_task == old(k).current_task,
        final(k).scheduler_suspended == old(k).scheduler_suspended,
        final(k).scheduler_running == old(k).scheduler_running,
        final(k).yield_pending == old(k).yield_pending,
        final(k).next_task_unblock_time == old(k).next_task_unblock_time,
        final(k).delayed_list == old(k).delayed_list,
        final(k).overflow_delayed_list == old(k).overflow_delayed_list,
        final(k).pended_ticks == old(k).pended_ticks,
        final(k).num_of_overflows == old(k).num_of_overflows,
        match old(k).current_task {
            Some(c) => r == Some(TaskHandle(c)) && final(k).tasks@ == old(k).tasks@.update(
                c as int,
                (crate::task_control::task_control_block {
                    mutexes_held: (old(k).tasks@[c as int].mutexes_held + 1) as UBaseType,
                    ..old(k).tasks@[c as int]
                }),
            ),
            None => r.is_none() && final(k).tasks@ == old(k).tasks@,
        },
{
    match k.current_task {
        Some(c) => {
            let handle = TaskHandle(c);
            let held: UBaseType = handle.get_mutex_held_count(k);
            handle.set_mutex_held_count(k, held + 1);
            Some(handle)
        },
        None => None,
    }
}

/// Wake the highest-priority task waiting on `event_list`: unlink its event
/// item and make it ready — or, while the scheduler is suspended, park the
/// event item on the pending-ready list for resume to finish the job.
/// Returns whether the woken task outranks the caller, in which case a
/// yield is also latched.
pub fn task_remove_from_event_list(k: &mut Kernel, event_list: usize) -> (higher: bool)
    requires
        old(k).wf(),
        old(k).current_task.is_some(),
        event_list < old(k).lists@.len(),
        event_list >= crate::task_global::NUM_KERNEL_LISTS,
        old(k).entries_of(event_list as int).len() > 0,
        !old(k).entries_of(event_list as int)[0].is_state,
        old(k).container_of(old(k).entries_of(event_list as int)[0].owner, true) != Some(
            event_list,
        ),
    ensures
        final(k).wf(),
        final(k).current_task == old(k).current_task,
        final(k).tick_count == old(k).tick_count,
        final(k).scheduler_suspended == old(k).scheduler_suspended,
        final(k).scheduler_running == old(k).scheduler_running,
        final(k).pended_ticks == old(k).pended_ticks,
        final(k).num_of_overflows == old(k).num_of_overflows,
        final(k).next_task_unblock_time == old(k).next_task_unblock_time,
        final(k).delayed_list == old(k).delayed_list,
        final(k).overflow_delayed_list == old(k).overflow_delayed_list,
        final(k).tasks@.len() == old(k).tasks@.len(),
        final(k).lists@.len() == old(k).lists@.len(),
        forall|x: int|
            crate::task_global::NUM_KERNEL_LISTS <= x < old(k).lists@.len() ==> final(k).entries_of(x).len() <= old(k).entries_of(x).len(),
        ({
            let t = old(k).entries_of(event_list as int)[0].owner;
            &&& final(k).entries_of(event_list as int) =~= old(k).entries_of(
                event_list as int,
            ).remove(0)
            &&& (old(k).scheduler_suspended == 0 ==> final(k).container_of(t, true) == Some(
                old(k).tasks@[t as int].task_priority as usize,
            ) && final(k).container_of(t, false).is_none())
            &&& (old(k).scheduler_suspended > 0 ==> final(k).container_of(t, false) == Some(
                PENDING_READY_LIST,
            ))
            &&& higher == (old(k).tasks@[t as int].task_priority > old(k).tasks@[old(k).current_task.unwrap() as int].task_priority)
            &&& final(k).yield_pending == (old(k).yield_pending || higher)
            &&& forall|t2: usize|
                t2 < old(k).tasks@.len() && t2 != t ==> (#[trigger] final(k).container_of(
                    t2,
                    true,
                )) == old(k).container_of(t2, true) && final(k).container_of(t2, false) == old(k).container_of(t2, false)
            &&& forall|t2: int|
                0 <= t2 < old(k).tasks@.len() ==> (#[trigger] final(k).tasks@[t2]).task_priority
                    == old(k).tasks@[t2].task_priority && final(k).tasks@[t2].base_priority == old(k).tasks@[t2].base_priority && final(k).tasks@[t2].mutexes_held == old(k).tasks@[t2].mutexes_held
        }),
{
    let ghost pre = *k;
    let e: crate::list::ListEntry = crate::list::get_head_entry(k, event_list);
    let t: usize = e.owner;
    proof {
        assert(pre.entries_of(event_list as int)[0] == e);
        assert(t < pre.tasks@.len());
        assert(pre.container_of(t, false) == Some(event_list));
        let j0 = pre.entry_index(event_list as int, t, false);
        assert(pre.entries_of(event_list as int)[j0] == e);
        assert(j0 == 0);
    }
    list_remove(k, t, false);
    let handle = TaskHandle(t);
    if k.scheduler_suspended == 0 {
        let st: Option<usize> = k.tasks[t].state_list_item.container;
        proof {
            // unlinking the event item left the state container as it was,
            // which the caller showed is not this list
            assert(st != Some(event_list));
        }
        if st.is_some() {
            list_remove(k, t, true);
        }
        let res = handle.add_task_to_ready_list(k);
        proof {
            assert(res.is_ok());
        }
    } else {
        proof {
            crate::task_global::lemma_list_len_bound(k, PENDING_READY_LIST as int);
        }
        crate::list::list_insert_end(k, PENDING_READY_LIST, t, false);
    }
    let higher: bool = {
        let cur: usize = match k.current_task {
            Some(c) => c,
            None => 0,
        };
        let hp: UBaseType = handle.get_priority(k);
        let cp: UBaseType = TaskHandle(cur).get_priority(k);
        hp > cp
    };
    if higher {
        let ghost pre2 = *k;
        k.yield_pending = true;
        proof {
            assert forall|x: int| 0 <= x < pre2.lists@.len() implies pre2.entries_of(x)
                == k.entries_of(x) by {}
            lemma_components_transfer(pre2, *k);
        }
    }
    proof {
        // every list outside the kernel's own can only have lost entries:
        // the event and state items were unlinked and the task re-entered a
        // ready list or the pending-ready list, all below the queue range
        assert forall|x: int|
            crate::task_global::NUM_KERNEL_LISTS <= x < pre.lists@.len() implies k.entries_of(
            x,
        ).len() <= pre.entries_of(x).len() by {}
    }
    higher
}

/// Park the current task on `event_list`, ordered by priority so the most
/// urgent waiter is woken first, then block it on the delayed list for
/// `ticks_to_wait` ticks (or indefinitely for the maximum wait).
pub fn task_place_on_event_list(k: &mut Kernel, event_list: usize, ticks_to_wait: TickType)
    requires
        old(k).wf(),
        old(k).current_task.is_some(),
        event_list >= crate::task_global::NUM_KERNEL_LISTS,
        event_list < old(k).lists@.len(),
        old(k).container_of(old(k).current_task.unwrap(), false).is_none(),
        old(k).container_of(old(k).current_task.unwrap(), true).is_some(),
        old(k).container_of(old(k).current_task.unwrap(), true) != Some(event_list),
    ensures
        final(k).wf(),
        final(k).current_task == old(k).current_task,
        final(k).tick_count == old(k).tick_count,
        final(k).scheduler_suspended == old(k).scheduler_suspended,
        final(k).scheduler_running == old(k).scheduler_running,
        final(k).pended_ticks == old(k).pended_ticks,
        final(k).num_of_overflows == old(k).num_of_overflows,
        final(k).lists@.len() == old(k).lists@.len(),
        final(k).tasks@.len() == old(k).tasks@.len(),
        forall|t2: int|
            0 <= t2 < old(k).tasks@.len() ==> {
                &&& (#[trigger] final(k).tasks@[t2]).task_priority == old(k).tasks@[t2].task_priority
                &&& final(k).tasks@[t2].base_priority == old(k).tasks@[t2].base_priority
                &&& final(k).tasks@[t2].mutexes_held == old(k).tasks@[t2].mutexes_held
            },
        ({
            let t = old(k).current_task.unwrap();
            &&& final(k).container_of(t, false) == Some(event_list)
            &&& final(k).has_entry(event_list as int, t, false)
            &&& final(k).tasks@[t as int].delay_aborted == false
            &&& exists|pos: int|
                {
                    &&& #[trigger] crate::list::is_sorted_insert_pos(
                        old(k),
                        event_list as int,
                        old(k).tasks@[t as int].event_list_item.item_value,
                        pos,
                    )
                    &&& final(k).entries_of(event_list as int) =~= old(k).entries_of(
                        event_list as int,
                    ).insert(pos, crate::list::ListEntry { owner: t, is_state: false })
                }
            &&& (ticks_to_wait == portMAX_DELAY ==> final(k).container_of(t, true) == Some(
                crate::task_global::SUSPENDED_TASK_LIST,
            ))
            &&& (ticks_to_wait != portMAX_DELAY ==> ({
                let wake = (old(k).tick_count + ticks_to_wait) as int % 0x1_0000_0000;
                &&& final(k).tasks@[t as int].state_list_item.item_value == wake
                &&& (wake >= old(k).tick_count ==> final(k).container_of(t, true) == Some(
                    final(k).delayed_list,
                ))
                &&& (wake < old(k).tick_count ==> final(k).container_of(t, true) == Some(
                    final(k).overflow_delayed_list,
                ))
            }))
            &&& final(k).delayed_list == old(k).delayed_list
            &&& final(k).overflow_delayed_list == old(k).overflow_delayed_list
        }),
{
    let t: usize = match k.current_task {
        Some(c) => c,
        None => 0,
    };
    proof {
        crate::task_global::lemma_list_len_bound(k, event_list as int);
    }
    list_insert(k, event_list, t, false);
    proof {
        assert(k.ready_wf());
        assert(k.delayed_wf());
    }
    crate::task_control::add_current_task_to_delayed_list(k, ticks_to_wait, true);
}

/// Raise a mutex holder's priority to the calling task's when the holder is
/// less urgent; a holder waiting in a ready list moves to the ready list of
/// its new priority.  `base_priority` is untouched, so disinheritance can
/// undo this exactly.
pub fn task_priority_inherit(k: &mut Kernel, mutex_holder: Option<TaskHandle>)
    requires
        old(k).wf(),
        old(k).current_task.is_some(),
        match mutex_holder {
            Some(h) => h.0 < old(k).tasks@.len(),
            None => true,
        },
    ensures
        final(k).wf(),
        final(k).current_task == old(k).current_task,
        final(k).tick_count == old(k).tick_count,
        final(k).scheduler_suspended == old(k).scheduler_suspended,
        final(k).scheduler_running == old(k).scheduler_running,
        final(k).pended_ticks == old(k).pended_ticks,
        final(k).num_of_overflows == old(k).num_of_overflows,
        final(k).tasks@.len() == old(k).tasks@.len(),
        final(k).lists@.len() == old(k).lists@.len(),
        forall|t2: int|
            0 <= t2 < old(k).tasks@.len() ==> (#[trigger] final(k).tasks@[t2]).delay_aborted
                == old(k).tasks@[t2].delay_aborted && final(k).tasks@[t2].mutexes_held == old(k).tasks@[t2].mutexes_held,
        ({
            match mutex_holder {
                Some(h) => {
                    let hp = old(k).tasks@[h.0 as int].task_priority;
                    let cp = old(k).tasks@[old(k).current_task.unwrap() as int].task_priority;
                    &&& final(k).tasks@[h.0 as int].task_priority == if hp < cp {
                        cp
                    } else {
                        hp
                    }
                    &&& final(k).tasks@[h.0 as int].base_priority == old(k).tasks@[h.0 as int].base_priority
                    &&& (hp >= cp ==> *final(k) == *old(k))
                    &&& (hp < cp && old(k).container_of(h.0, true) == Some(hp as usize)
                        ==> final(k).container_of(h.0, true) == Some(cp as usize))
                    &&& (hp < cp && old(k).container_of(h.0, true) != Some(hp as usize)
                        ==> final(k).container_of(h.0, true) == old(k).container_of(h.0, true))
                    &&& forall|t2: usize|
                        t2 < old(k).tasks@.len() && t2 != h.0 ==> (#[trigger] final(k).container_of(t2, true)) == old(k).container_of(t2, true) && final(k).container_of(t2, false) == old(k).container_of(t2, false)
                    &&& forall|t2: int|
                        0 <= t2 < old(k).tasks@.len() && t2 != h.0 ==> (#[trigger] final(k).tasks@[t2]).task_priority == old(k).tasks@[t2].task_priority && final(k).tasks@[t2].base_priority == old(k).tasks@[t2].base_priority
                },
                None => *final(k) == *old(k),
            }
        }),
{
    let holder: TaskHandle = match mutex_holder {
        Some(h) => h,
        None => {
            return ;
        },
    };
    let cur: usize = match k.current_task {
        Some(c) => c,
        None => 0,
    };
    let current_priority: UBaseType = TaskHandle(cur).get_priority(k);
    let this_priority: UBaseType = holder.get_priority(k);
    proof {
        assert(k.task_ok(cur as int));
        assert(k.task_ok(holder.0 as int));
    }
    if this_priority < current_priority {
        // leave a borrowed event item value alone, else re-key it to the
        // inherited priority
        let ev_val: TickType = k.tasks[holder.0].event_list_item.item_value;
        if ev_val & taskEVENT_LIST_ITEM_VALUE_IN_USE == 0 {
            set_event_item_value(k, holder.0, (MAX_PRIORITIES - current_priority) as TickType);
        }
        let in_ready: bool = crate::list::is_contained_within(
            k,
            this_priority as usize,
            holder.0,
            true,
        );
        proof {
            // a task linked in any ready list sits in the one matching its
            // priority
            if !in_ready {
                if k.container_of(holder.0, true).is_some() {
                    let l = k.container_of(holder.0, true).unwrap();
                    if l < MAX_PRIORITIES {
                        let j = k.entry_index(l as int, holder.0, true);
                        assert(k.has_entry(l as int, holder.0, true));
                        assert(k.entries_of(l as int)[j] == (crate::list::ListEntry {
                            owner: holder.0,
                            is_state: true,
                        }));
                        assert(k.ready_entry_ok(l as int, j));
                        assert(l == this_priority);
                        assert(false);
                    }
                }
            }
        }
        if in_ready {
            list_remove(k, holder.0, true);
            holder.set_priority(k, current_priority);
            let res = holder.add_task_to_ready_list(k);
            proof {
                assert(res.is_ok());
            }
        } else {
            holder.set_priority(k, current_priority);
        }
    }
}

/// Re-key a task's event item; sorting happens at the next insertion.
pub(crate) fn set_event_item_value(k: &mut Kernel, t: usize, v: TickType)
    requires
        old(k).wf(),
        t < old(k).tasks@.len(),
    ensures
        final(k).wf(),
        final(k).lists@ == old(k).lists@,
        final(k).tasks@ == old(k).tasks@.update(
            t as int,
            (crate::task_control::task_control_block {
                event_list_item: crate::list::ListItem {
                    item_value: v,
                    ..old(k).tasks@[t as int].event_list_item
                },
                ..old(k).tasks@[t as int]
            }),
        ),
        Kernel::same_scalars(old(k), final(k)),
{
    let ghost pre = *k;
    let tcb = &mut k.tasks[t];
    tcb.event_list_item.item_value = v;
    proof {
        let post = *k;
        assert forall|t2: int| 0 <= t2 < post.tasks@.len() implies #[trigger] post.task_ok(t2) by {
            assert(pre.task_ok(t2));
        }
        assert forall|t2: usize, st: bool|
            #![trigger post.container_of(t2, st)]
            t2 < post.tasks@.len() ==> post.container_of(t2, st) == pre.container_of(t2, st) by {}
        // membership is about containers only
        assert forall|t2: usize, st: bool|
            t2 < post.tasks@.len() && (#[trigger] post.container_of(t2, st)).is_some() implies {
            &&& post.container_of(t2, st).unwrap() < post.lists@.len()
            &&& post.has_entry(post.container_of(t2, st).unwrap() as int, t2, st)
        } by {
            let e = crate::list::ListEntry { owner: t2, is_state: st };
            let l = pre.container_of(t2, st).unwrap() as int;
            let j = choose|j: int| 0 <= j < pre.entries_of(l).len() && pre.entries_of(l)[j] == e;
            assert(post.entries_of(l)[j] == e);
        }
        assert forall|l: int, j: int|
            0 <= l < post.lists@.len() && 0 <= j < post.entries_of(l).len() implies {
            &&& (#[trigger] post.entries_of(l)[j]).owner < post.tasks@.len()
            &&& post.container_of(
                post.entries_of(l)[j].owner,
                post.entries_of(l)[j].is_state,
            ) == Some(l as usize)
        } by {
            assert(post.entries_of(l)[j] == pre.entries_of(l)[j]);
            assert(pre.container_of(pre.entries_of(l)[j].owner, pre.entries_of(l)[j].is_state)
                == Some(l as usize));
        }
        assert forall|l: int, j1: int, j2: int|
            0 <= l < post.lists@.len() && 0 <= j1 < post.entries_of(l).len() && 0 <= j2
                < post.entries_of(l).len() && #[trigger] post.entries_of(l)[j1]
                == #[trigger] post.entries_of(l)[j2] implies j1 == j2 by {
            assert(post.entries_of(l)[j1] == pre.entries_of(l)[j1]);
            assert(post.entries_of(l)[j2] == pre.entries_of(l)[j2]);
        }
        assert forall|l: int| 0 <= l < post.lists@.len() implies (
        #[trigger] post.lists@[l]).wf() by {
            assert(pre.lists@[l].wf());
        }
        assert forall|p2: int|
            post.top_ready_priority < p2 < crate::config::MAX_PRIORITIES implies (
        #[trigger] post.entries_of(p2)).len() == 0 by {
            assert(pre.entries_of(p2).len() == 0);
        }
        assert forall|p2: int, j: int|
            #![trigger post.entries_of(p2)[j]]
            0 <= p2 < MAX_PRIORITIES && 0 <= j < post.entries_of(p2).len() implies post
            .ready_entry_ok(p2, j) by {
            assert(pre.ready_entry_ok(p2, j));
        }
        // delayed lists read state item values, which are untouched
        let d = post.delayed_list as int;
        let o = post.overflow_delayed_list as int;
        assert forall|j1: int, j2: int|
            0 <= j1 < j2 < post.entries_of(d).len() implies post.entry_value(
            #[trigger] post.entries_of(d)[j1],
        ) <= post.entry_value(#[trigger] post.entries_of(d)[j2]) by {
            assert(pre.entries_of(d)[j1].is_state);
            assert(pre.entries_of(d)[j2].is_state);
            assert(pre.entries_of(d)[j1].owner < pre.tasks@.len());
            assert(pre.entry_value(pre.entries_of(d)[j1]) <= pre.entry_value(
                pre.entries_of(d)[j2],
            ));
            if pre.entries_of(d)[j1].owner == t {
                assert(post.entry_value(post.entries_of(d)[j1]) == pre.entry_value(
                    pre.entries_of(d)[j1],
                ));
            }
            if pre.entries_of(d)[j2].owner == t {
                assert(post.entry_value(post.entries_of(d)[j2]) == pre.entry_value(
                    pre.entries_of(d)[j2],
                ));
            }
        }
        assert forall|j1: int, j2: int|
            0 <= j1 < j2 < post.entries_of(o).len() implies post.entry_value(
            #[trigger] post.entries_of(o)[j1],
        ) <= post.entry_value(#[trigger] post.entries_of(o)[j2]) by {
            assert(pre.entries_of(o)[j1].is_state);
            assert(pre.entries_of(o)[j2].is_state);
            assert(pre.entries_of(o)[j1].owner < pre.tasks@.len());
            assert(pre.entry_value(pre.entries_of(o)[j1]) <= pre.entry_value(
                pre.entries_of(o)[j2],
            ));
        }
        assert forall|j: int|
            0 <= j < post.entries_of(d).len() implies (#[trigger] post.entries_of(d)[j]).is_state by {
            assert(pre.entries_of(d)[j].is_state);
        }
        assert forall|j: int|
            0 <= j < post.entries_of(o).len() implies (#[trigger] post.entries_of(o)[j]).is_state by {
            assert(pre.entries_of(o)[j].is_state);
        }
        if post.entries_of(d).len() > 0 {
            assert(pre.entries_of(d)[0].is_state);
            assert(post.entry_value(post.entries_of(d)[0]) == pre.entry_value(
                pre.entries_of(d)[0],
            ));
        }
    }
}

/// Undo priority inheritance on releasing a mutex: one fewer mutex held,
/// and once none are held a priority raised by inheritance drops back to
/// exactly `base_priority`, re-entering the matching ready list.  Returns
/// whether the caller should force a context switch, which matters when
/// mutexes are released in a different order than they were taken.
pub fn task_priority_disinherit(k: &mut Kernel, mutex_holder: Option<TaskHandle>) -> (yield_needed: bool)
    requires
        old(k).wf(),
        match mutex_holder {
            Some(h) => h.0 < old(k).tasks@.len() && old(k).tasks@[h.0 as int].mutexes_held > 0,
            None => true,
        },
    ensures
        final(k).wf(),
        final(k).current_task == old(k).current_task,
        final(k).tick_count == old(k).tick_count,
        final(k).scheduler_suspended == old(k).scheduler_suspended,
        final(k).scheduler_running == old(k).scheduler_running,
        final(k).pended_ticks == old(k).pended_ticks,
        final(k).num_of_overflows == old(k).num_of_overflows,
        final(k).tasks@.len() == old(k).tasks@.len(),
        final(k).lists@.len() == old(k).lists@.len(),
        forall|x: int|
            crate::task_global::NUM_KERNEL_LISTS <= x < old(k).lists@.len() ==> final(k).entries_of(x) == old(k).entries_of(x),
        ({
            match mutex_holder {
                Some(h) => {
                    let held2 = old(k).tasks@[h.0 as int].mutexes_held - 1;
                    let hp = old(k).tasks@[h.0 as int].task_priority;
                    let bp = old(k).tasks@[h.0 as int].base_priority;
                    let restore = hp != bp && held2 == 0;
                    &&& final(k).tasks@[h.0 as int].mutexes_held == held2
                    &&& final(k).tasks@[h.0 as int].base_priority == bp
                    &&& final(k).tasks@[h.0 as int].task_priority == if restore {
                        bp
                    } else {
                        hp
                    }
                    &&& yield_needed == restore
                    &&& (!restore ==> final(k).lists@ == old(k).lists@)
                    &&& (restore && old(k).container_of(h.0, true) == Some(hp as usize)
                        ==> final(k).container_of(h.0, true) == Some(bp as usize))
                    &&& (restore && old(k).container_of(h.0, true) != Some(hp as usize)
                        ==> final(k).container_of(h.0, true) == old(k).container_of(h.0, true))
                    &&& forall|t2: usize|
                        t2 < old(k).tasks@.len() && t2 != h.0 ==> (#[trigger] final(k).container_of(t2, true)) == old(k).container_of(t2, true) && final(k).container_of(t2, false) == old(k).container_of(t2, false)
                    &&& forall|t2: int|
                        0 <= t2 < old(k).tasks@.len() && t2 != h.0 ==> (#[trigger] final(k).tasks@[t2]).task_priority == old(k).tasks@[t2].task_priority && final(k).tasks@[t2].base_priority == old(k).tasks@[t2].base_priority && final(k).tasks@[t2].mutexes_held == old(k).tasks@[t2].mutexes_held
                },
                None => *final(k) == *old(k) && !yield_needed,
            }
        }),
{
    let holder: TaskHandle = match mutex_holder {
        Some(h) => h,
        None => {
            return false;
        },
    };
    let held: UBaseType = holder.get_mutex_held_count(k);
    let held2: UBaseType = held - 1;
    holder.set_mutex_held_count(k, held2);
    let this_priority: UBaseType = holder.get_priority(k);
    let base_priority: UBaseType = holder.get_base_priority(k);
    proof {
        assert(k.task_ok(holder.0 as int));
    }
    if this_priority != base_priority && held2 == 0 {
        let in_ready: bool = crate::list::is_contained_within(
            k,
            this_priority as usize,
            holder.0,
            true,
        );
        proof {
            if !in_ready {
                if k.container_of(holder.0, true).is_some() {
                    let l = k.container_of(holder.0, true).unwrap();
                    if l < MAX_PRIORITIES {
                        let j = k.entry_index(l as int, holder.0, true);
                        assert(k.has_entry(l as int, holder.0, true));
                        assert(k.entries_of(l as int)[j] == (crate::list::ListEntry {
                            owner: holder.0,
                            is_state: true,
                        }));
                        assert(k.ready_entry_ok(l as int, j));
                        assert(l == this_priority);
                        assert(false);
                    }
                }
            }
        }
        if in_ready {
            list_remove(k, holder.0, true);
            holder.set_priority(k, base_priority);
            set_event_item_value(k, holder.0, (MAX_PRIORITIES - this_priority) as TickType);
            let res = holder.add_task_to_ready_list(k);
            proof {
                assert(res.is_ok());
            }
        } else {
            holder.set_priority(k, base_priority);
            set_event_item_value(k, holder.0, (MAX_PRIORITIES - this_priority) as TickType);
        }
        true
    } else {
        false
    }
}

} // verus!
