//! Timed delay of the running task.

use vstd::prelude::*;

use crate::config::MAX_PRIORITIES;
use crate::port::TickType;
use crate::task_global::{Kernel, PENDING_READY_LIST};

verus! {

/// Block the calling task for `ticks_to_delay` ticks: under suspend-all its
/// state item leaves its ready list and joins the delayed list, keyed by
/// the absolute wake tick — or the overflow list when the wake time
/// wrapped — with the next-wakeup bound pulled forward when this deadline
/// is the new earliest one.  A yield is requested unless resuming already
/// signalled one; a zero delay only requests the yield.
pub fn task_delay(k: &mut Kernel, ticks_to_delay: TickType)
    requires
        old(k).wf(),
        old(k).current_task.is_some(),
        old(k).scheduler_suspended == 0,
        old(k).pended_ticks == 0,
        old(k).num_of_overflows < crate::port::BaseType::MAX - 0x1_0000_0002,
        old(k).entries_of(PENDING_READY_LIST as int).len() == 0,
        ({
            let cur = old(k).current_task.unwrap();
            &&& old(k).container_of(cur, false).is_none()
            &&& match old(k).container_of(cur, true) {
                Some(l) => l < MAX_PRIORITIES,
                None => false,
            }
        }),
    ensures
        final(k).wf(),
        final(k).current_task == old(k).current_task,
        final(k).scheduler_suspended == 0,
        final(k).scheduler_running == old(k).scheduler_running,
        final(k).tick_count == old(k).tick_count,
        final(k).yield_pending,
        final(k).tasks@.len() == old(k).tasks@.len(),
        final(k).lists@.len() == old(k).lists@.len(),
        final(k).delayed_list == old(k).delayed_list,
        final(k).overflow_delayed_list == old(k).overflow_delayed_list,
        ticks_to_delay > 0 ==> ({
            let cur = old(k).current_task.unwrap();
            let wake = (old(k).tick_count + ticks_to_delay) as int % 0x1_0000_0000;
            &&& final(k).tasks@[cur as int].state_list_item.item_value == wake
            &&& final(k).container_of(cur, false).is_none()
            &&& (wake >= old(k).tick_count ==> final(k).container_of(cur, true) == Some(
                final(k).delayed_list,
            ) && final(k).next_task_unblock_time == if wake < old(k).next_task_unblock_time {
                wake
            } else {
                old(k).next_task_unblock_time as int
            })
            &&& (wake < old(k).tick_count ==> final(k).container_of(cur, true) == Some(
                final(k).overflow_delayed_list,
            ) && final(k).next_task_unblock_time == old(k).next_task_unblock_time)
        }),
        ticks_to_delay == 0 ==> final(k).tasks@ == old(k).tasks@ && final(k).lists@ == old(
            k,
        ).lists@ && final(k).next_task_unblock_time == old(k).next_task_unblock_time,
{
    let mut already_yielded: bool = false;
    if ticks_to_delay > 0 {
        crate::kernel::task_suspend_all(k);
        let ghost pre_park = *k;
        crate::task_control::add_current_task_to_delayed_list(k, ticks_to_delay, false);
        proof {
            // parking the caller put nothing on the pending-ready list
            let cur = old(k).current_task.unwrap();
            assert forall|j: int|
                #![trigger k.entries_of(PENDING_READY_LIST as int)[j]]
                0 <= j < k.entries_of(PENDING_READY_LIST as int).len() implies false by {
                let e = k.entries_of(PENDING_READY_LIST as int)[j];
                assert(e.owner < k.tasks@.len());
                assert(k.container_of(e.owner, e.is_state) == Some(PENDING_READY_LIST));
                if e.owner == cur {
                    assert(k.container_of(cur, false) == pre_park.container_of(cur, false));
                } else {
                    assert(k.container_of(e.owner, true) == pre_park.container_of(
                        e.owner,
                        true,
                    ));
                    assert(k.container_of(e.owner, false) == pre_park.container_of(
                        e.owner,
                        false,
                    ));
                }
                assert(pre_park.has_entry(PENDING_READY_LIST as int, e.owner, e.is_state));
            }
            if k.entries_of(PENDING_READY_LIST as int).len() > 0 {
                let e0 = k.entries_of(PENDING_READY_LIST as int)[0];
                assert(false);
            }
        }
        already_yielded = crate::kernel::task_resume_all(k);
    }
    if !already_yielded {
        let ghost pre = *k;
        k.yield_pending = true;
        proof {
            assert forall|x: int| 0 <= x < pre.lists@.len() implies pre.entries_of(x)
                == k.entries_of(x) by {}
            crate::task_global::lemma_components_transfer(pre, *k);
        }
    }
}

} // verus!
