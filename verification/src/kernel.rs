//! Scheduler control: start and stop, suspend-all and resume-all, the tick
//! handler and context switching.

use vstd::prelude::*;

use crate::config::MAX_PRIORITIES;
use crate::list::{list_is_empty, get_owner_of_head_entry, get_owner_of_next_entry, list_remove};
use crate::port::{TickType, UBaseType, portMAX_DELAY};
use crate::projdefs::FreeRtosError;
use crate::task_control::{task_control_block, TaskHandle};
use crate::task_global::{
    Kernel, lemma_components_transfer, PENDING_READY_LIST, TASKS_WAITING_TERMINATION,
};

verus! {

/// What the scheduler is doing right now.
#[derive(Clone, Copy, Debug, PartialEq, Eq, Structural)]
pub enum SchedulerState {
    NotStarted,
    Suspended,
    Running,
}

/// The scheduler's current state: not yet started, started but suspended,
/// or running.
pub fn task_get_scheduler_state(k: &Kernel) -> (r: SchedulerState)
    ensures
        r == (if !k.scheduler_running {
            SchedulerState::NotStarted
        } else if k.scheduler_suspended == 0 {
            SchedulerState::Running
        } else {
            SchedulerState::Suspended
        }),
{
    if !k.get_scheduler_running() {
        SchedulerState::NotStarted
    } else {
        if k.scheduler_suspended == 0 {
            SchedulerState::Running
        } else {
            SchedulerState::Suspended
        }
    }
}

/// Suspend the scheduler: while the nesting count is positive, ticks are
/// pended instead of applied and event-driven wakeups go to the
/// pending-ready list.
pub fn task_suspend_all(k: &mut Kernel)
    requires
        old(k).wf(),
        old(k).scheduler_suspended < UBaseType::MAX,
    ensures
        final(k).wf(),
        final(k).scheduler_suspended == old(k).scheduler_suspended + 1,
        final(k).tasks@ == old(k).tasks@,
        final(k).lists@ == old(k).lists@,
        final(k).tick_count == old(k).tick_count,
        final(k).next_task_unblock_time == old(k).next_task_unblock_time,
        final(k).delayed_list == old(k).delayed_list,
        final(k).overflow_delayed_list == old(k).overflow_delayed_list,
        final(k).top_ready_priority == old(k).top_ready_priority,
        final(k).current_task == old(k).current_task,
        final(k).yield_pending == old(k).yield_pending,
        final(k).pended_ticks == old(k).pended_ticks,
        final(k).scheduler_running == old(k).scheduler_running,
        final(k).current_number_of_tasks == old(k).current_number_of_tasks,
        final(k).num_of_overflows == old(k).num_of_overflows,
        final(k).task_number == old(k).task_number,
        final(k).deleted_tasks_waiting_clean_up == old(k).deleted_tasks_waiting_clean_up,
    {
    let ghost pre = *k;
    k.scheduler_suspended = k.scheduler_suspended + 1;
    proof {
        assert forall|x: int| 0 <= x < pre.lists@.len() implies pre.entries_of(x) == k.entries_of(
            x,
        ) by {}
        lemma_components_transfer(pre, *k);
    }
}

/// Stop the scheduler; the port would tear the tick interrupt down here.
pub fn task_end_scheduler(k: &mut Kernel)
    requires
        old(k).wf(),
    ensures
        final(k).wf(),
        !final(k).scheduler_running,
        final(k).tasks@ == old(k).tasks@,
        final(k).lists@ == old(k).lists@,
        final(k).tick_count == old(k).tick_count,
        final(k).scheduler_suspended == old(k).scheduler_suspended,
        final(k).current_task == old(k).current_task,
{
    let ghost pre = *k;
    k.scheduler_running = false;
    proof {
        assert forall|x: int| 0 <= x < pre.lists@.len() implies pre.entries_of(x) == k.entries_of(
            x,
        ) by {}
        lemma_components_transfer(pre, *k);
    }
}

/// Arm the scheduler: tick at zero, no wakeup due, running.  Called once at
/// start, before any task has blocked, so the delayed list is still empty.
pub fn initialize_scheduler(k: &mut Kernel)
    requires
        old(k).wf(),
        old(k).entries_of(old(k).delayed_list as int).len() == 0,
    ensures
        final(k).wf(),
        final(k).scheduler_running,
        final(k).tick_count == 0,
        final(k).next_task_unblock_time == portMAX_DELAY,
        final(k).tasks@ == old(k).tasks@,
        final(k).lists@ == old(k).lists@,
        final(k).current_task == old(k).current_task,
        final(k).scheduler_suspended == old(k).scheduler_suspended,
        final(k).current_number_of_tasks == old(k).current_number_of_tasks,
        final(k).pended_ticks == old(k).pended_ticks,
        final(k).num_of_overflows == old(k).num_of_overflows,
        final(k).task_number == old(k).task_number,
        final(k).top_ready_priority == old(k).top_ready_priority,
        final(k).yield_pending == old(k).yield_pending,
        final(k).delayed_list == old(k).delayed_list,
        final(k).overflow_delayed_list == old(k).overflow_delayed_list,
{
    let ghost pre = *k;
    k.next_task_unblock_time = portMAX_DELAY;
    k.scheduler_running = true;
    k.tick_count = 0;
    proof {
        assert forall|x: int| 0 <= x < pre.lists@.len() implies pre.entries_of(x) == k.entries_of(
            x,
        ) by {}
        lemma_components_transfer(pre, *k);
        let d = k.delayed_list as int;
        let o = k.overflow_delayed_list as int;
        assert(k.entries_of(d).len() == 0);
        assert forall|j: int|
            0 <= j < k.entries_of(o).len() implies (#[trigger] k.entries_of(o)[j]).is_state by {
            assert(pre.entries_of(o)[j].is_state);
        }
        assert(k.list_sorted(o)) by {
            assert(pre.list_sorted(o));
        }
    }
}

/// Start the kernel: create the idle task at the lowest priority and arm the
/// scheduler.  The port's "begin running" hook, which hands the processor to
/// the first task, lies with the hosting environment.
pub fn task_start_scheduler(k: &mut Kernel) -> (r: Result<TaskHandle, FreeRtosError>)
    requires
        old(k).wf(),
        old(k).tasks@.len() < 0x7fff_ffff,
        old(k).current_number_of_tasks < UBaseType::MAX,
        old(k).task_number < UBaseType::MAX,
        old(k).entries_of(old(k).delayed_list as int).len() == 0,
    ensures
        final(k).wf(),
        r.is_ok(),
        final(k).scheduler_running,
        final(k).tick_count == 0,
        final(k).next_task_unblock_time == portMAX_DELAY,
        r.unwrap().0 == old(k).tasks@.len(),
        final(k).tasks@.len() == old(k).tasks@.len() + 1,
        final(k).tasks@[r.unwrap().0 as int].task_priority == 0,
        final(k).has_entry(0, r.unwrap().0, true),
        final(k).current_number_of_tasks == old(k).current_number_of_tasks + 1,
        final(k).scheduler_suspended == old(k).scheduler_suspended,
        final(k).pended_ticks == old(k).pended_ticks,
        final(k).num_of_overflows == old(k).num_of_overflows,
        final(k).task_number == old(k).task_number + 1,
        final(k).delayed_list == old(k).delayed_list,
        final(k).overflow_delayed_list == old(k).overflow_delayed_list,
        final(k).current_task == (match old(k).current_task {
            Option::None => Some(r.unwrap().0),
            Option::Some(c) => if !old(k).scheduler_running && old(k).tasks@[c as int].task_priority == 0 {
                Some(r.unwrap().0)
            } else {
                Some(c)
            },
        }),
{
    let idle: Result<TaskHandle, FreeRtosError> = create_idle_task(k);
    let handle: TaskHandle = match idle {
        Ok(h) => h,
        Err(e) => {
            return Err(e);
        },
    };
    let ghost mid = *k;
    initialize_scheduler(k);
    proof {
        assert(k.entries_of(0) == mid.entries_of(0));
        let j = choose|j: int|
            0 <= j < mid.entries_of(0).len() && mid.entries_of(0)[j] == (crate::list::ListEntry {
                owner: handle.0,
                is_state: true,
            });
        assert(k.entries_of(0)[j] == (crate::list::ListEntry { owner: handle.0, is_state: true }));
    }
    Ok(handle)
}

/// Create the idle task: lowest priority, responsible for reclaiming deleted
/// tasks' resources whenever it runs.
pub fn create_idle_task(k: &mut Kernel) -> (r: Result<TaskHandle, FreeRtosError>)
    requires
        old(k).wf(),
        old(k).tasks@.len() < 0x7fff_ffff,
        old(k).current_number_of_tasks < UBaseType::MAX,
        old(k).task_number < UBaseType::MAX,
    ensures
        final(k).wf(),
        r.is_ok(),
        r.unwrap().0 == old(k).tasks@.len(),
        final(k).tasks@.len() == old(k).tasks@.len() + 1,
        final(k).tasks@[r.unwrap().0 as int].task_priority == 0,
        final(k).tasks@[r.unwrap().0 as int].base_priority == 0,
        final(k).has_entry(0, r.unwrap().0, true),
        final(k).current_number_of_tasks == old(k).current_number_of_tasks + 1,
        final(k).current_task == (match old(k).current_task {
            Option::None => Some(r.unwrap().0),
            Option::Some(c) => if !old(k).scheduler_running && old(k).tasks@[c as int].task_priority == 0 {
                Some(r.unwrap().0)
            } else {
                Some(c)
            },
        }),
        final(k).tick_count == old(k).tick_count,
        final(k).next_task_unblock_time == old(k).next_task_unblock_time,
        final(k).scheduler_running == old(k).scheduler_running,
        final(k).scheduler_suspended == old(k).scheduler_suspended,
        final(k).pended_ticks == old(k).pended_ticks,
        final(k).num_of_overflows == old(k).num_of_overflows,
        final(k).task_number == old(k).task_number + 1,
        final(k).entries_of(final(k).delayed_list as int) == old(k).entries_of(
            old(k).delayed_list as int,
        ),
        final(k).delayed_list == old(k).delayed_list,
        final(k).overflow_delayed_list == old(k).overflow_delayed_list,
{
    let tcb: task_control_block = task_control_block::new().priority(0).name("Idle");
    tcb.initialise(k)
}

/// Reclaim every task parked on the termination list: a task that deleted
/// itself waits here until the idle task frees its control block and stack.
pub fn check_tasks_waiting_termination(k: &mut Kernel)
    requires
        old(k).wf(),
    ensures
        final(k).wf(),
        final(k).entries_of(TASKS_WAITING_TERMINATION as int).len() == 0,
        final(k).tick_count == old(k).tick_count,
        final(k).current_task == old(k).current_task,
        final(k).scheduler_suspended == old(k).scheduler_suspended,
        final(k).scheduler_running == old(k).scheduler_running,
        final(k).deleted_tasks_waiting_clean_up <= old(k).deleted_tasks_waiting_clean_up,
        final(k).current_number_of_tasks <= old(k).current_number_of_tasks,
        old(k).entries_of(TASKS_WAITING_TERMINATION as int).len() == 0 ==> *final(k) == *old(k),
{
    while !list_is_empty(k, TASKS_WAITING_TERMINATION)
        invariant
            k.wf(),
            k.tick_count == old(k).tick_count,
            k.current_task == old(k).current_task,
            k.scheduler_suspended == old(k).scheduler_suspended,
            k.scheduler_running == old(k).scheduler_running,
            k.deleted_tasks_waiting_clean_up <= old(k).deleted_tasks_waiting_clean_up,
            k.current_number_of_tasks <= old(k).current_number_of_tasks,
            old(k).entries_of(TASKS_WAITING_TERMINATION as int).len() == 0 ==> *k == *old(k),
        decreases k.entries_of(TASKS_WAITING_TERMINATION as int).len(),
    {
        let e: crate::list::ListEntry = crate::list::get_head_entry(k, TASKS_WAITING_TERMINATION);
        proof {
            assert(k.entries_of(TASKS_WAITING_TERMINATION as int)[0] == e);
            assert(k.container_of(e.owner, e.is_state) == Some(TASKS_WAITING_TERMINATION));
        }
        list_remove(k, e.owner, e.is_state);
        if k.deleted_tasks_waiting_clean_up > 0 {
            let ghost pre = *k;
            k.deleted_tasks_waiting_clean_up = k.deleted_tasks_waiting_clean_up - 1;
            proof {
                assert forall|x: int| 0 <= x < pre.lists@.len() implies pre.entries_of(x)
                    == k.entries_of(x) by {}
                lemma_components_transfer(pre, *k);
            }
        }
        if k.current_number_of_tasks > 0 {
            let ghost pre = *k;
            k.current_number_of_tasks = k.current_number_of_tasks - 1;
            proof {
                assert forall|x: int| 0 <= x < pre.lists@.len() implies pre.entries_of(x)
                    == k.entries_of(x) by {}
                lemma_components_transfer(pre, *k);
            }
        }
    }
}

/// Recompute the earliest pending wakeup from the delayed list's head, or
/// disarm it when no task is delayed.
pub fn reset_next_task_unblock_time(k: &mut Kernel)
    requires
        old(k).wf(),
    ensures
        final(k).wf(),
        final(k).next_task_unblock_time == if old(k).entries_of(
            old(k).delayed_list as int,
        ).len() == 0 {
            portMAX_DELAY
        } else {
            old(k).entry_value(old(k).entries_of(old(k).delayed_list as int)[0])
        },
        final(k).tasks@ == old(k).tasks@,
        final(k).lists@ == old(k).lists@,
        final(k).tick_count == old(k).tick_count,
        final(k).current_task == old(k).current_task,
        final(k).scheduler_suspended == old(k).scheduler_suspended,
        final(k).scheduler_running == old(k).scheduler_running,
        final(k).yield_pending == old(k).yield_pending,
        final(k).pended_ticks == old(k).pended_ticks,
        final(k).num_of_overflows == old(k).num_of_overflows,
        final(k).delayed_list == old(k).delayed_list,
        final(k).overflow_delayed_list == old(k).overflow_delayed_list,
        final(k).top_ready_priority == old(k).top_ready_priority,
        final(k).current_number_of_tasks == old(k).current_number_of_tasks,
        final(k).task_number == old(k).task_number,
        final(k).deleted_tasks_waiting_clean_up == old(k).deleted_tasks_waiting_clean_up,
{
    let ghost pre = *k;
    let d: usize = k.delayed_list;
    if list_is_empty(k, d) {
        k.next_task_unblock_time = portMAX_DELAY;
    } else {
        let t: usize = get_owner_of_head_entry(k, d);
        proof {
            assert(k.entries_of(d as int)[0].owner == t);
            assert(k.entries_of(d as int)[0].is_state);
            assert(t < k.tasks@.len());
        }
        let wake: TickType = k.tasks[t].state_list_item.item_value;
        k.next_task_unblock_time = wake;
    }
    proof {
        assert forall|x: int| 0 <= x < pre.lists@.len() implies pre.entries_of(x) == k.entries_of(
            x,
        ) by {}
        lemma_components_transfer(pre, *k);
        let d2 = k.delayed_list as int;
        let o2 = k.overflow_delayed_list as int;
        assert forall|j: int|
            0 <= j < k.entries_of(d2).len() implies (#[trigger] k.entries_of(d2)[j]).is_state by {
            assert(pre.entries_of(d2)[j].is_state);
        }
        assert forall|j: int|
            0 <= j < k.entries_of(o2).len() implies (#[trigger] k.entries_of(o2)[j]).is_state by {
            assert(pre.entries_of(o2)[j].is_state);
        }
        assert(k.list_sorted(d2)) by {
            assert(pre.list_sorted(d2));
        }
        assert(k.list_sorted(o2)) by {
            assert(pre.list_sorted(o2));
        }
        if k.entries_of(d2).len() > 0 {
            assert(k.entry_value(k.entries_of(d2)[0]) == pre.entry_value(pre.entries_of(d2)[0]));
        }
    }
}

/// Step the tick counter forward after a tickless idle period; the jump may
/// not cross the next pending wakeup.
pub fn task_step_tick(k: &mut Kernel, ticks_to_jump: TickType)
    requires
        old(k).wf(),
        old(k).tick_count + ticks_to_jump <= old(k).next_task_unblock_time,
    ensures
        final(k).wf(),
        final(k).tick_count == old(k).tick_count + ticks_to_jump,
        final(k).tasks@ == old(k).tasks@,
        final(k).lists@ == old(k).lists@,
        final(k).next_task_unblock_time == old(k).next_task_unblock_time,
        final(k).current_task == old(k).current_task,
{
    let ghost pre = *k;
    k.tick_count = k.tick_count + ticks_to_jump;
    proof {
        assert forall|x: int| 0 <= x < pre.lists@.len() implies pre.entries_of(x) == k.entries_of(
            x,
        ) by {}
        lemma_components_transfer(pre, *k);
    }
}

/// Account the running task's processor time when a switch happens;
/// `total_run_time` is the port's statistics-timer reading.
pub fn generate_context_switch_stats(k: &mut Kernel, total_run_time: u32)
    requires
        old(k).wf(),
        old(k).current_task.is_some(),
    ensures
        final(k).wf(),
        final(k).total_run_time == total_run_time,
        final(k).task_switched_in_time == total_run_time,
        final(k).lists@ == old(k).lists@,
        ({
            let c = old(k).current_task.unwrap() as int;
            let prev = old(k).task_switched_in_time;
            if total_run_time > prev && old(k).tasks@[c].runtime_counter + (total_run_time - prev)
                <= TickType::MAX {
                final(k).tasks@ == old(k).tasks@.update(
                    c,
                    (task_control_block {
                        runtime_counter: (old(k).tasks@[c].runtime_counter + (total_run_time
                            - prev)) as TickType,
                        ..old(k).tasks@[c]
                    }),
                )
            } else {
                final(k).tasks@ == old(k).tasks@
            }
        }),
{
    let ghost pre = *k;
    k.total_run_time = total_run_time;
    proof {
        assert forall|x: int| 0 <= x < pre.lists@.len() implies pre.entries_of(x) == k.entries_of(
            x,
        ) by {}
        lemma_components_transfer(pre, *k);
    }
    let switched_in: u32 = k.task_switched_in_time;
    if total_run_time > switched_in {
        let c: usize = match k.current_task {
            Some(c) => c,
            None => 0,
        };
        let handle = TaskHandle(c);
        let old_run_time: TickType = handle.get_run_time(k);
        let delta: u32 = total_run_time - switched_in;
        if old_run_time <= TickType::MAX - delta {
            handle.set_run_time(k, old_run_time + delta);
        }
    }
    let ghost pre2 = *k;
    k.task_switched_in_time = total_run_time;
    proof {
        assert forall|x: int| 0 <= x < pre2.lists@.len() implies pre2.entries_of(x)
            == k.entries_of(x) by {}
        lemma_components_transfer(pre2, *k);
    }
}

/// Pick the task to run: the round-robin successor in the highest-priority
/// non-empty ready list.  `top_ready_priority` settles on that priority.
pub fn task_select_highest_priority_task(k: &mut Kernel)
    requires
        old(k).wf(),
        exists|p: int|
            0 <= p <= old(k).top_ready_priority && (#[trigger] old(k).entries_of(p)).len() > 0,
    ensures
        final(k).wf(),
        final(k).top_ready_priority <= old(k).top_ready_priority,
        final(k).entries_of(final(k).top_ready_priority as int).len() > 0,
        forall|q: int|
            final(k).top_ready_priority < q < MAX_PRIORITIES ==> (#[trigger] final(k).entries_of(
                q,
            )).len() == 0,
        final(k).tasks@ == old(k).tasks@,
        final(k).lists@.len() == old(k).lists@.len(),
        forall|x: int|
            0 <= x < old(k).lists@.len() && x != final(k).top_ready_priority ==> final(k).lists@[x] == old(k).lists@[x],
        final(k).entries_of(final(k).top_ready_priority as int) == old(k).entries_of(
            final(k).top_ready_priority as int,
        ),
        final(k).lists@[final(k).top_ready_priority as int].index == old(k).lists@[final(k).top_ready_priority as int].next_index(),
        final(k).current_task == Some(
            final(k).entries_of(final(k).top_ready_priority as int)[final(k).lists@[final(k).top_ready_priority as int].index as int].owner,
        ),
        final(k).tasks@[final(k).current_task.unwrap() as int].task_priority == final(k).top_ready_priority,
        final(k).tick_count == old(k).tick_count,
        final(k).yield_pending == old(k).yield_pending,
        final(k).scheduler_suspended == old(k).scheduler_suspended,
        final(k).scheduler_running == old(k).scheduler_running,
        final(k).next_task_unblock_time == old(k).next_task_unblock_time,
        final(k).delayed_list == old(k).delayed_list,
        final(k).overflow_delayed_list == old(k).overflow_delayed_list,
{
    let mut top: UBaseType = k.top_ready_priority;
    proof {
        assert(top < MAX_PRIORITIES);
    }
    while list_is_empty(k, top as usize)
        invariant
            k.wf(),
            *k == *old(k),
            top <= old(k).top_ready_priority,
            top < MAX_PRIORITIES,
            exists|p: int| 0 <= p <= top && (#[trigger] k.entries_of(p)).len() > 0,
            forall|q: int|
                top < q < MAX_PRIORITIES ==> (#[trigger] k.entries_of(q)).len() == 0,
        decreases top,
    {
        proof {
            let p = choose|p: int| 0 <= p <= top && (#[trigger] k.entries_of(p)).len() > 0;
            assert(p < top);
        }
        top = top - 1;
    }
    let tl: usize = top as usize;
    let ghost scan = *k;
    proof {
        assert(k.entries_of(tl as int).len() > 0);
    }
    let next: usize = get_owner_of_next_entry(k, tl);
    proof {
        let idx = k.lists@[tl as int].index as int;
        assert(k.entries_of(tl as int)[idx].owner == next);
        assert(next < k.tasks@.len());
        assert(k.ready_entry_ok(tl as int, idx));
    }
    let ghost pre = *k;
    k.current_task = Some(next);
    k.top_ready_priority = top;
    proof {
        assert forall|x: int| 0 <= x < pre.lists@.len() implies pre.entries_of(x) == k.entries_of(
            x,
        ) by {}
        lemma_components_transfer(pre, *k);
        // ready soundness holds with the lowered top: everything above it is
        // empty by the scan
        assert forall|p: int, j: int|
            #![trigger k.entries_of(p)[j]]
            0 <= p < MAX_PRIORITIES && 0 <= j < k.entries_of(p).len() implies k.ready_entry_ok(
            p,
            j,
        ) by {
            assert(pre.ready_entry_ok(p, j));
        }
        assert forall|q: int|
            k.top_ready_priority < q < MAX_PRIORITIES implies (#[trigger] k.entries_of(q)).len()
            == 0 by {
            assert(scan.entries_of(q).len() == 0);
            assert(pre.entries_of(q) == scan.entries_of(q));
        }
    }
}

/// The tick counter's successor, wrapping to zero past its maximum.
pub open spec fn wrapped_inc(t: TickType) -> TickType {
    if t == portMAX_DELAY {
        0
    } else {
        (t + 1) as TickType
    }
}

/// Bridge from the tick loop's bookkeeping to the per-task promises of the
/// tick handler: what was due got released, what was not stayed put, and a
/// switch is signalled exactly when a released task matches or beats the
/// running priority.
proof fn lemma_tick_summary(
    base: Kernel,
    post: Kernel,
    base_entries: Seq<crate::list::ListEntry>,
    d: int,
    gi: int,
    curprio: UBaseType,
    sw: bool,
)
    requires
        base.wf(),
        post.wf(),
        d == base.delayed_list as int,
        base.delayed_list != base.overflow_delayed_list,
        base_entries == base.entries_of(d),
        post.delayed_list == base.delayed_list,
        post.tasks@.len() == base.tasks@.len(),
        0 <= gi <= base_entries.len(),
        post.entries_of(d) == base_entries.skip(gi),
        forall|j: int|
            0 <= j < gi ==> {
                let t2 = (#[trigger] base_entries[j]).owner;
                &&& base.entry_value(base_entries[j]) <= post.tick_count
                &&& post.container_of(t2, true) == Some(
                    base.tasks@[t2 as int].task_priority as usize,
                )
                &&& post.container_of(t2, false).is_none()
            },
        forall|t2: usize|
            t2 < base.tasks@.len() && (#[trigger] base.container_of(t2, true)) == Some(
                base.delayed_list,
            ) && post.has_entry(d, t2, true) ==> {
                &&& post.container_of(t2, true) == base.container_of(t2, true)
                &&& post.container_of(t2, false) == base.container_of(t2, false)
            },
        forall|j: int|
            0 <= j < base_entries.len() && base.entry_value(#[trigger] base_entries[j])
                <= post.tick_count ==> j < gi,
        sw == exists|j: int|
            0 <= j < gi && base.entry_value(#[trigger] base_entries[j]) <= post.tick_count
                && base.tasks@[base_entries[j].owner as int].task_priority >= curprio,
    ensures
        forall|t2: usize|
            t2 < base.tasks@.len() && (#[trigger] base.container_of(t2, true)) == Some(
                base.delayed_list,
            ) && base.tasks@[t2 as int].state_list_item.item_value <= post.tick_count ==> {
                &&& post.container_of(t2, true) == Some(
                    base.tasks@[t2 as int].task_priority as usize,
                )
                &&& post.container_of(t2, false).is_none()
            },
        forall|t2: usize|
            t2 < base.tasks@.len() && (#[trigger] base.container_of(t2, true)) == Some(
                base.delayed_list,
            ) && base.tasks@[t2 as int].state_list_item.item_value > post.tick_count ==> {
                &&& post.container_of(t2, true) == base.container_of(t2, true)
                &&& post.container_of(t2, false) == base.container_of(t2, false)
            },
        sw == exists|t2: usize|
            t2 < base.tasks@.len() && (#[trigger] base.container_of(t2, true)) == Some(
                base.delayed_list,
            ) && base.tasks@[t2 as int].state_list_item.item_value <= post.tick_count
                && base.tasks@[t2 as int].task_priority >= curprio,
{
    let tick2 = post.tick_count;
    assert forall|t2: usize|
        t2 < base.tasks@.len() && (#[trigger] base.container_of(t2, true)) == Some(
            base.delayed_list,
        ) && base.tasks@[t2 as int].state_list_item.item_value <= tick2 implies {
        &&& post.container_of(t2, true) == Some(base.tasks@[t2 as int].task_priority as usize)
        &&& post.container_of(t2, false).is_none()
    } by {
        assert(base.has_entry(d, t2, true));
        let e2 = crate::list::ListEntry { owner: t2, is_state: true };
        let j0 = choose|j: int| 0 <= j < base_entries.len() && base_entries[j] == e2;
        assert(base.entry_value(base_entries[j0]) == base.tasks@[t2 as int].state_list_item.item_value);
        assert(j0 < gi);
    }
    assert forall|t2: usize|
        t2 < base.tasks@.len() && (#[trigger] base.container_of(t2, true)) == Some(
            base.delayed_list,
        ) && base.tasks@[t2 as int].state_list_item.item_value > tick2 implies {
        &&& post.container_of(t2, true) == base.container_of(t2, true)
        &&& post.container_of(t2, false) == base.container_of(t2, false)
    } by {
        assert(base.has_entry(d, t2, true));
        let e2 = crate::list::ListEntry { owner: t2, is_state: true };
        let j0 = choose|j: int| 0 <= j < base_entries.len() && base_entries[j] == e2;
        assert(base.entry_value(base_entries[j0]) == base.tasks@[t2 as int].state_list_item.item_value);
        if j0 < gi {
            assert(base.entry_value(base_entries[j0]) <= tick2);
            assert(false);
        }
        assert(post.entries_of(d)[j0 - gi] == base_entries[j0]);
        assert(post.has_entry(d, t2, true));
    }
    if sw {
        let jw = choose|j: int|
            0 <= j < gi && base.entry_value(#[trigger] base_entries[j]) <= tick2
                && base.tasks@[base_entries[j].owner as int].task_priority >= curprio;
        let t2 = base_entries[jw].owner;
        assert(base.container_of(t2, true) == Some(base.delayed_list));
        assert(base.tasks@[t2 as int].state_list_item.item_value <= tick2 && base.tasks@[t2 as int].task_priority
            >= curprio) by {
            assert(base.entry_value(base_entries[jw]) == base.tasks@[t2 as int].state_list_item.item_value);
        }
    } else {
        assert forall|t2: usize|
            t2 < base.tasks@.len() && (#[trigger] base.container_of(t2, true)) == Some(
                base.delayed_list,
            ) && base.tasks@[t2 as int].state_list_item.item_value <= tick2 implies !(
        base.tasks@[t2 as int].task_priority >= curprio) by {
            assert(base.has_entry(d, t2, true));
            let e2 = crate::list::ListEntry { owner: t2, is_state: true };
            let j0 = choose|j: int| 0 <= j < base_entries.len() && base_entries[j] == e2;
            assert(base.entry_value(base_entries[j0])
                == base.tasks@[t2 as int].state_list_item.item_value);
            assert(j0 < gi);
            if base.tasks@[t2 as int].task_priority >= curprio {
                assert(0 <= j0 < gi && base.entry_value(base_entries[j0]) <= tick2
                    && base.tasks@[base_entries[j0].owner as int].task_priority >= curprio);
                assert(sw);
            }
        }
    }
}

/// Advance the tick: increment the counter (swapping the delayed lists when
/// it wraps), move every delayed task whose wake time has come to its ready
/// list, and say whether a context switch is due — because a task of equal
/// or higher priority woke, or because the running priority's ready list
/// holds more than one task (time slicing).
///
/// While the scheduler is suspended, the tick is pended for later replay
/// instead.
/// Step the tick counter by one, trading the delayed lists and bumping the
/// overflow epoch when it wraps, and recomputing the next wakeup after a
/// trade.
fn advance_tick_counter(k: &mut Kernel)
    requires
        old(k).wf(),
        old(k).num_of_overflows < crate::port::BaseType::MAX,
    ensures
        final(k).wf(),
        final(k).tick_count == wrapped_inc(old(k).tick_count),
        final(k).lists@ == old(k).lists@,
        final(k).tasks@ == old(k).tasks@,
        final(k).current_task == old(k).current_task,
        final(k).scheduler_suspended == old(k).scheduler_suspended,
        final(k).scheduler_running == old(k).scheduler_running,
        final(k).yield_pending == old(k).yield_pending,
        final(k).pended_ticks == old(k).pended_ticks,
        final(k).top_ready_priority == old(k).top_ready_priority,
        ({
            let wrap = old(k).tick_count == portMAX_DELAY;
            &&& final(k).delayed_list == if wrap {
                old(k).overflow_delayed_list
            } else {
                old(k).delayed_list
            }
            &&& final(k).overflow_delayed_list == if wrap {
                old(k).delayed_list
            } else {
                old(k).overflow_delayed_list
            }
            &&& final(k).num_of_overflows == old(k).num_of_overflows + if wrap {
                1int
            } else {
                0int
            }
            &&& !wrap ==> final(k).next_task_unblock_time == old(k).next_task_unblock_time
            &&& wrap ==> final(k).next_task_unblock_time == (if final(k).entries_of(
                final(k).delayed_list as int,
            ).len() == 0 {
                portMAX_DELAY as int
            } else {
                final(k).entry_value(
                    final(k).entries_of(final(k).delayed_list as int)[0],
                ) as int
            })
        }),
{
    let old_tick: TickType = k.get_tick_count();
    let const_tick: TickType = if old_tick == portMAX_DELAY {
        0
    } else {
        old_tick + 1
    };
    let ghost pre_tick = *k;
    k.tick_count = const_tick;
    proof {
        assert forall|x: int| 0 <= x < pre_tick.lists@.len() implies pre_tick.entries_of(x)
            == k.entries_of(x) by {}
        lemma_components_transfer(pre_tick, *k);
    }
    if const_tick == 0 {
        // the counter wrapped: the overflow list's wake times are now
        // current, so the two delayed lists trade places
        let ghost pre = *k;
        let tmp: usize = k.delayed_list;
        k.delayed_list = k.overflow_delayed_list;
        k.overflow_delayed_list = tmp;
        k.num_of_overflows = k.num_of_overflows + 1;
        proof {
            assert forall|x: int| 0 <= x < pre.lists@.len() implies pre.entries_of(x)
                == k.entries_of(x) by {}
            lemma_components_transfer(pre, *k);
            let d = k.delayed_list as int;
            let o = k.overflow_delayed_list as int;
            assert forall|j: int|
                0 <= j < k.entries_of(d).len() implies (#[trigger] k.entries_of(d)[j]).is_state by {
                assert(pre.entries_of(d)[j].is_state);
            }
            assert forall|j: int|
                0 <= j < k.entries_of(o).len() implies (#[trigger] k.entries_of(o)[j]).is_state by {
                assert(pre.entries_of(o)[j].is_state);
            }
            assert(k.list_sorted(d)) by {
                assert(pre.list_sorted(d));
            }
            assert(k.list_sorted(o)) by {
                assert(pre.list_sorted(o));
            }
            assert(k.lists_wf() && k.membership_wf() && k.tasks_wf() && k.ready_wf());
        }
        // the head of the new delayed list decides the next wakeup
        reset_unblock_after_swap(k);
    }
}

/// Release the delayed list's head task: unlink its state item (and its
/// event item, if linked) and put it back on its priority's ready list.
fn release_head_of_delayed(k: &mut Kernel) -> (t: usize)
    requires
        old(k).wf(),
        old(k).entries_of(old(k).delayed_list as int).len() > 0,
    ensures
        final(k).wf(),
        t == old(k).entries_of(old(k).delayed_list as int)[0].owner,
        t < old(k).tasks@.len(),
        final(k).tasks@[t as int].task_priority == old(k).tasks@[t as int].task_priority,
        final(k).entries_of(final(k).delayed_list as int) =~= old(k).entries_of(
            old(k).delayed_list as int,
        ).skip(1),
        final(k).entries_of(final(k).overflow_delayed_list as int) == old(k).entries_of(
            old(k).overflow_delayed_list as int,
        ),
        final(k).container_of(t, true) == Some(old(k).tasks@[t as int].task_priority as usize),
        final(k).container_of(t, false).is_none(),
        final(k).tasks@.len() == old(k).tasks@.len(),
        final(k).lists@.len() == old(k).lists@.len(),
        forall|t2: int|
            0 <= t2 < old(k).tasks@.len() ==> {
                &&& (#[trigger] final(k).tasks@[t2]).task_priority == old(k).tasks@[t2].task_priority
                &&& final(k).tasks@[t2].base_priority == old(k).tasks@[t2].base_priority
                &&& final(k).tasks@[t2].mutexes_held == old(k).tasks@[t2].mutexes_held
                &&& final(k).tasks@[t2].state_list_item.item_value == old(k).tasks@[t2].state_list_item.item_value
                &&& final(k).tasks@[t2].event_list_item.item_value == old(k).tasks@[t2].event_list_item.item_value
                &&& final(k).tasks@[t2].delay_aborted == old(k).tasks@[t2].delay_aborted
            },
        forall|t2: usize|
            t2 < old(k).tasks@.len() && t2 != t ==> {
                &&& (#[trigger] final(k).container_of(t2, true)) == old(k).container_of(t2, true)
                &&& final(k).container_of(t2, false) == old(k).container_of(t2, false)
            },
        final(k).tick_count == old(k).tick_count,
        final(k).next_task_unblock_time == old(k).next_task_unblock_time,
        final(k).delayed_list == old(k).delayed_list,
        final(k).overflow_delayed_list == old(k).overflow_delayed_list,
        final(k).current_task == old(k).current_task,
        final(k).scheduler_suspended == old(k).scheduler_suspended,
        final(k).scheduler_running == old(k).scheduler_running,
        final(k).yield_pending == old(k).yield_pending,
        final(k).pended_ticks == old(k).pended_ticks,
        final(k).num_of_overflows == old(k).num_of_overflows,
{
    let ghost pre = *k;
    let dl: usize = k.delayed_list;
    let e: crate::list::ListEntry = crate::list::get_head_entry(k, dl);
    let t: usize = e.owner;
    proof {
        assert(pre.entries_of(dl as int)[0] == e);
        assert(e.is_state);
        assert(t < pre.tasks@.len());
        assert(pre.container_of(t, true) == Some(dl));
        // the head entry is the unique entry for this item
        let j0 = pre.entry_index(dl as int, t, true);
        assert(pre.entries_of(dl as int)[j0] == e);
        assert(j0 == 0);
    }
    list_remove(k, t, true);
    let ghost mid = *k;
    proof {
        assert(mid.entries_of(dl as int) =~= pre.entries_of(dl as int).skip(1)) by {
            assert(mid.entries_of(dl as int) =~= pre.entries_of(dl as int).remove(0));
        }
    }
    let ev: Option<usize> = k.tasks[t].event_list_item.container;
    if ev.is_some() {
        proof {
            // the event item sits in an event list, never in a delayed list
            let l2 = mid.container_of(t, false).unwrap() as int;
            let j2 = mid.entry_index(l2, t, false);
            if l2 == dl as int || l2 == mid.overflow_delayed_list as int {
                assert(mid.entries_of(l2)[j2].is_state);
                assert(false);
            }
        }
        list_remove(k, t, false);
    }
    let handle = TaskHandle(t);
    let res: Result<(), FreeRtosError> = handle.add_task_to_ready_list(k);
    proof {
        assert(res.is_ok());
        assert(k.tasks@[t as int].task_priority < MAX_PRIORITIES);
    }
    t
}

#[verifier::rlimit(100)]
fn task_increment_tick_active(k: &mut Kernel) -> (switch_required: bool)
    requires
        old(k).wf(),
        old(k).current_task.is_some(),
        old(k).scheduler_suspended == 0,
        old(k).num_of_overflows < crate::port::BaseType::MAX,
    ensures
        final(k).wf(),
        final(k).current_task == old(k).current_task,
        final(k).scheduler_suspended == old(k).scheduler_suspended,
        final(k).scheduler_running == old(k).scheduler_running,
        final(k).tasks@.len() == old(k).tasks@.len(),
        final(k).lists@.len() == old(k).lists@.len(),
        forall|t2: int|
            0 <= t2 < old(k).tasks@.len() ==> {
                &&& (#[trigger] final(k).tasks@[t2]).task_priority == old(k).tasks@[t2].task_priority
                &&& final(k).tasks@[t2].base_priority == old(k).tasks@[t2].base_priority
                &&& final(k).tasks@[t2].mutexes_held == old(k).tasks@[t2].mutexes_held
                &&& final(k).tasks@[t2].state_list_item.item_value == old(k).tasks@[t2].state_list_item.item_value
                &&& final(k).tasks@[t2].event_list_item.item_value == old(k).tasks@[t2].event_list_item.item_value
                &&& final(k).tasks@[t2].delay_aborted == old(k).tasks@[t2].delay_aborted
            },
        final(k).pended_ticks == old(k).pended_ticks,
        final(k).yield_pending == old(k).yield_pending,
        ({
            let tick2 = wrapped_inc(old(k).tick_count);
            let wrap = old(k).tick_count == portMAX_DELAY;
            &&& final(k).tick_count == tick2
            &&& final(k).delayed_list == if wrap {
                old(k).overflow_delayed_list
            } else {
                old(k).delayed_list
            }
            &&& final(k).overflow_delayed_list == if wrap {
                old(k).delayed_list
            } else {
                old(k).overflow_delayed_list
            }
            &&& final(k).num_of_overflows == old(k).num_of_overflows + if wrap {
                1int
            } else {
                0int
            }
            &&& forall|t2: usize|
                t2 < old(k).tasks@.len() && ((#[trigger] old(k).container_of(t2, true)) == Some(
                    old(k).delayed_list,
                ) || old(k).container_of(t2, true) == Some(old(k).overflow_delayed_list)) ==> {
                    if old(k).container_of(t2, true) == Some(final(k).delayed_list) && old(k).tasks@[t2 as int].state_list_item.item_value <= tick2 {
                        &&& final(k).container_of(t2, true) == Some(
                            old(k).tasks@[t2 as int].task_priority as usize,
                        )
                        &&& final(k).container_of(t2, false).is_none()
                    } else {
                        final(k).container_of(t2, true) == old(k).container_of(t2, true)
                            && final(k).container_of(t2, false) == old(k).container_of(t2, false)
                    }
                }
            &&& forall|t2: usize|
                t2 < old(k).tasks@.len() && (#[trigger] old(k).container_of(t2, true)) != Some(
                    old(k).delayed_list,
                ) && old(k).container_of(t2, true) != Some(old(k).overflow_delayed_list) ==> {
                    &&& final(k).container_of(t2, true) == old(k).container_of(t2, true)
                    &&& final(k).container_of(t2, false) == old(k).container_of(t2, false)
                }
            &&& switch_required == ((exists|t2: usize|
                t2 < old(k).tasks@.len() && (#[trigger] old(k).container_of(t2, true)) == Some(
                    final(k).delayed_list,
                ) && old(k).tasks@[t2 as int].state_list_item.item_value <= tick2 && old(k).tasks@[t2 as int].task_priority >= old(k).tasks@[old(k).current_task.unwrap() as int].task_priority) || final(k).entries_of(
                old(k).tasks@[old(k).current_task.unwrap() as int].task_priority as int,
            ).len() > 1)
            // the next wakeup follows the new delayed head once it was
            // consulted, and stands otherwise
            &&& (!wrap && tick2 < old(k).next_task_unblock_time ==> final(k).next_task_unblock_time == old(k).next_task_unblock_time)
            &&& (wrap || tick2 >= old(k).next_task_unblock_time ==> final(k).next_task_unblock_time == (if final(k).entries_of(
                final(k).delayed_list as int,
            ).len() == 0 {
                portMAX_DELAY as int
            } else {
                final(k).entry_value(
                    final(k).entries_of(final(k).delayed_list as int)[0],
                ) as int
            }))
        }),
{
    advance_tick_counter(k);
    let mut switch_required: bool = false;
    let ghost base = *k;
    let ghost d = k.delayed_list as int;
    let ghost base_entries = base.entries_of(d);
    let ghost cur = k.current_task.unwrap();
    let ghost curprio = base.tasks@[cur as int].task_priority;
    let ghost mut gi: int = 0;
    if k.tick_count >= k.next_task_unblock_time {
        loop
            invariant
                k.wf(),
                k.current_task == base.current_task,
                k.scheduler_suspended == base.scheduler_suspended,
                k.scheduler_running == base.scheduler_running,
                k.tick_count == base.tick_count,
                k.pended_ticks == base.pended_ticks,
                k.yield_pending == base.yield_pending,
                k.num_of_overflows == base.num_of_overflows,
                k.delayed_list == base.delayed_list,
                k.overflow_delayed_list == base.overflow_delayed_list,
                k.tasks@.len() == base.tasks@.len(),
                k.lists@.len() == base.lists@.len(),
                base.wf(),
                base.current_task.is_some(),
                cur == base.current_task.unwrap(),
                curprio == base.tasks@[cur as int].task_priority,
                d == base.delayed_list as int,
                base_entries == base.entries_of(d),
                0 <= gi <= base_entries.len(),
                k.entries_of(d) == base_entries.skip(gi),
                forall|t2: int|
                    0 <= t2 < base.tasks@.len() ==> {
                        &&& (#[trigger] k.tasks@[t2]).task_priority == base.tasks@[t2].task_priority
                        &&& k.tasks@[t2].base_priority == base.tasks@[t2].base_priority
                        &&& k.tasks@[t2].mutexes_held == base.tasks@[t2].mutexes_held
                        &&& k.tasks@[t2].state_list_item.item_value
                            == base.tasks@[t2].state_list_item.item_value
                        &&& k.tasks@[t2].event_list_item.item_value
                            == base.tasks@[t2].event_list_item.item_value
                        &&& k.tasks@[t2].delay_aborted == base.tasks@[t2].delay_aborted
                    },
                forall|j: int|
                    0 <= j < gi ==> {
                        let t2 = (#[trigger] base_entries[j]).owner;
                        &&& base.entry_value(base_entries[j]) <= k.tick_count
                        &&& k.container_of(t2, true) == Some(
                            base.tasks@[t2 as int].task_priority as usize,
                        )
                        &&& k.container_of(t2, false).is_none()
                    },
                forall|t2: usize|
                    t2 < base.tasks@.len() && (#[trigger] base.container_of(t2, true)) != Some(
                        base.delayed_list,
                    ) ==> {
                        &&& k.container_of(t2, true) == base.container_of(t2, true)
                        &&& k.container_of(t2, false) == base.container_of(t2, false)
                    },
                forall|t2: usize|
                    t2 < base.tasks@.len() && (#[trigger] base.container_of(t2, true)) == Some(
                        base.delayed_list,
                    ) && !k.has_entry(d, t2, true) ==> {
                        &&& k.container_of(t2, true) == Some(
                            base.tasks@[t2 as int].task_priority as usize,
                        )
                        &&& k.container_of(t2, false).is_none()
                    },
                forall|t2: usize|
                    t2 < base.tasks@.len() && (#[trigger] base.container_of(t2, true)) == Some(
                        base.delayed_list,
                    ) && k.has_entry(d, t2, true) ==> {
                        &&& k.container_of(t2, true) == base.container_of(t2, true)
                        &&& k.container_of(t2, false) == base.container_of(t2, false)
                    },
                switch_required == exists|j: int|
                    0 <= j < gi && base.entry_value(#[trigger] base_entries[j]) <= k.tick_count
                        && base.tasks@[base_entries[j].owner as int].task_priority >= curprio,
            ensures
                k.entries_of(d).len() == 0 || k.tick_count < k.next_task_unblock_time,
                k.next_task_unblock_time == (if k.entries_of(d).len() == 0 {
                    portMAX_DELAY as int
                } else {
                    k.entry_value(k.entries_of(d)[0]) as int
                }),
            decreases base_entries.len() - gi,
        {
            let dl: usize = k.delayed_list;
            if list_is_empty(k, dl) {
                let ghost pre = *k;
                k.next_task_unblock_time = portMAX_DELAY;
                proof {
                    assert forall|x: int| 0 <= x < pre.lists@.len() implies pre.entries_of(x)
                        == k.entries_of(x) by {}
                    lemma_components_transfer(pre, *k);
                    assert(k.entries_of(d).len() == 0);
                    assert(k.list_sorted(k.overflow_delayed_list as int)) by {
                        assert(pre.list_sorted(k.overflow_delayed_list as int));
                    }
                    assert(k.list_sorted(d)) by {
                        assert(pre.list_sorted(d));
                    }
                    assert forall|j: int|
                        0 <= j < k.entries_of(k.overflow_delayed_list as int).len() implies (
                    #[trigger] k.entries_of(k.overflow_delayed_list as int)[j]).is_state by {
                        assert(pre.entries_of(k.overflow_delayed_list as int)[j].is_state);
                    }
                }
                break;
            }
            let e: crate::list::ListEntry = crate::list::get_head_entry(k, dl);
            let t: usize = e.owner;
            proof {
                assert(k.entries_of(d)[0] == e);
                assert(e.is_state);
                assert(t < k.tasks@.len());
                assert(k.container_of(t, true) == Some(dl));
            }
            let item_value: TickType = k.tasks[t].state_list_item.item_value;
            if k.get_tick_count() < item_value {
                let ghost pre = *k;
                k.next_task_unblock_time = item_value;
                proof {
                    assert forall|x: int| 0 <= x < pre.lists@.len() implies pre.entries_of(x)
                        == k.entries_of(x) by {}
                    lemma_components_transfer(pre, *k);
                    assert(k.entry_value(k.entries_of(d)[0]) == item_value);
                    assert(k.list_sorted(k.overflow_delayed_list as int)) by {
                        assert(pre.list_sorted(k.overflow_delayed_list as int));
                    }
                    assert(k.list_sorted(d)) by {
                        assert(pre.list_sorted(d));
                    }
                    assert forall|j: int|
                        0 <= j < k.entries_of(d).len() implies (
                    #[trigger] k.entries_of(d)[j]).is_state by {
                        assert(pre.entries_of(d)[j].is_state);
                    }
                    assert forall|j: int|
                        0 <= j < k.entries_of(k.overflow_delayed_list as int).len() implies (
                    #[trigger] k.entries_of(k.overflow_delayed_list as int)[j]).is_state by {
                        assert(pre.entries_of(k.overflow_delayed_list as int)[j].is_state);
                    }
                }
                break;
            }
            // the waiting period is over: off the delayed list, off any event
            // list, onto its ready list
            let ghost before = *k;
            let t2r: usize = release_head_of_delayed(k);
            proof {
                assert(t2r == t);
            }
            let prio: UBaseType = k.tasks[t].get_priority();
            let cur_exec: usize = match k.current_task {
                Some(c) => c,
                None => 0,
            };
            let cur_prio_exec: UBaseType = k.tasks[cur_exec].get_priority();
            let ghost old_switch = switch_required;
            if prio >= cur_prio_exec {
                switch_required = true;
            }
            proof {
                gi = gi + 1;
                assert(k.entries_of(d) =~= base_entries.skip(gi));
                if switch_required {
                    if old_switch {
                        let jw = choose|j: int|
                            0 <= j < gi - 1 && base.entry_value(#[trigger] base_entries[j])
                                <= k.tick_count && base.tasks@[base_entries[j].owner as int].task_priority
                                >= curprio;
                        assert(0 <= jw < gi && base.entry_value(base_entries[jw]) <= k.tick_count
                            && base.tasks@[base_entries[jw].owner as int].task_priority >= curprio);
                    } else {
                        assert(base_entries[gi - 1].owner == t);
                        assert(base.entry_value(base_entries[gi - 1]) <= k.tick_count
                            && base.tasks@[t as int].task_priority >= curprio);
                    }
                }
            }
        }
        proof {
            // whatever remains in the delayed list has not yet expired
            assert forall|j: int|
                0 <= j < base_entries.len() && base.entry_value(#[trigger] base_entries[j])
                    <= k.tick_count implies j < gi by {
                if j >= gi {
                    let jj = j - gi;
                    assert(k.entries_of(d)[jj] == base_entries[j]);
                    if k.entries_of(d).len() == 0 {
                        assert(false);
                    } else {
                        assert(k.next_task_unblock_time <= k.entry_value(k.entries_of(d)[0]));
                        assert(k.entry_value(k.entries_of(d)[0]) <= k.entry_value(
                            k.entries_of(d)[jj],
                        ));
                        assert(k.entry_value(k.entries_of(d)[jj]) == base.entry_value(
                            base_entries[j],
                        ));
                        assert(k.tick_count < k.next_task_unblock_time);
                        assert(false);
                    }
                }
            }
        }
    } else {
        proof {
            // no wakeup was due: every delayed wake time lies in the future
            assert forall|j: int|
                0 <= j < base_entries.len() implies base.entry_value(
                #[trigger] base_entries[j],
            ) > k.tick_count by {
                assert(base.next_task_unblock_time <= base.entry_value(base_entries[0]));
                assert(base.entry_value(base_entries[0]) <= base.entry_value(base_entries[j]));
            }
            assert(k.entries_of(d) == base_entries.skip(0)) by {
                assert(base_entries.skip(0) =~= base_entries);
            }
            // every delayed task still holds its base entry, so nothing moved
            assert forall|t2: usize|
                t2 < base.tasks@.len() && (#[trigger] base.container_of(t2, true)) == Some(
                    base.delayed_list,
                ) implies k.has_entry(d, t2, true) by {
                assert(base.has_entry(d, t2, true));
            }
        }
    }
    // time slicing: share the processor among equal-priority ready tasks
    let cur_exec: usize = match k.current_task {
        Some(c) => c,
        None => 0,
    };
    let cur_prio_exec: UBaseType = k.tasks[cur_exec].get_priority();
    proof {
        assert(k.task_ok(cur_exec as int));
    }
    let ghost pre_slice_switch = switch_required;
    if crate::list::current_list_length(k, cur_prio_exec as usize) > 1 {
        switch_required = true;
    }
    proof {
        assert(base.tasks@ == old(k).tasks@);
        assert(base.delayed_list != base.overflow_delayed_list);
        lemma_tick_summary(base, *k, base_entries, d, gi, curprio, pre_slice_switch);
        let tick2 = k.tick_count;
        assert forall|t2: usize|
            t2 < old(k).tasks@.len() && ((#[trigger] old(k).container_of(t2, true)) == Some(
                old(k).delayed_list,
            ) || old(k).container_of(t2, true) == Some(old(k).overflow_delayed_list)) implies {
            if old(k).container_of(t2, true) == Some(k.delayed_list) && old(k).tasks@[t2 as int].state_list_item.item_value <= tick2 {
                &&& k.container_of(t2, true) == Some(
                    old(k).tasks@[t2 as int].task_priority as usize,
                )
                &&& k.container_of(t2, false).is_none()
            } else {
                &&& k.container_of(t2, true) == old(k).container_of(t2, true)
                &&& k.container_of(t2, false) == old(k).container_of(t2, false)
            }
        } by {
            assert(base.container_of(t2, true) == old(k).container_of(t2, true));
            assert(base.container_of(t2, false) == old(k).container_of(t2, false));
            if old(k).container_of(t2, true) == Some(base.delayed_list) {
                if old(k).tasks@[t2 as int].state_list_item.item_value <= tick2 {
                    assert(base.tasks@[t2 as int].state_list_item.item_value <= tick2);
                } else {
                    assert(base.tasks@[t2 as int].state_list_item.item_value > tick2);
                    assert(k.container_of(t2, false) == base.container_of(t2, false));
                }
            } else {
                assert(base.container_of(t2, true) != Some(base.delayed_list));
                assert(k.container_of(t2, true) == base.container_of(t2, true));
                assert(k.container_of(t2, false) == base.container_of(t2, false));
            }
        }
        assert forall|t2: usize|
            t2 < old(k).tasks@.len() && (#[trigger] old(k).container_of(t2, true)) != Some(
                old(k).delayed_list,
            ) && old(k).container_of(t2, true) != Some(old(k).overflow_delayed_list) implies {
            &&& k.container_of(t2, true) == old(k).container_of(t2, true)
            &&& k.container_of(t2, false) == old(k).container_of(t2, false)
        } by {
            assert(base.container_of(t2, true) == old(k).container_of(t2, true));
            assert(base.container_of(t2, false) == old(k).container_of(t2, false));
            assert(base.container_of(t2, true) != Some(base.delayed_list));
            assert(k.container_of(t2, true) == base.container_of(t2, true));
            assert(k.container_of(t2, false) == base.container_of(t2, false));
        }
        // translate the switch condition from the post-advance state to the
        // caller's
        if pre_slice_switch {
            let tw = choose|t2: usize|
                t2 < base.tasks@.len() && (#[trigger] base.container_of(t2, true)) == Some(
                    base.delayed_list,
                ) && base.tasks@[t2 as int].state_list_item.item_value <= tick2
                    && base.tasks@[t2 as int].task_priority >= curprio;
            assert(old(k).container_of(tw, true) == Some(k.delayed_list));
            assert(tw < old(k).tasks@.len() && old(k).tasks@[tw as int].state_list_item.item_value <= tick2 && old(k).tasks@[tw as int].task_priority >= curprio);
        } else {
            assert forall|t2: usize|
                t2 < old(k).tasks@.len() && (#[trigger] old(k).container_of(t2, true)) == Some(
                    k.delayed_list,
                ) && old(k).tasks@[t2 as int].state_list_item.item_value <= tick2 implies !(old(k).tasks@[t2 as int].task_priority >= curprio) by {
                assert(base.container_of(t2, true) == Some(base.delayed_list));
                assert(base.tasks@[t2 as int].state_list_item.item_value <= tick2);
                if base.tasks@[t2 as int].task_priority >= curprio {
                    assert(pre_slice_switch);
                }
            }
        }
    }
    switch_required
}

/// Advance the tick, or pend it while the scheduler is suspended.  See
/// [`wrapped_inc`] for the counter arithmetic; the promises below say
/// exactly which delayed tasks wake and when a context switch is requested.
pub fn task_increment_tick(k: &mut Kernel) -> (switch_required: bool)
    requires
        old(k).wf(),
        old(k).current_task.is_some(),
        old(k).pended_ticks < UBaseType::MAX,
        old(k).num_of_overflows < crate::port::BaseType::MAX,
    ensures
        final(k).wf(),
        final(k).current_task == old(k).current_task,
        final(k).scheduler_suspended == old(k).scheduler_suspended,
        final(k).scheduler_running == old(k).scheduler_running,
        final(k).tasks@.len() == old(k).tasks@.len(),
        final(k).lists@.len() == old(k).lists@.len(),
        forall|t2: int|
            0 <= t2 < old(k).tasks@.len() ==> {
                &&& (#[trigger] final(k).tasks@[t2]).task_priority == old(k).tasks@[t2].task_priority
                &&& final(k).tasks@[t2].base_priority == old(k).tasks@[t2].base_priority
                &&& final(k).tasks@[t2].mutexes_held == old(k).tasks@[t2].mutexes_held
                &&& final(k).tasks@[t2].state_list_item.item_value == old(k).tasks@[t2].state_list_item.item_value
                &&& final(k).tasks@[t2].event_list_item.item_value == old(k).tasks@[t2].event_list_item.item_value
                &&& final(k).tasks@[t2].delay_aborted == old(k).tasks@[t2].delay_aborted
            },
        old(k).scheduler_suspended > 0 ==> ({
            &&& final(k).pended_ticks == old(k).pended_ticks + 1
            &&& switch_required == old(k).yield_pending
            &&& final(k).tick_count == old(k).tick_count
            &&& final(k).lists@ == old(k).lists@
            &&& final(k).tasks@ == old(k).tasks@
            &&& final(k).delayed_list == old(k).delayed_list
            &&& final(k).overflow_delayed_list == old(k).overflow_delayed_list
            &&& final(k).yield_pending == old(k).yield_pending
            &&& final(k).next_task_unblock_time == old(k).next_task_unblock_time
            &&& final(k).num_of_overflows == old(k).num_of_overflows
        }),
        old(k).scheduler_suspended == 0 ==> ({
            let tick2 = wrapped_inc(old(k).tick_count);
            let wrap = old(k).tick_count == portMAX_DELAY;
            &&& final(k).tick_count == tick2
            &&& final(k).pended_ticks == old(k).pended_ticks
            &&& final(k).yield_pending == old(k).yield_pending
            &&& final(k).delayed_list == if wrap {
                old(k).overflow_delayed_list
            } else {
                old(k).delayed_list
            }
            &&& final(k).overflow_delayed_list == if wrap {
                old(k).delayed_list
            } else {
                old(k).overflow_delayed_list
            }
            &&& final(k).num_of_overflows == old(k).num_of_overflows + if wrap {
                1int
            } else {
                0int
            }
            &&& forall|t2: usize|
                t2 < old(k).tasks@.len() && ((#[trigger] old(k).container_of(t2, true)) == Some(
                    old(k).delayed_list,
                ) || old(k).container_of(t2, true) == Some(old(k).overflow_delayed_list)) ==> {
                    if old(k).container_of(t2, true) == Some(final(k).delayed_list) && old(k).tasks@[t2 as int].state_list_item.item_value <= tick2 {
                        &&& final(k).container_of(t2, true) == Some(
                            old(k).tasks@[t2 as int].task_priority as usize,
                        )
                        &&& final(k).container_of(t2, false).is_none()
                    } else {
                        final(k).container_of(t2, true) == old(k).container_of(t2, true)
                            && final(k).container_of(t2, false) == old(k).container_of(t2, false)
                    }
                }
            &&& forall|t2: usize|
                t2 < old(k).tasks@.len() && (#[trigger] old(k).container_of(t2, true)) != Some(
                    old(k).delayed_list,
                ) && old(k).container_of(t2, true) != Some(old(k).overflow_delayed_list) ==> {
                    &&& final(k).container_of(t2, true) == old(k).container_of(t2, true)
                    &&& final(k).container_of(t2, false) == old(k).container_of(t2, false)
                }
            &&& switch_required == ((exists|t2: usize|
                t2 < old(k).tasks@.len() && (#[trigger] old(k).container_of(t2, true)) == Some(
                    final(k).delayed_list,
                ) && old(k).tasks@[t2 as int].state_list_item.item_value <= tick2 && old(k).tasks@[t2 as int].task_priority >= old(k).tasks@[old(k).current_task.unwrap() as int].task_priority) || final(k).entries_of(
                old(k).tasks@[old(k).current_task.unwrap() as int].task_priority as int,
            ).len() > 1)
            // the next wakeup follows the new delayed head once it was
            // consulted, and stands otherwise
            &&& (!wrap && tick2 < old(k).next_task_unblock_time ==> final(k).next_task_unblock_time == old(k).next_task_unblock_time)
            &&& (wrap || tick2 >= old(k).next_task_unblock_time ==> final(k).next_task_unblock_time == (if final(k).entries_of(
                final(k).delayed_list as int,
            ).len() == 0 {
                portMAX_DELAY as int
            } else {
                final(k).entry_value(
                    final(k).entries_of(final(k).delayed_list as int)[0],
                ) as int
            }))
        }),
{
    if k.scheduler_suspended > 0 {
        let ghost pre = *k;
        k.pended_ticks = k.pended_ticks + 1;
        proof {
            assert forall|x: int| 0 <= x < pre.lists@.len() implies pre.entries_of(x)
                == k.entries_of(x) by {}
            lemma_components_transfer(pre, *k);
        }
        return k.yield_pending;
    }
    task_increment_tick_active(k)
}

/// Recompute the next wakeup right after the delayed lists traded places.
fn reset_unblock_after_swap(k: &mut Kernel)
    requires
        old(k).lists_wf(),
        old(k).membership_wf(),
        old(k).tasks_wf(),
        old(k).ready_wf(),
        old(k).delayed_ids_ok(),
        old(k).list_sorted(old(k).delayed_list as int),
        old(k).list_sorted(old(k).overflow_delayed_list as int),
        forall|j: int|
            0 <= j < old(k).entries_of(old(k).delayed_list as int).len() ==> (#[trigger] old(k).entries_of(old(k).delayed_list as int)[j]).is_state,
        forall|j: int|
            0 <= j < old(k).entries_of(old(k).overflow_delayed_list as int).len() ==> (
            #[trigger] old(k).entries_of(old(k).overflow_delayed_list as int)[j]).is_state,
    ensures
        final(k).wf(),
        final(k).tasks@ == old(k).tasks@,
        final(k).lists@ == old(k).lists@,
        final(k).tick_count == old(k).tick_count,
        final(k).current_task == old(k).current_task,
        final(k).scheduler_suspended == old(k).scheduler_suspended,
        final(k).scheduler_running == old(k).scheduler_running,
        final(k).yield_pending == old(k).yield_pending,
        final(k).pended_ticks == old(k).pended_ticks,
        final(k).num_of_overflows == old(k).num_of_overflows,
        final(k).delayed_list == old(k).delayed_list,
        final(k).overflow_delayed_list == old(k).overflow_delayed_list,
        final(k).top_ready_priority == old(k).top_ready_priority,
        final(k).next_task_unblock_time == (if old(k).entries_of(
            old(k).delayed_list as int,
        ).len() == 0 {
            portMAX_DELAY as int
        } else {
            old(k).entry_value(old(k).entries_of(old(k).delayed_list as int)[0]) as int
        }),
{
    let ghost pre = *k;
    let d: usize = k.delayed_list;
    if list_is_empty(k, d) {
        k.next_task_unblock_time = portMAX_DELAY;
    } else {
        let t: usize = get_owner_of_head_entry(k, d);
        proof {
            assert(pre.entries_of(d as int)[0].owner == t);
            assert(pre.entries_of(d as int)[0].is_state);
            assert(t < pre.tasks@.len());
        }
        let wake: TickType = k.tasks[t].state_list_item.item_value;
        k.next_task_unblock_time = wake;
    }
    proof {
        assert forall|x: int| 0 <= x < pre.lists@.len() implies pre.entries_of(x) == k.entries_of(
            x,
        ) by {}
        lemma_components_transfer(pre, *k);
        let d2 = k.delayed_list as int;
        let o2 = k.overflow_delayed_list as int;
        assert forall|j: int|
            0 <= j < k.entries_of(d2).len() implies (#[trigger] k.entries_of(d2)[j]).is_state by {
            assert(pre.entries_of(d2)[j].is_state);
        }
        assert forall|j: int|
            0 <= j < k.entries_of(o2).len() implies (#[trigger] k.entries_of(o2)[j]).is_state by {
            assert(pre.entries_of(o2)[j].is_state);
        }
        assert(k.list_sorted(d2)) by {
            assert(pre.list_sorted(d2));
        }
        assert(k.list_sorted(o2)) by {
            assert(pre.list_sorted(o2));
        }
        if k.entries_of(d2).len() > 0 {
            assert(k.entry_value(k.entries_of(d2)[0]) == pre.entry_value(pre.entries_of(d2)[0]));
        }
    }
}

/// Switch to the highest-priority ready task, round robin within the
/// priority.  While the scheduler is suspended no switch happens; the
/// request is latched instead.
pub fn task_switch_context(k: &mut Kernel)
    requires
        old(k).wf(),
        old(k).scheduler_suspended > 0 || exists|p: int|
            0 <= p <= old(k).top_ready_priority && (#[trigger] old(k).entries_of(p)).len() > 0,
    ensures
        final(k).wf(),
        old(k).scheduler_suspended > 0 ==> ({
            &&& final(k).yield_pending
            &&& final(k).tasks@ == old(k).tasks@
            &&& final(k).lists@ == old(k).lists@
            &&& final(k).current_task == old(k).current_task
            &&& final(k).tick_count == old(k).tick_count
        }),
        old(k).scheduler_suspended == 0 ==> ({
            &&& !final(k).yield_pending
            &&& final(k).entries_of(final(k).top_ready_priority as int).len() > 0
            &&& forall|q: int|
                final(k).top_ready_priority < q < MAX_PRIORITIES ==> (
                #[trigger] final(k).entries_of(q)).len() == 0
            &&& final(k).current_task == Some(
                final(k).entries_of(final(k).top_ready_priority as int)[final(k).lists@[final(k).top_ready_priority as int].index as int].owner,
            )
            &&& final(k).tasks@[final(k).current_task.unwrap() as int].task_priority == final(k).top_ready_priority
            &&& final(k).lists@[final(k).top_ready_priority as int].index == old(k).lists@[final(k).top_ready_priority as int].next_index()
            &&& final(k).entries_of(final(k).top_ready_priority as int) == old(k).entries_of(
                final(k).top_ready_priority as int,
            )
            &&& forall|x: int|
                0 <= x < old(k).lists@.len() && x != final(k).top_ready_priority ==> final(k).lists@[x] == old(k).lists@[x]
            &&& final(k).tasks@ == old(k).tasks@
            &&& final(k).tick_count == old(k).tick_count
        }),
        final(k).scheduler_suspended == old(k).scheduler_suspended,
        final(k).scheduler_running == old(k).scheduler_running,
        final(k).lists@.len() == old(k).lists@.len(),
        final(k).tasks@.len() == old(k).tasks@.len(),
{
    if k.scheduler_suspended > 0 {
        let ghost pre = *k;
        k.yield_pending = true;
        proof {
            assert forall|x: int| 0 <= x < pre.lists@.len() implies pre.entries_of(x)
                == k.entries_of(x) by {}
            lemma_components_transfer(pre, *k);
        }
    } else {
        let ghost pre = *k;
        k.yield_pending = false;
        proof {
            assert forall|x: int| 0 <= x < pre.lists@.len() implies pre.entries_of(x)
                == k.entries_of(x) by {}
            lemma_components_transfer(pre, *k);
        }
        task_select_highest_priority_task(k);
    }
}

/// The pending-ready list is in its operational shape: it links event
/// items only, as [`crate::task_queue::task_remove_from_event_list`] fills
/// it.
pub open spec fn pending_sane(k: &Kernel) -> bool {
    forall|j: int|
        0 <= j < k.entries_of(PENDING_READY_LIST as int).len() ==> !(#[trigger] k.entries_of(
            PENDING_READY_LIST as int,
        )[j]).is_state
}

/// Move every task readied while the scheduler was suspended from the
/// pending-ready list to its ready list, unlinking its state item from
/// wherever it waited; a woken task that matches or beats the running
/// priority latches a yield.  Says whether any task was moved.
#[verifier::rlimit(100)]
pub fn move_tasks_to_ready_list(k: &mut Kernel) -> (has_unblocked: bool)
    requires
        old(k).wf(),
        old(k).current_task.is_some(),
        old(k).scheduler_suspended == 0,
    ensures
        final(k).wf(),
        final(k).entries_of(PENDING_READY_LIST as int).len() == 0,
        has_unblocked == (old(k).entries_of(PENDING_READY_LIST as int).len() > 0),
        final(k).current_task == old(k).current_task,
        final(k).tick_count == old(k).tick_count,
        final(k).scheduler_suspended == old(k).scheduler_suspended,
        final(k).scheduler_running == old(k).scheduler_running,
        final(k).pended_ticks == old(k).pended_ticks,
        final(k).num_of_overflows == old(k).num_of_overflows,
        final(k).tasks@.len() == old(k).tasks@.len(),
        final(k).lists@.len() == old(k).lists@.len(),
        !has_unblocked ==> *final(k) == *old(k),
        old(k).yield_pending ==> final(k).yield_pending,
        forall|t2: int|
            0 <= t2 < old(k).tasks@.len() ==> (#[trigger] final(k).tasks@[t2]).task_priority
                == old(k).tasks@[t2].task_priority,
        // every drained waiter ends up in the ready list of its priority
        pending_sane(old(k)) ==> forall|j: int|
            0 <= j < old(k).entries_of(PENDING_READY_LIST as int).len() ==> ({
                let t = (#[trigger] old(k).entries_of(PENDING_READY_LIST as int)[j]).owner;
                &&& final(k).container_of(t, true) == Some(
                    old(k).tasks@[t as int].task_priority as usize,
                )
                &&& final(k).container_of(t, false).is_none()
            }),
        // a drained waiter that matches or beats the running priority
        // latches a yield
        pending_sane(old(k)) ==> final(k).yield_pending == (old(k).yield_pending || exists|
            j: int,
        |
            0 <= j < old(k).entries_of(PENDING_READY_LIST as int).len() && old(k).tasks@[(
            #[trigger] old(k).entries_of(PENDING_READY_LIST as int)[j]).owner as int].task_priority
                >= old(k).tasks@[old(k).current_task.unwrap() as int].task_priority),
{
    let ghost base_p = old(k).entries_of(PENDING_READY_LIST as int);
    let ghost curprio = old(k).tasks@[old(k).current_task.unwrap() as int].task_priority;
    let ghost sane = pending_sane(old(k));
    let ghost mut gi: int = 0;
    let mut has_unblocked: bool = false;
    while !list_is_empty(k, PENDING_READY_LIST)
        invariant
            k.wf(),
            k.current_task.is_some(),
            k.current_task == old(k).current_task,
            k.tick_count == old(k).tick_count,
            k.scheduler_suspended == 0,
            k.scheduler_running == old(k).scheduler_running,
            k.pended_ticks == old(k).pended_ticks,
            k.num_of_overflows == old(k).num_of_overflows,
            k.tasks@.len() == old(k).tasks@.len(),
            k.lists@.len() == old(k).lists@.len(),
            base_p == old(k).entries_of(PENDING_READY_LIST as int),
            curprio == old(k).tasks@[old(k).current_task.unwrap() as int].task_priority,
            sane == pending_sane(old(k)),
            old(k).wf(),
            0 <= gi <= base_p.len(),
            k.entries_of(PENDING_READY_LIST as int) == base_p.skip(gi),
            has_unblocked == (gi > 0),
            !has_unblocked ==> *k == *old(k),
            old(k).yield_pending ==> k.yield_pending,
            forall|t2: int|
                0 <= t2 < old(k).tasks@.len() ==> (#[trigger] k.tasks@[t2]).task_priority == old(k).tasks@[t2].task_priority,
            sane ==> forall|j: int|
                0 <= j < gi ==> ({
                    let t = (#[trigger] base_p[j]).owner;
                    &&& k.container_of(t, true) == Some(
                        old(k).tasks@[t as int].task_priority as usize,
                    )
                    &&& k.container_of(t, false).is_none()
                }),
            sane ==> k.yield_pending == (old(k).yield_pending || exists|j: int|
                0 <= j < gi && old(k).tasks@[(#[trigger] base_p[j]).owner as int].task_priority
                    >= curprio),
        decreases k.entries_of(PENDING_READY_LIST as int).len(),
    {
        let ghost at_head = *k;
        has_unblocked = true;
        let e: crate::list::ListEntry = crate::list::get_head_entry(k, PENDING_READY_LIST);
        let t: usize = e.owner;
        proof {
            assert(k.entries_of(PENDING_READY_LIST as int)[0] == e);
            assert(base_p[gi] == e);
            assert(t < k.tasks@.len());
            assert(k.container_of(t, e.is_state) == Some(PENDING_READY_LIST));
            if sane {
                assert(!e.is_state);
            }
        }
        // unlink the waiter's item parked here, then its state item from
        // the list it still waits on, and make the task ready
        crate::list::list_remove(k, t, e.is_state);
        let ghost m1 = *k;
        if !e.is_state {
            let st: Option<usize> = k.tasks[t].state_list_item.container;
            proof {
                if sane && st == Some(PENDING_READY_LIST) {
                    // a state item in the pending-ready list would be a
                    // state entry there, against its operational shape
                    let js = k.entry_index(PENDING_READY_LIST as int, t, true);
                    assert(k.container_of(t, true) == Some(PENDING_READY_LIST));
                    assert(k.has_entry(PENDING_READY_LIST as int, t, true));
                    assert(k.entries_of(PENDING_READY_LIST as int)[js]
                        == (crate::list::ListEntry { owner: t, is_state: true }));
                    assert(base_p.skip(gi).remove(0)[js] == (crate::list::ListEntry {
                        owner: t,
                        is_state: true,
                    }));
                    assert(false);
                }
            }
            let elsewhere: bool = match st {
                Some(l) => l != PENDING_READY_LIST,
                None => false,
            };
            if elsewhere {
                crate::list::list_remove(k, t, true);
            }
        }
        let ghost m2 = *k;
        let st2: Option<usize> = k.tasks[t].state_list_item.container;
        if st2.is_none() {
            let handle = TaskHandle(t);
            let res = handle.add_task_to_ready_list(k);
            proof {
                assert(res.is_ok());
            }
        }
        let ghost m3 = *k;
        let cur: usize = match k.current_task {
            Some(c) => c,
            None => 0,
        };
        let woken_prio: UBaseType = k.tasks[t].get_priority();
        let cur_prio: UBaseType = k.tasks[cur].get_priority();
        let ghost old_yield = k.yield_pending;
        if woken_prio >= cur_prio {
            let ghost pre = *k;
            k.yield_pending = true;
            proof {
                assert forall|x: int| 0 <= x < pre.lists@.len() implies pre.entries_of(x)
                    == k.entries_of(x) by {}
                lemma_components_transfer(pre, *k);
            }
        }
        proof {
            gi = gi + 1;
            assert(k.entries_of(PENDING_READY_LIST as int) =~= base_p.skip(gi));
            if sane {
                assert(k.container_of(t, true) == Some(
                    old(k).tasks@[t as int].task_priority as usize,
                ));
                assert(k.container_of(t, false).is_none());
                assert forall|j: int| 0 <= j < gi - 1 implies ({
                    let tj = (#[trigger] base_p[j]).owner;
                    &&& k.container_of(tj, true) == Some(
                        old(k).tasks@[tj as int].task_priority as usize,
                    )
                    &&& k.container_of(tj, false).is_none()
                }) by {
                    let tj = base_p[j].owner;
                    assert(old(k).entries_of(PENDING_READY_LIST as int)[j].owner < old(k).tasks@.len());
                    assert(tj < k.tasks@.len());
                    assert(at_head.container_of(tj, true) == Some(
                        old(k).tasks@[tj as int].task_priority as usize,
                    ));
                    assert(at_head.container_of(tj, false).is_none());
                    assert(at_head.container_of(t, false) == Some(PENDING_READY_LIST));
                    assert(tj != t);
                    assert(m1.tasks@[tj as int] == at_head.tasks@[tj as int]);
                    assert(m2.tasks@[tj as int] == m1.tasks@[tj as int]);
                    assert(m3.tasks@[tj as int] == m2.tasks@[tj as int]);
                    assert(k.tasks@[tj as int] == m3.tasks@[tj as int]);
                }
                if k.yield_pending && !old(k).yield_pending {
                    if old_yield {
                        let jw = choose|j: int|
                            0 <= j < gi - 1 && old(k).tasks@[(
                            #[trigger] base_p[j]).owner as int].task_priority >= curprio;
                        assert(0 <= jw < gi && old(k).tasks@[base_p[jw].owner as int].task_priority
                            >= curprio);
                    } else {
                        assert(base_p[gi - 1].owner == t);
                        assert(old(k).tasks@[t as int].task_priority >= curprio);
                    }
                }
            }
        }
    }
    has_unblocked
}

/// Replay the ticks that arrived while the scheduler was suspended, one
/// full tick step each, then clear the pended count.
pub fn process_pended_ticks(k: &mut Kernel)
    requires
        old(k).wf(),
        old(k).current_task.is_some(),
        old(k).scheduler_suspended == 0,
        old(k).pended_ticks <= 0xffff_ffff,
        old(k).num_of_overflows < crate::port::BaseType::MAX - 0x1_0000_0002,
    ensures
        final(k).wf(),
        final(k).pended_ticks == 0,
        final(k).current_task == old(k).current_task,
        final(k).scheduler_suspended == old(k).scheduler_suspended,
        final(k).scheduler_running == old(k).scheduler_running,
        final(k).tasks@.len() == old(k).tasks@.len(),
        final(k).lists@.len() == old(k).lists@.len(),
        old(k).pended_ticks == 0 ==> *final(k) == *old(k),
        old(k).yield_pending ==> final(k).yield_pending,
        old(k).entries_of(PENDING_READY_LIST as int).len() == 0 ==> final(k).entries_of(
            PENDING_READY_LIST as int,
        ).len() == 0,
        // the replayed ticks advance the counter by exactly the pended count
        crate::task_queue::elapsed_since(final(k).tick_count, old(k).tick_count) == if old(k).pended_ticks == 0 {
            0int
        } else {
            old(k).pended_ticks as int
        },
        old(k).num_of_overflows <= final(k).num_of_overflows <= old(k).num_of_overflows + 1,
        forall|t2: int|
            0 <= t2 < old(k).tasks@.len() ==> (#[trigger] final(k).tasks@[t2]).task_priority
                == old(k).tasks@[t2].task_priority,
        // a task not waiting out a delay stays exactly where it was
        forall|t2: usize|
            t2 < old(k).tasks@.len() && (#[trigger] old(k).container_of(t2, true)) != Some(
                old(k).delayed_list,
            ) && old(k).container_of(t2, true) != Some(old(k).overflow_delayed_list) ==> final(k).container_of(t2, true) == old(k).container_of(t2, true) && final(k).container_of(
                t2,
                false,
            ) == old(k).container_of(t2, false),
{
    let mut pended: UBaseType = k.pended_ticks;
    if pended == 0 {
        return ;
    }
    let ghost pre0 = *k;
    k.pended_ticks = 0;
    proof {
        assert forall|x: int| 0 <= x < pre0.lists@.len() implies pre0.entries_of(x)
            == k.entries_of(x) by {}
        lemma_components_transfer(pre0, *k);
    }
    while pended > 0
        invariant
            k.wf(),
            k.current_task.is_some(),
            k.current_task == old(k).current_task,
            k.scheduler_suspended == 0,
            k.scheduler_running == old(k).scheduler_running,
            k.pended_ticks == 0,
            k.tasks@.len() == old(k).tasks@.len(),
            k.lists@.len() == old(k).lists@.len(),
            pended <= old(k).pended_ticks,
            old(k).num_of_overflows <= k.num_of_overflows,
            k.num_of_overflows <= old(k).num_of_overflows + if old(k).tick_count + (old(k).pended_ticks - pended) >= 0x1_0000_0000 {
                1int
            } else {
                0int
            },
            k.tick_count == (old(k).tick_count + (old(k).pended_ticks - pended))
                % 0x1_0000_0000,
            old(k).num_of_overflows < crate::port::BaseType::MAX - 0x1_0000_0002,
            old(k).pended_ticks <= 0xffff_ffff,
            old(k).yield_pending ==> k.yield_pending,
            old(k).entries_of(PENDING_READY_LIST as int).len() == 0 ==> k.entries_of(
                PENDING_READY_LIST as int,
            ).len() == 0,
            forall|t2: int|
                0 <= t2 < old(k).tasks@.len() ==> (#[trigger] k.tasks@[t2]).task_priority == old(k).tasks@[t2].task_priority,
            k.delayed_list == old(k).delayed_list || k.delayed_list == old(k).overflow_delayed_list,
            (k.delayed_list == old(k).delayed_list && k.overflow_delayed_list == old(k).overflow_delayed_list) || (k.delayed_list == old(k).overflow_delayed_list
                && k.overflow_delayed_list == old(k).delayed_list),
            forall|t2: usize|
                t2 < old(k).tasks@.len() && (#[trigger] old(k).container_of(t2, true)) != Some(
                    old(k).delayed_list,
                ) && old(k).container_of(t2, true) != Some(old(k).overflow_delayed_list)
                    ==> k.container_of(t2, true) == old(k).container_of(t2, true)
                    && k.container_of(t2, false) == old(k).container_of(t2, false),
        decreases pended,
    {
        let ghost preit = *k;
        proof {
            assert(k.num_of_overflows < crate::port::BaseType::MAX);
        }
        let switch_needed: bool = task_increment_tick(k);
        proof {
            // an active tick never parks anything on the pending-ready list
            if preit.entries_of(PENDING_READY_LIST as int).len() == 0 {
                assert forall|j: int|
                    #![trigger k.entries_of(PENDING_READY_LIST as int)[j]]
                    0 <= j < k.entries_of(PENDING_READY_LIST as int).len() implies false by {
                    let e = k.entries_of(PENDING_READY_LIST as int)[j];
                    assert(e.owner < k.tasks@.len());
                    assert(k.container_of(e.owner, e.is_state) == Some(PENDING_READY_LIST));
                    if preit.container_of(e.owner, true) == Some(preit.delayed_list)
                        || preit.container_of(e.owner, true) == Some(
                        preit.overflow_delayed_list,
                    ) {
                        if preit.container_of(e.owner, true) == Some(k.delayed_list)
                            && preit.tasks@[e.owner as int].state_list_item.item_value
                            <= k.tick_count {
                            // released to a ready list, event item unlinked
                            assert(k.container_of(e.owner, true) == Some(
                                preit.tasks@[e.owner as int].task_priority as usize,
                            ));
                            assert(preit.task_ok(e.owner as int));
                            assert(k.container_of(e.owner, false).is_none());
                            assert(false);
                        } else {
                            assert(preit.container_of(e.owner, e.is_state) == Some(
                                PENDING_READY_LIST,
                            ));
                        }
                    } else {
                        assert(preit.container_of(e.owner, e.is_state) == Some(
                            PENDING_READY_LIST,
                        ));
                    }
                    assert(preit.has_entry(PENDING_READY_LIST as int, e.owner, e.is_state));
                }
                if k.entries_of(PENDING_READY_LIST as int).len() > 0 {
                    let e0 = k.entries_of(PENDING_READY_LIST as int)[0];
                    assert(false);
                }
            }
        }
        if switch_needed {
            let ghost pre = *k;
            k.yield_pending = true;
            proof {
                assert forall|x: int| 0 <= x < pre.lists@.len() implies pre.entries_of(x)
                    == k.entries_of(x) by {}
                lemma_components_transfer(pre, *k);
            }
        }
        pended = pended - 1;
    }
}

/// Resume the scheduler after a matching suspend-all.  When the nesting
/// depth returns to zero and tasks exist, the pending-ready list is drained
/// into the ready lists, the next wakeup is recomputed when that moved
/// anything, and the ticks pended meanwhile are replayed.  Returns whether a
/// yield was already signalled here, so the caller can skip a redundant one.
pub fn task_resume_all(k: &mut Kernel) -> (already_yielded: bool)
    requires
        old(k).wf(),
        old(k).current_task.is_some(),
        old(k).scheduler_suspended > 0,
        old(k).pended_ticks <= 0xffff_ffff,
        old(k).num_of_overflows < crate::port::BaseType::MAX - 0x1_0000_0002,
    ensures
        final(k).wf(),
        final(k).scheduler_suspended == old(k).scheduler_suspended - 1,
        final(k).current_task == old(k).current_task,
        final(k).scheduler_running == old(k).scheduler_running,
        final(k).tasks@.len() == old(k).tasks@.len(),
        final(k).lists@.len() == old(k).lists@.len(),
        old(k).scheduler_suspended == 1 && old(k).current_number_of_tasks > 0 ==> final(k).entries_of(PENDING_READY_LIST as int).len() == 0 && final(k).pended_ticks == 0,
        old(k).scheduler_suspended > 1 ==> final(k).lists@ == old(k).lists@ && final(k).tasks@
            == old(k).tasks@ && final(k).pended_ticks == old(k).pended_ticks,
        already_yielded == (old(k).scheduler_suspended == 1 && old(k).current_number_of_tasks
            > 0 && final(k).yield_pending),
        old(k).yield_pending ==> final(k).yield_pending,
        old(k).scheduler_suspended == 1 && old(k).current_number_of_tasks > 0 ==> ({
            // the pended ticks are replayed through the tick handler
            &&& crate::task_queue::elapsed_since(final(k).tick_count, old(k).tick_count)
                == if old(k).pended_ticks == 0 {
                0int
            } else {
                old(k).pended_ticks as int
            }
            // every drained waiter ends up in the ready list of its
            // priority, and one that matches or beats the running priority
            // latches a yield
            &&& (pending_sane(old(k)) && old(k).pended_ticks == 0 ==> (forall|j: int|
                0 <= j < old(k).entries_of(PENDING_READY_LIST as int).len() ==> ({
                    let t = (#[trigger] old(k).entries_of(PENDING_READY_LIST as int)[j]).owner;
                    &&& final(k).container_of(t, true) == Some(
                        old(k).tasks@[t as int].task_priority as usize,
                    )
                    &&& final(k).container_of(t, false).is_none()
                })) && ((exists|j: int|
                0 <= j < old(k).entries_of(PENDING_READY_LIST as int).len() && old(k).tasks@[(
                #[trigger] old(k).entries_of(PENDING_READY_LIST as int)[j]).owner as int].task_priority
                    >= old(k).tasks@[old(k).current_task.unwrap() as int].task_priority)
                ==> final(k).yield_pending))
        }),
        // with nothing pended and nothing pending, resuming only steps the
        // nesting count back down
        old(k).scheduler_suspended == 1 && (old(k).current_number_of_tasks == 0 || (old(k).pended_ticks == 0 && old(k).entries_of(PENDING_READY_LIST as int).len() == 0)) ==> ({
            &&& final(k).tasks@ == old(k).tasks@
            &&& final(k).lists@ == old(k).lists@
            &&& final(k).tick_count == old(k).tick_count
            &&& final(k).next_task_unblock_time == old(k).next_task_unblock_time
            &&& final(k).delayed_list == old(k).delayed_list
            &&& final(k).overflow_delayed_list == old(k).overflow_delayed_list
            &&& final(k).top_ready_priority == old(k).top_ready_priority
            &&& final(k).yield_pending == old(k).yield_pending
            &&& final(k).num_of_overflows == old(k).num_of_overflows
        }),
{
    let mut already_yielded: bool = false;
    let ghost pre0 = *k;
    k.scheduler_suspended = k.scheduler_suspended - 1;
    proof {
        assert forall|x: int| 0 <= x < pre0.lists@.len() implies pre0.entries_of(x)
            == k.entries_of(x) by {}
        lemma_components_transfer(pre0, *k);
    }
    if k.scheduler_suspended == 0 {
        if k.current_number_of_tasks > 0 {
            let moved: bool = move_tasks_to_ready_list(k);
            if moved {
                reset_next_task_unblock_time(k);
            }
            process_pended_ticks(k);
            if k.yield_pending {
                already_yielded = true;
            }
        }
    }
    already_yielded
}

} // verus!
