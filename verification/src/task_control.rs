//! Task control blocks and task handles.
//!
//! A task control block carries a task's identity, priority state, stack
//! record and its two list items: the state item, linking the task into one
//! scheduling list (ready, delayed, suspended, termination), and the event
//! item, linking it into at most one event list (a queue's wait list or the
//! pending-ready list).  Handles are plain indices into the kernel's task
//! arena; two handles are equal exactly when they name the same task.

use vstd::prelude::*;

use crate::config::{MAX_PRIORITIES, MINIMAL_STACK_SIZE};
use crate::list::{ListEntry, ListItem};
use crate::port::{StackType, TickType, UBaseType};
use crate::projdefs::FreeRtosError;
use crate::task_global::Kernel;

verus! {

/// One task's control block.
#[derive(Debug)]
pub struct task_control_block {
    /// Links the task into a scheduling list: ready, delayed, suspended or
    /// termination.
    pub state_list_item: ListItem,
    /// Links the task into an event list: a queue's wait list or the
    /// pending-ready list.
    pub event_list_item: ListItem,
    /// The effective priority; raised above `base_priority` while the task
    /// holds a mutex a more urgent task is waiting for.
    pub task_priority: UBaseType,
    /// The priority the task was given; never changed by inheritance.
    pub base_priority: UBaseType,
    /// How many mutexes the task currently holds.
    pub mutexes_held: UBaseType,
    /// Requested stack depth in words.
    pub task_stacksize: UBaseType,
    /// Descriptive name, for diagnostics only.
    pub task_name: String,
    /// The task's stack record; task identity is defined by it.
    pub stack_pos: StackType,
    /// Accumulated run time, fed by the port's statistics timer.
    pub runtime_counter: TickType,
    /// Set by an outside abort of the current timed wait.
    pub delay_aborted: bool,
}

pub type TCB = task_control_block;

impl task_control_block {
    /// A blank control block, to be refined by the builder methods and then
    /// registered with [`initialise`](Self::initialise).
    pub fn new() -> (r: task_control_block)
        ensures
            r.task_priority == 1,
            r.base_priority == 0,
            r.mutexes_held == 0,
            r.task_stacksize == MINIMAL_STACK_SIZE,
            r.stack_pos == 0,
            r.runtime_counter == 0,
            r.delay_aborted == false,
            r.state_list_item.container.is_none(),
            r.event_list_item.container.is_none(),
    {
        task_control_block {
            state_list_item: ListItem::new(),
            event_list_item: ListItem::new(),
            task_priority: 1,
            base_priority: 0,
            mutexes_held: 0,
            task_stacksize: MINIMAL_STACK_SIZE,
            task_name: String::new(),
            stack_pos: 0,
            runtime_counter: 0,
            delay_aborted: false,
        }
    }

    /// Builder step: name the task.
    pub fn name(self, name: &str) -> (r: task_control_block)
        ensures
            r.task_name@ == name@,
            r.task_priority == self.task_priority,
            r.task_stacksize == self.task_stacksize,
            r.base_priority == self.base_priority,
            r.mutexes_held == self.mutexes_held,
            r.stack_pos == self.stack_pos,
            r.runtime_counter == self.runtime_counter,
            r.delay_aborted == self.delay_aborted,
            r.state_list_item == self.state_list_item,
            r.event_list_item == self.event_list_item,
    {
        task_control_block { task_name: name.to_string(), ..self }
    }

    /// Builder step: choose the stack depth, in words.
    pub fn stacksize(self, stacksize: UBaseType) -> (r: task_control_block)
        ensures
            r == (task_control_block { task_stacksize: stacksize, ..self }),
    {
        task_control_block { task_stacksize: stacksize, ..self }
    }

    /// Builder step: choose the priority.  A priority at or above
    /// [`MAX_PRIORITIES`] is silently clamped to the highest valid one.
    pub fn priority(self, priority: UBaseType) -> (r: task_control_block)
        ensures
            r == (task_control_block {
                task_priority: if priority >= MAX_PRIORITIES {
                    (MAX_PRIORITIES - 1) as UBaseType
                } else {
                    priority
                },
                ..self
            }),
    {
        if priority >= MAX_PRIORITIES {
            task_control_block { task_priority: MAX_PRIORITIES - 1, ..self }
        } else {
            task_control_block { task_priority: priority, ..self }
        }
    }

    /// Complete the builder: record the stack, zero the inheritance
    /// counters, set `base_priority` to the chosen priority, key the state
    /// item with the inverted priority and place the task under the
    /// scheduler's control.  Fails with `OutOfMemory` exactly when the task
    /// arena is full.
    pub fn initialise(self, k: &mut Kernel) -> (r: Result<TaskHandle, FreeRtosError>)
        requires
            old(k).wf(),
            self.task_priority < MAX_PRIORITIES,
            self.state_list_item.container.is_none(),
            self.event_list_item.container.is_none(),
            old(k).current_number_of_tasks < UBaseType::MAX,
            old(k).task_number < UBaseType::MAX,
        ensures
            final(k).wf(),
            r.is_ok() <==> old(k).tasks@.len() < 0x7fff_ffff,
            r.is_err() ==> *final(k) == *old(k) && r == Err::<TaskHandle, FreeRtosError>(
                FreeRtosError::OutOfMemory,
            ),
            r.is_ok() ==> ({
                let t = r.unwrap().0;
                let p = self.task_priority;
                &&& t == old(k).tasks@.len()
                &&& final(k).tasks@.len() == old(k).tasks@.len() + 1
                &&& final(k).tasks@[t as int].task_priority == p
                &&& final(k).tasks@[t as int].base_priority == p
                &&& final(k).tasks@[t as int].mutexes_held == 0
                &&& final(k).tasks@[t as int].task_name@ == self.task_name@
                &&& final(k).tasks@[t as int].state_list_item.item_value == MAX_PRIORITIES - p
                &&& final(k).tasks@[t as int].event_list_item.item_value == MAX_PRIORITIES - p
                &&& final(k).container_of(t, true) == Some(p as usize)
                &&& final(k).container_of(t, false) == Option::<usize>::None
                &&& final(k).has_entry(p as int, t, true)
                &&& final(k).entries_of(p as int) =~= old(k).entries_of(p as int).insert(
                    old(k).lists@[p as int].index as int,
                    ListEntry { owner: t, is_state: true },
                )
                &&& final(k).lists@[p as int].index == old(k).lists@[p as int].index + 1
                &&& final(k).tasks@[t as int].delay_aborted == self.delay_aborted
                &&& final(k).current_number_of_tasks == old(k).current_number_of_tasks + 1
                &&& final(k).task_number == old(k).task_number + 1
                &&& final(k).top_ready_priority == if p > old(k).top_ready_priority {
                    p
                } else {
                    old(k).top_ready_priority
                }
                &&& final(k).current_task == (match old(k).current_task {
                    Option::None => Some(t),
                    Option::Some(c) => if !old(k).scheduler_running && old(k).tasks@[c as int].task_priority <= p {
                        Some(t)
                    } else {
                        Some(c)
                    },
                })
                &&& final(k).yield_pending == (old(k).yield_pending || (old(k).scheduler_running
                    && final(k).tasks@[final(k).current_task.unwrap() as int].task_priority < p))
                &&& forall|t2: int|
                    0 <= t2 < old(k).tasks@.len() ==> #[trigger] final(k).tasks@[t2] == old(k).tasks@[t2]
                &&& final(k).lists@.len() == old(k).lists@.len()
                &&& forall|x: int|
                    0 <= x < old(k).lists@.len() && x != p ==> final(k).lists@[x] == old(k).lists@[x]
                &&& final(k).tick_count == old(k).tick_count
                &&& final(k).scheduler_running == old(k).scheduler_running
                &&& final(k).scheduler_suspended == old(k).scheduler_suspended
                &&& final(k).next_task_unblock_time == old(k).next_task_unblock_time
                &&& final(k).delayed_list == old(k).delayed_list
                &&& final(k).overflow_delayed_list == old(k).overflow_delayed_list
                &&& final(k).pended_ticks == old(k).pended_ticks
                &&& final(k).num_of_overflows == old(k).num_of_overflows
            }),
    {
        if k.tasks.len() >= 0x7fff_ffff {
            return Err(FreeRtosError::OutOfMemory);
        }
        let mut tcb = self;
        // The stack record doubles as the task's identity; the arena gives
        // each task a fresh one.
        tcb.stack_pos = (k.tasks.len() as StackType) + 1;
        tcb.mutexes_held = 0;
        tcb.base_priority = tcb.task_priority;
        // Lower key means higher priority, so ascending-sorted lists behave
        // as priority queues; the event key orders waiters the same way.
        tcb.state_list_item.item_value = (MAX_PRIORITIES - tcb.task_priority) as TickType;
        tcb.event_list_item.item_value = (MAX_PRIORITIES - tcb.task_priority) as TickType;
        let handle: TaskHandle = TaskHandle::from(k, tcb);
        let res: Result<(), FreeRtosError> = handle.add_new_task_to_ready_list(k);
        match res {
            Ok(()) => Ok(handle),
            Err(e) => Err(e),
        }
    }

    /// The task's state list item.
    pub fn get_state_list_item(&self) -> (r: ListItem)
        ensures
            r == self.state_list_item,
    {
        self.state_list_item.clone()
    }

    /// The task's event list item.
    pub fn get_event_list_item(&self) -> (r: ListItem)
        ensures
            r == self.event_list_item,
    {
        self.event_list_item.clone()
    }

    /// The task's effective priority.
    pub fn get_priority(&self) -> (r: UBaseType)
        ensures
            r == self.task_priority,
    {
        self.task_priority
    }

    /// Set the effective priority field alone; list membership is the
    /// caller's business.
    pub fn set_priority(&mut self, new_priority: UBaseType)
        ensures
            *final(self) == (task_control_block { task_priority: new_priority, ..*old(self) }),
    {
        self.task_priority = new_priority;
    }

    /// The task's name.
    pub fn get_name(&self) -> (r: String)
        ensures
            r@ == self.task_name@,
    {
        self.task_name.clone()
    }

    /// Accumulated run time.
    pub fn get_run_time(&self) -> (r: TickType)
        ensures
            r == self.runtime_counter,
    {
        self.runtime_counter
    }

    /// Replace the accumulated run time, returning the previous value.
    pub fn set_run_time(&mut self, next_val: TickType) -> (prev: TickType)
        ensures
            *final(self) == (task_control_block { runtime_counter: next_val, ..*old(self) }),
            prev == old(self).runtime_counter,
    {
        let prev: TickType = self.runtime_counter;
        self.runtime_counter = next_val;
        prev
    }

    /// Whether an outside abort of the current wait is pending.
    pub fn get_delay_aborted(&self) -> (r: bool)
        ensures
            r == self.delay_aborted,
    {
        self.delay_aborted
    }

    /// Replace the abort flag, returning the previous value.
    pub fn set_delay_aborted(&mut self, next_val: bool) -> (prev: bool)
        ensures
            *final(self) == (task_control_block { delay_aborted: next_val, ..*old(self) }),
            prev == old(self).delay_aborted,
    {
        let prev: bool = self.delay_aborted;
        self.delay_aborted = next_val;
        prev
    }

    /// How many mutexes the task holds.
    pub fn get_mutex_held_count(&self) -> (r: UBaseType)
        ensures
            r == self.mutexes_held,
    {
        self.mutexes_held
    }

    /// Set the held-mutex counter.
    pub fn set_mutex_held_count(&mut self, new_count: UBaseType)
        ensures
            *final(self) == (task_control_block { mutexes_held: new_count, ..*old(self) }),
    {
        self.mutexes_held = new_count;
    }

    /// The task's base (uninherited) priority.
    pub fn get_base_priority(&self) -> (r: UBaseType)
        ensures
            r == self.base_priority,
    {
        self.base_priority
    }

    /// Set the base priority field.
    pub fn set_base_priority(&mut self, new_val: UBaseType)
        ensures
            *final(self) == (task_control_block { base_priority: new_val, ..*old(self) }),
    {
        self.base_priority = new_val;
    }
}

/// The control block equal to `tcb` except that the chosen list item's
/// container field is `c`.
pub open spec fn with_container(
    tcb: task_control_block,
    is_state: bool,
    c: Option<usize>,
) -> task_control_block {
    if is_state {
        task_control_block {
            state_list_item: ListItem { container: c, ..tcb.state_list_item },
            ..tcb
        }
    } else {
        task_control_block {
            event_list_item: ListItem { container: c, ..tcb.event_list_item },
            ..tcb
        }
    }
}

/// Move the current task from wherever its state item is linked onto a
/// delayed list (keyed by its absolute wake tick, routed to the overflow
/// list when the wake time wraps), or onto the suspended list for an
/// indefinite wait.  The pending-wakeup time is pulled forward when this
/// task's deadline is the new earliest one.
#[verifier::rlimit(100)]
pub fn add_current_task_to_delayed_list(
    k: &mut Kernel,
    ticks_to_wait: crate::port::TickType,
    can_block_indefinitely: bool,
)
    requires
        old(k).wf(),
        old(k).current_task.is_some(),
        old(k).container_of(old(k).current_task.unwrap(), true).is_some(),
    ensures
        final(k).wf(),
        final(k).current_task == old(k).current_task,
        final(k).tick_count == old(k).tick_count,
        final(k).scheduler_suspended == old(k).scheduler_suspended,
        final(k).scheduler_running == old(k).scheduler_running,
        final(k).delayed_list == old(k).delayed_list,
        final(k).overflow_delayed_list == old(k).overflow_delayed_list,
        final(k).pended_ticks == old(k).pended_ticks,
        final(k).num_of_overflows == old(k).num_of_overflows,
        final(k).yield_pending == old(k).yield_pending,
        final(k).lists@.len() == old(k).lists@.len(),
        final(k).tasks@.len() == old(k).tasks@.len(),
        forall|t2: int|
            0 <= t2 < old(k).tasks@.len() ==> {
                &&& (#[trigger] final(k).tasks@[t2]).task_priority == old(k).tasks@[t2].task_priority
                &&& final(k).tasks@[t2].base_priority == old(k).tasks@[t2].base_priority
                &&& final(k).tasks@[t2].mutexes_held == old(k).tasks@[t2].mutexes_held
            },
        forall|x: int|
            crate::task_global::NUM_KERNEL_LISTS <= x < old(k).lists@.len() && Some(x as usize)
                != old(k).container_of(old(k).current_task.unwrap(), true) ==> final(k).entries_of(x) == old(k).entries_of(x),

        forall|t2: usize|
            t2 < old(k).tasks@.len() && t2 != old(k).current_task.unwrap() ==> (#[trigger] final(k).container_of(t2, true)) == old(k).container_of(t2, true) && final(k).container_of(
                t2,
                false,
            ) == old(k).container_of(t2, false),
        ({
            let t = old(k).current_task.unwrap();
            &&& final(k).container_of(t, false) == old(k).container_of(t, false)
            &&& final(k).tasks@[t as int].delay_aborted == false
            &&& (ticks_to_wait == crate::port::portMAX_DELAY && can_block_indefinitely ==> final(k).container_of(t, true) == Some(crate::task_global::SUSPENDED_TASK_LIST)
                && final(k).next_task_unblock_time == old(k).next_task_unblock_time)
            &&& (!(ticks_to_wait == crate::port::portMAX_DELAY && can_block_indefinitely) ==> ({
                let wake = (old(k).tick_count + ticks_to_wait) as int % 0x1_0000_0000;
                &&& final(k).tasks@[t as int].state_list_item.item_value == wake
                &&& (wake >= old(k).tick_count ==> final(k).container_of(t, true) == Some(
                    final(k).delayed_list,
                ) && final(k).next_task_unblock_time == if wake < old(k).next_task_unblock_time {
                    wake
                } else {
                    old(k).next_task_unblock_time as int
                })
                &&& (wake < old(k).tick_count ==> final(k).container_of(t, true) == Some(
                    final(k).overflow_delayed_list,
                ) && final(k).next_task_unblock_time == old(k).next_task_unblock_time)
            }))
        }),
{
    let t: usize = match k.current_task {
        Some(c) => c,
        None => 0,
    };
    let handle = TaskHandle(t);
    handle.set_delay_aborted(k, false);
    crate::list::list_remove(k, t, true);
    if ticks_to_wait == crate::port::portMAX_DELAY && can_block_indefinitely {
        proof {
            crate::task_global::lemma_list_len_bound(
                k,
                crate::task_global::SUSPENDED_TASK_LIST as int,
            );
        }
        crate::list::list_insert_end(k, crate::task_global::SUSPENDED_TASK_LIST, t, true);
    } else {
        park_current_on_delayed(k, ticks_to_wait);
    }
}

/// Key the current task's unlinked state item with its absolute wake tick
/// and link it into the delayed list — or the overflow list when the wake
/// time wrapped — pulling the next-wakeup bound forward when this deadline
/// is the new earliest one.
#[verifier::rlimit(100)]
#[verifier::spinoff_prover]
fn park_current_on_delayed(k: &mut Kernel, ticks_to_wait: crate::port::TickType)
    requires
        old(k).wf(),
        old(k).current_task.is_some(),
        old(k).container_of(old(k).current_task.unwrap(), true).is_none(),
    ensures
        final(k).wf(),
        final(k).current_task == old(k).current_task,
        final(k).tick_count == old(k).tick_count,
        final(k).scheduler_suspended == old(k).scheduler_suspended,
        final(k).scheduler_running == old(k).scheduler_running,
        final(k).delayed_list == old(k).delayed_list,
        final(k).overflow_delayed_list == old(k).overflow_delayed_list,
        final(k).pended_ticks == old(k).pended_ticks,
        final(k).num_of_overflows == old(k).num_of_overflows,
        final(k).yield_pending == old(k).yield_pending,
        final(k).lists@.len() == old(k).lists@.len(),
        final(k).tasks@.len() == old(k).tasks@.len(),
        forall|t2: int|
            0 <= t2 < old(k).tasks@.len() ==> {
                &&& (#[trigger] final(k).tasks@[t2]).task_priority == old(k).tasks@[t2].task_priority
                &&& final(k).tasks@[t2].base_priority == old(k).tasks@[t2].base_priority
                &&& final(k).tasks@[t2].mutexes_held == old(k).tasks@[t2].mutexes_held
                &&& final(k).tasks@[t2].delay_aborted == old(k).tasks@[t2].delay_aborted
            },
        forall|x: int|
            crate::task_global::NUM_KERNEL_LISTS <= x < old(k).lists@.len() ==> final(k).entries_of(x) == old(k).entries_of(x),
        forall|t2: usize|
            t2 < old(k).tasks@.len() && t2 != old(k).current_task.unwrap() ==> (#[trigger] final(k).container_of(t2, true)) == old(k).container_of(t2, true) && final(k).container_of(
                t2,
                false,
            ) == old(k).container_of(t2, false),
        ({
            let t = old(k).current_task.unwrap();
            let wake = (old(k).tick_count + ticks_to_wait) as int % 0x1_0000_0000;
            &&& final(k).container_of(t, false) == old(k).container_of(t, false)
            &&& final(k).tasks@[t as int].state_list_item.item_value == wake
            &&& (wake >= old(k).tick_count ==> final(k).container_of(t, true) == Some(
                final(k).delayed_list,
            ) && final(k).next_task_unblock_time == if wake < old(k).next_task_unblock_time {
                wake
            } else {
                old(k).next_task_unblock_time as int
            })
            &&& (wake < old(k).tick_count ==> final(k).container_of(t, true) == Some(
                final(k).overflow_delayed_list,
            ) && final(k).next_task_unblock_time == old(k).next_task_unblock_time)
        }),
{
    let t: usize = match k.current_task {
        Some(c) => c,
        None => 0,
    };
        let tick: crate::port::TickType = k.get_tick_count();
        let time_to_wake: crate::port::TickType = if ticks_to_wait
            <= crate::port::portMAX_DELAY - tick {
            tick + ticks_to_wait
        } else {
            ticks_to_wait - (crate::port::portMAX_DELAY - tick) - 1
        };
        proof {
            assert(time_to_wake == (old(k).tick_count + ticks_to_wait) as int % 0x1_0000_0000);
        }
        set_state_item_value(k, t, time_to_wake);
        let target: usize = if time_to_wake < tick {
            k.overflow_delayed_list
        } else {
            k.delayed_list
        };
        proof {
            crate::task_global::lemma_list_len_bound(k, target as int);
        }
        let ghost pre = *k;
        crate::list::list_insert(k, target, t, true);
        proof {
            // the delayed lists stay sorted state-item lists with a sound
            // earliest-wakeup bound
            let d = k.delayed_list as int;
            let o = k.overflow_delayed_list as int;
            assert(k.list_sorted(d));
            assert(k.list_sorted(o));
            assert forall|j: int|
                0 <= j < k.entries_of(d).len() implies (#[trigger] k.entries_of(d)[j]).is_state by {
                if target == k.delayed_list {
                    let pos = choose|pos: int|
                        #[trigger] crate::list::is_sorted_insert_pos(
                            &pre,
                            d,
                            pre.item_of(t, true).item_value,
                            pos,
                        ) && k.entries_of(d) =~= pre.entries_of(d).insert(
                            pos,
                            crate::list::ListEntry { owner: t, is_state: true },
                        ) && k.lists@[d].index == if pos <= pre.lists@[d].index {
                            pre.lists@[d].index + 1
                        } else {
                            pre.lists@[d].index as int
                        };
                    if j < pos {
                        assert(k.entries_of(d)[j] == pre.entries_of(d)[j]);
                    } else if j > pos {
                        assert(k.entries_of(d)[j] == pre.entries_of(d)[j - 1]);
                    }
                } else {
                    assert(k.entries_of(d) == pre.entries_of(d));
                    assert(pre.entries_of(d)[j].is_state);
                }
            }
            assert forall|j: int|
                0 <= j < k.entries_of(o).len() implies (#[trigger] k.entries_of(o)[j]).is_state by {
                if target == k.overflow_delayed_list {
                    let pos = choose|pos: int|
                        #[trigger] crate::list::is_sorted_insert_pos(
                            &pre,
                            o,
                            pre.item_of(t, true).item_value,
                            pos,
                        ) && k.entries_of(o) =~= pre.entries_of(o).insert(
                            pos,
                            crate::list::ListEntry { owner: t, is_state: true },
                        ) && k.lists@[o].index == if pos <= pre.lists@[o].index {
                            pre.lists@[o].index + 1
                        } else {
                            pre.lists@[o].index as int
                        };
                    if j < pos {
                        assert(k.entries_of(o)[j] == pre.entries_of(o)[j]);
                    } else if j > pos {
                        assert(k.entries_of(o)[j] == pre.entries_of(o)[j - 1]);
                    }
                } else {
                    assert(k.entries_of(o) == pre.entries_of(o));
                    assert(pre.entries_of(o)[j].is_state);
                }
            }
        }
        if target == k.delayed_list {
            if time_to_wake < k.next_task_unblock_time {
                let ghost pre2 = *k;
                k.next_task_unblock_time = time_to_wake;
                proof {
                    assert forall|x: int| 0 <= x < pre2.lists@.len() implies pre2.entries_of(x)
                        == k.entries_of(x) by {}
                    crate::task_global::lemma_components_transfer(pre2, *k);
                    let d = k.delayed_list as int;
                    assert(k.list_sorted(d)) by {
                        assert(pre2.list_sorted(d));
                    }
                    assert(k.list_sorted(k.overflow_delayed_list as int)) by {
                        assert(pre2.list_sorted(k.overflow_delayed_list as int));
                    }
                    assert forall|j: int|
                        0 <= j < k.entries_of(d).len() implies (
                    #[trigger] k.entries_of(d)[j]).is_state by {
                        assert(pre2.entries_of(d)[j].is_state);
                    }
                    assert forall|j: int|
                        0 <= j < k.entries_of(k.overflow_delayed_list as int).len() implies (
                    #[trigger] k.entries_of(k.overflow_delayed_list as int)[j]).is_state by {
                        assert(pre2.entries_of(k.overflow_delayed_list as int)[j].is_state);
                    }
                    if k.entries_of(d).len() > 0 {
                        assert(k.entry_value(k.entries_of(d)[0]) == pre2.entry_value(
                            pre2.entries_of(d)[0],
                        ));
                    }
                }
            } else {
                proof {
                    // the new entry cannot be the head unless its wake time
                    // is at least the recorded bound
                    let d = k.delayed_list as int;
                    if k.entries_of(d).len() > 0 {
                        let pos = choose|pos: int|
                            #[trigger] crate::list::is_sorted_insert_pos(
                                &pre,
                                d,
                                pre.item_of(t, true).item_value,
                                pos,
                            ) && k.entries_of(d) =~= pre.entries_of(d).insert(
                                pos,
                                crate::list::ListEntry { owner: t, is_state: true },
                            ) && k.lists@[d].index == if pos <= pre.lists@[d].index {
                                pre.lists@[d].index + 1
                            } else {
                                pre.lists@[d].index as int
                            };
                        if pos == 0 {
                            assert(k.entries_of(d)[0] == (crate::list::ListEntry {
                                owner: t,
                                is_state: true,
                            }));
                            assert(k.entry_value(k.entries_of(d)[0]) == time_to_wake);
                        } else {
                            assert(k.entries_of(d)[0] == pre.entries_of(d)[0]);
                            assert(k.entry_value(k.entries_of(d)[0]) == pre.entry_value(
                                pre.entries_of(d)[0],
                            ));
                        }
                    }
                }
            }
        }
}

/// Re-key a task's state item; callers do this only while the item is
/// unlinked, so no sorted list goes stale.
fn set_state_item_value(k: &mut Kernel, t: usize, v: crate::port::TickType)
    requires
        old(k).wf(),
        t < old(k).tasks@.len(),
        old(k).container_of(t, true).is_none(),
    ensures
        final(k).wf(),
        final(k).lists@ == old(k).lists@,
        final(k).tasks@ == old(k).tasks@.update(
            t as int,
            (task_control_block {
                state_list_item: ListItem {
                    item_value: v,
                    ..old(k).tasks@[t as int].state_list_item
                },
                ..old(k).tasks@[t as int]
            }),
        ),
        Kernel::same_scalars(old(k), final(k)),
{
    let ghost pre = *k;
    let tcb = &mut k.tasks[t];
    tcb.state_list_item.item_value = v;
    proof {
        let post = *k;
        assert forall|t2: int| 0 <= t2 < post.tasks@.len() implies #[trigger] post.task_ok(t2) by {
            assert(pre.task_ok(t2));
        }
        assert forall|t2: usize, st: bool|
            #![trigger post.container_of(t2, st)]
            t2 < post.tasks@.len() ==> post.container_of(t2, st) == pre.container_of(t2, st) by {}
        assert forall|t2: usize, st: bool|
            t2 < post.tasks@.len() && (#[trigger] post.container_of(t2, st)).is_some() implies {
            &&& post.container_of(t2, st).unwrap() < post.lists@.len()
            &&& post.has_entry(post.container_of(t2, st).unwrap() as int, t2, st)
        } by {
            let e = ListEntry { owner: t2, is_state: st };
            let l = pre.container_of(t2, st).unwrap() as int;
            let j = choose|j: int| 0 <= j < pre.entries_of(l).len() && pre.entries_of(l)[j] == e;
            assert(post.entries_of(l)[j] == e);
        }
        assert forall|l: int, j: int|
            0 <= l < post.lists@.len() && 0 <= j < post.entries_of(l).len() implies {
            &&& (#[trigger] post.entries_of(l)[j]).owner < post.tasks@.len()
            &&& post.container_of(
                post.entries_of(l)[j].owner,
                post.entries_of(l)[j].is_state,
            ) == Some(l as usize)
        } by {
            assert(post.entries_of(l)[j] == pre.entries_of(l)[j]);
            assert(pre.container_of(pre.entries_of(l)[j].owner, pre.entries_of(l)[j].is_state)
                == Some(l as usize));
        }
        assert forall|l: int, j1: int, j2: int|
            0 <= l < post.lists@.len() && 0 <= j1 < post.entries_of(l).len() && 0 <= j2
                < post.entries_of(l).len() && #[trigger] post.entries_of(l)[j1]
                == #[trigger] post.entries_of(l)[j2] implies j1 == j2 by {
            assert(post.entries_of(l)[j1] == pre.entries_of(l)[j1]);
            assert(post.entries_of(l)[j2] == pre.entries_of(l)[j2]);
        }
        assert forall|l: int| 0 <= l < post.lists@.len() implies (
        #[trigger] post.lists@[l]).wf() by {
            assert(pre.lists@[l].wf());
        }
        assert forall|p2: int|
            post.top_ready_priority < p2 < crate::config::MAX_PRIORITIES implies (
        #[trigger] post.entries_of(p2)).len() == 0 by {
            assert(pre.entries_of(p2).len() == 0);
        }
        assert forall|p2: int, j: int|
            #![trigger post.entries_of(p2)[j]]
            0 <= p2 < crate::config::MAX_PRIORITIES && 0 <= j < post.entries_of(p2).len() implies
            post.ready_entry_ok(p2, j) by {
            assert(pre.ready_entry_ok(p2, j));
        }
        // the unlinked item is in neither delayed list, whose order and
        // bound therefore stand
        let d = post.delayed_list as int;
        let o = post.overflow_delayed_list as int;
        assert forall|j: int|
            0 <= j < post.entries_of(d).len() implies (#[trigger] post.entries_of(d)[j]).is_state
                && post.entries_of(d)[j].owner != t by {
            assert(pre.entries_of(d)[j].is_state);
            if pre.entries_of(d)[j].owner == t {
                assert(pre.container_of(t, true) == Some(post.delayed_list));
            }
        }
        assert forall|j: int|
            0 <= j < post.entries_of(o).len() implies (#[trigger] post.entries_of(o)[j]).is_state
                && post.entries_of(o)[j].owner != t by {
            assert(pre.entries_of(o)[j].is_state);
            if pre.entries_of(o)[j].owner == t {
                assert(pre.container_of(t, true) == Some(post.overflow_delayed_list));
            }
        }
        assert forall|j1: int, j2: int|
            0 <= j1 < j2 < post.entries_of(d).len() implies post.entry_value(
            #[trigger] post.entries_of(d)[j1],
        ) <= post.entry_value(#[trigger] post.entries_of(d)[j2]) by {
            assert(pre.entry_value(pre.entries_of(d)[j1]) <= pre.entry_value(
                pre.entries_of(d)[j2],
            ));
        }
        assert forall|j1: int, j2: int|
            0 <= j1 < j2 < post.entries_of(o).len() implies post.entry_value(
            #[trigger] post.entries_of(o)[j1],
        ) <= post.entry_value(#[trigger] post.entries_of(o)[j2]) by {
            assert(pre.entry_value(pre.entries_of(o)[j1]) <= pre.entry_value(
                pre.entries_of(o)[j2],
            ));
        }
        if post.entries_of(d).len() > 0 {
            assert(post.entry_value(post.entries_of(d)[0]) == pre.entry_value(
                pre.entries_of(d)[0],
            ));
        }
    }
}


/// Set a task's effective and base priority in one step.  The kernel stays
/// well formed when the new pair is ordered and in range and the task's
/// state item is not linked in a ready list.
pub(crate) fn set_priorities(k: &mut Kernel, t: usize, new_prio: UBaseType, new_base: UBaseType)
    requires
        t < old(k).tasks@.len(),
    ensures
        final(k).tasks@ == old(k).tasks@.update(
            t as int,
            (task_control_block {
                task_priority: new_prio,
                base_priority: new_base,
                ..old(k).tasks@[t as int]
            }),
        ),
        final(k).lists@ == old(k).lists@,
        Kernel::same_scalars(old(k), final(k)),
        old(k).wf() && new_base <= new_prio && new_prio < MAX_PRIORITIES && (match old(k).container_of(t, true) {
            Option::None => true,
            Option::Some(l) => l >= MAX_PRIORITIES,
        }) ==> final(k).wf(),
{
    let ghost pre = *k;
    let tcb = &mut k.tasks[t];
    tcb.task_priority = new_prio;
    tcb.base_priority = new_base;
    proof {
        let post = *k;
        crate::task_global::lemma_task_update_transfer(pre, post, t);
        if pre.wf() && new_base <= new_prio && new_prio < MAX_PRIORITIES && (match pre.container_of(
            t,
            true,
        ) {
            Option::None => true,
            Option::Some(l) => l >= MAX_PRIORITIES,
        }) {
            assert forall|t2: int| 0 <= t2 < post.tasks@.len() implies #[trigger] post.task_ok(
                t2,
            ) by {
                assert(pre.task_ok(t2));
            }
            assert forall|p: int, j: int|
                #![trigger post.entries_of(p)[j]]
                0 <= p < MAX_PRIORITIES && 0 <= j < post.entries_of(p).len() implies post
                .ready_entry_ok(p, j) by {
                assert(pre.ready_entry_ok(p, j));
                if pre.entries_of(p)[j].owner == t {
                    assert(pre.container_of(t, true) == Some(p as usize));
                    assert(false);
                }
            }
            assert forall|p: int|
                post.top_ready_priority < p < MAX_PRIORITIES implies (#[trigger] post.entries_of(
                p,
            )).len() == 0 by {
                assert(pre.entries_of(p).len() == 0);
            }
        }
    }
}

/// The effective priority of `xTask`, or of the calling task when none is
/// named.
pub fn task_priority_get(k: &Kernel, xTask: Option<TaskHandle>) -> (r: UBaseType)
    requires
        k.tasks_wf(),
        k.current_task.is_some(),
        match xTask {
            Some(h) => h.0 < k.tasks@.len(),
            None => true,
        },
    ensures
        r == k.tasks@[(match xTask {
            Some(h) => h.0,
            None => k.current_task.unwrap(),
        }) as int].task_priority,
{
    let t: usize = match xTask {
        Some(h) => h.0,
        None => match k.current_task {
            Some(c) => c,
            None => 0,
        },
    };
    k.tasks[t].get_priority()
}

/// Set a task's priority: the request is clamped below [`MAX_PRIORITIES`],
/// `base_priority` follows it, and the effective priority follows too
/// unless an inherited boost still exceeds it (a base raised above the
/// boost takes effect at once, so the effective priority never drops below
/// the base).  A task sitting in a ready list moves to the list of its new
/// effective priority, its event key is re-keyed unless borrowed, and a
/// yield is requested by the original's rule.
/// Apply a new effective/base priority pair to a task: the event key is
/// re-keyed to the new effective priority unless borrowed, and a task
/// sitting in a ready list moves to the list of its new effective priority.
#[verifier::rlimit(100)]
#[verifier::spinoff_prover]
fn reprioritize_task(k: &mut Kernel, t: usize, new_e: UBaseType, new_base: UBaseType)
    requires
        old(k).wf(),
        t < old(k).tasks@.len(),
        new_base <= new_e < MAX_PRIORITIES,
    ensures
        final(k).wf(),
        final(k).current_task == old(k).current_task,
        final(k).tick_count == old(k).tick_count,
        final(k).scheduler_suspended == old(k).scheduler_suspended,
        final(k).scheduler_running == old(k).scheduler_running,
        final(k).pended_ticks == old(k).pended_ticks,
        final(k).num_of_overflows == old(k).num_of_overflows,
        final(k).yield_pending == old(k).yield_pending,
        final(k).tasks@.len() == old(k).tasks@.len(),
        final(k).lists@.len() == old(k).lists@.len(),
        final(k).tasks@[t as int].base_priority == new_base,
        final(k).tasks@[t as int].task_priority == new_e,
        (old(k).container_of(t, true) == Some(old(k).tasks@[t as int].task_priority as usize)
            ==> final(k).container_of(t, true) == Some(new_e as usize)),
        (old(k).container_of(t, true) != Some(old(k).tasks@[t as int].task_priority as usize)
            ==> final(k).container_of(t, true) == old(k).container_of(t, true)),
        forall|t2: int|
            0 <= t2 < old(k).tasks@.len() && t2 != t ==> (#[trigger] final(k).tasks@[t2]).task_priority == old(k).tasks@[t2].task_priority && final(k).tasks@[t2].base_priority == old(k).tasks@[t2].base_priority,
{
    let handle = TaskHandle(t);
    let old_e: UBaseType = handle.get_priority(k);
    proof {
        assert(k.task_ok(t as int));
    }
    // re-key the event item unless its value is borrowed
    let ev_val: TickType = k.tasks[t].event_list_item.item_value;
    if ev_val & crate::task_queue::taskEVENT_LIST_ITEM_VALUE_IN_USE == 0 {
        crate::task_queue::set_event_item_value(k, t, (MAX_PRIORITIES - new_e) as TickType);
    }
    let in_ready: bool = crate::list::is_contained_within(k, old_e as usize, t, true);
    proof {
        // a task linked in any ready list sits in the one matching its
        // priority
        if !in_ready {
            if k.container_of(t, true).is_some() {
                let l = k.container_of(t, true).unwrap();
                if l < MAX_PRIORITIES {
                    let j = k.entry_index(l as int, t, true);
                    assert(k.has_entry(l as int, t, true));
                    assert(k.entries_of(l as int)[j] == (ListEntry { owner: t, is_state: true }));
                    assert(k.ready_entry_ok(l as int, j));
                    assert(l == old_e);
                    assert(false);
                }
            }
        }
    }
    if in_ready {
        crate::list::list_remove(k, t, true);
        set_priorities(k, t, new_e, new_base);
        let res = handle.add_task_to_ready_list(k);
        proof {
            assert(res.is_ok());
        }
    } else {
        set_priorities(k, t, new_e, new_base);
    }
}

/// Set a task's priority: the request is clamped below [`MAX_PRIORITIES`],
/// `base_priority` follows it, and the effective priority follows too
/// unless an inherited boost still exceeds it (a base raised above the
/// boost takes effect at once, so the effective priority never drops below
/// the base).  A task sitting in a ready list moves to the list of its new
/// effective priority, its event key is re-keyed unless borrowed, and a
/// yield is requested by the original's rule.
pub fn task_priority_set(k: &mut Kernel, xTask: Option<TaskHandle>, uxNewPriority: UBaseType)
    requires
        old(k).wf(),
        old(k).current_task.is_some(),
        match xTask {
            Some(h) => h.0 < old(k).tasks@.len(),
            None => true,
        },
    ensures
        final(k).wf(),
        final(k).current_task == old(k).current_task,
        final(k).tick_count == old(k).tick_count,
        final(k).scheduler_suspended == old(k).scheduler_suspended,
        final(k).scheduler_running == old(k).scheduler_running,
        final(k).pended_ticks == old(k).pended_ticks,
        final(k).num_of_overflows == old(k).num_of_overflows,
        final(k).tasks@.len() == old(k).tasks@.len(),
        final(k).lists@.len() == old(k).lists@.len(),
        ({
            let t = (match xTask {
                Some(h) => h.0,
                None => old(k).current_task.unwrap(),
            });
            let p = if uxNewPriority >= MAX_PRIORITIES {
                (MAX_PRIORITIES - 1) as UBaseType
            } else {
                uxNewPriority
            };
            let old_e = old(k).tasks@[t as int].task_priority;
            let boosted = old(k).tasks@[t as int].base_priority != old_e;
            let new_e = if !boosted || p > old_e {
                p
            } else {
                old_e
            };
            &&& final(k).tasks@[t as int].base_priority == p
            &&& final(k).tasks@[t as int].task_priority == new_e
            &&& (old(k).container_of(t, true) == Some(old_e as usize) ==> final(k).container_of(
                t,
                true,
            ) == Some(new_e as usize))
            &&& (old(k).container_of(t, true) != Some(old_e as usize) ==> final(k).container_of(
                t,
                true,
            ) == old(k).container_of(t, true))
            &&& forall|t2: int|
                0 <= t2 < old(k).tasks@.len() && t2 != t ==> (#[trigger] final(k).tasks@[t2]).task_priority == old(k).tasks@[t2].task_priority && final(k).tasks@[t2].base_priority == old(k).tasks@[t2].base_priority
            &&& final(k).yield_pending == (old(k).yield_pending || (old(k).tasks@[t as int].base_priority != p && t != old(k).current_task.unwrap() && p
                >= old(k).tasks@[old(k).current_task.unwrap() as int].task_priority) || (old(k).tasks@[t as int].base_priority == p && t == old(k).current_task.unwrap()))
        }),
{
    let t: usize = match xTask {
        Some(h) => h.0,
        None => match k.current_task {
            Some(c) => c,
            None => 0,
        },
    };
    let p: UBaseType = if uxNewPriority >= MAX_PRIORITIES {
        MAX_PRIORITIES - 1
    } else {
        uxNewPriority
    };
    let cur: usize = match k.current_task {
        Some(c) => c,
        None => 0,
    };
    let cur_prio: UBaseType = k.tasks[cur].get_priority();
    let handle = TaskHandle(t);
    let old_base: UBaseType = handle.get_base_priority(k);
    let old_e: UBaseType = handle.get_priority(k);
    let yield_required: bool = (old_base != p && t != cur && p >= cur_prio) || (old_base == p
        && t == cur);
    let boosted: bool = old_base != old_e;
    let new_e: UBaseType = if !boosted || p > old_e {
        p
    } else {
        old_e
    };
    proof {
        assert(k.task_ok(t as int));
    }
    reprioritize_task(k, t, new_e, p);
    if yield_required {
        let ghost pre = *k;
        k.yield_pending = true;
        proof {
            assert forall|x: int| 0 <= x < pre.lists@.len() implies pre.entries_of(x)
                == k.entries_of(x) by {}
            crate::task_global::lemma_components_transfer(pre, *k);
        }
    }
}

/// Suspend a task: both its items are unlinked and its state item joins the
/// suspended list, where no tick will wake it.  With the scheduler running
/// the next wakeup is recomputed, and suspending the running task requests
/// a yield.
pub fn suspend_task(k: &mut Kernel, task_to_suspend: TaskHandle)
    requires
        old(k).wf(),
        old(k).current_task.is_some(),
        task_to_suspend.0 < old(k).tasks@.len(),
        old(k).container_of(task_to_suspend.0, true).is_some(),
    ensures
        final(k).wf(),
        final(k).current_task == old(k).current_task,
        final(k).tick_count == old(k).tick_count,
        final(k).scheduler_suspended == old(k).scheduler_suspended,
        final(k).scheduler_running == old(k).scheduler_running,
        final(k).pended_ticks == old(k).pended_ticks,
        final(k).num_of_overflows == old(k).num_of_overflows,
        final(k).tasks@.len() == old(k).tasks@.len(),
        final(k).lists@.len() == old(k).lists@.len(),
        final(k).container_of(task_to_suspend.0, true) == Some(
            crate::task_global::SUSPENDED_TASK_LIST,
        ),
        final(k).container_of(task_to_suspend.0, false).is_none(),
        forall|t2: usize|
            t2 < old(k).tasks@.len() && t2 != task_to_suspend.0 ==> (#[trigger] final(k).container_of(t2, true)) == old(k).container_of(t2, true) && final(k).container_of(
                t2,
                false,
            ) == old(k).container_of(t2, false),
        forall|t2: int|
            0 <= t2 < old(k).tasks@.len() ==> (#[trigger] final(k).tasks@[t2]).task_priority
                == old(k).tasks@[t2].task_priority,
        old(k).scheduler_running ==> final(k).next_task_unblock_time == (if final(k).entries_of(
            final(k).delayed_list as int,
        ).len() == 0 {
            crate::port::portMAX_DELAY as int
        } else {
            final(k).entry_value(final(k).entries_of(final(k).delayed_list as int)[0]) as int
        }),
        final(k).yield_pending == (old(k).yield_pending || (task_to_suspend.0 == old(k).current_task.unwrap() && old(k).scheduler_running)),
{
    let t: usize = task_to_suspend.0;
    crate::list::list_remove(k, t, true);
    let ev: Option<usize> = k.tasks[t].event_list_item.container;
    if ev.is_some() {
        crate::list::list_remove(k, t, false);
    }
    proof {
        crate::task_global::lemma_list_len_bound(
            k,
            crate::task_global::SUSPENDED_TASK_LIST as int,
        );
    }
    crate::list::list_insert_end(k, crate::task_global::SUSPENDED_TASK_LIST, t, true);
    if k.get_scheduler_running() {
        crate::kernel::reset_next_task_unblock_time(k);
    }
    let cur: usize = match k.current_task {
        Some(c) => c,
        None => 0,
    };
    if t == cur && k.get_scheduler_running() {
        let ghost pre = *k;
        k.yield_pending = true;
        proof {
            assert forall|x: int| 0 <= x < pre.lists@.len() implies pre.entries_of(x)
                == k.entries_of(x) by {}
            crate::task_global::lemma_components_transfer(pre, *k);
        }
    }
}

/// Whether a task is truly suspended: parked on the suspended list and not
/// waiting on any event.
pub fn task_is_tasksuspended(k: &Kernel, xtask: &TaskHandle) -> (r: bool)
    requires
        xtask.0 < k.tasks@.len(),
    ensures
        r == (k.container_of(xtask.0, true) == Some(crate::task_global::SUSPENDED_TASK_LIST)
            && k.container_of(xtask.0, false).is_none()),
{
    let in_suspended: bool = crate::list::is_contained_within(
        k,
        crate::task_global::SUSPENDED_TASK_LIST,
        xtask.0,
        true,
    );
    if !in_suspended {
        return false;
    }
    let ev: Option<usize> = k.tasks[xtask.0].event_list_item.container;
    ev.is_none()
}

/// Resume a suspended task: it re-enters the ready list of its priority,
/// and a yield is requested when it matches or beats the running priority.
/// Resuming the running task, or one that is not suspended, does nothing.
pub fn resume_task(k: &mut Kernel, task_to_resume: TaskHandle)
    requires
        old(k).wf(),
        old(k).current_task.is_some(),
        task_to_resume.0 < old(k).tasks@.len(),
    ensures
        final(k).wf(),
        final(k).current_task == old(k).current_task,
        final(k).tick_count == old(k).tick_count,
        final(k).scheduler_suspended == old(k).scheduler_suspended,
        final(k).scheduler_running == old(k).scheduler_running,
        final(k).tasks@.len() == old(k).tasks@.len(),
        final(k).lists@.len() == old(k).lists@.len(),
        ({
            let t = task_to_resume.0;
            let was_suspended = old(k).container_of(t, true) == Some(
                crate::task_global::SUSPENDED_TASK_LIST,
            ) && old(k).container_of(t, false).is_none();
            if t != old(k).current_task.unwrap() && was_suspended {
                &&& final(k).container_of(t, true) == Some(
                    old(k).tasks@[t as int].task_priority as usize,
                )
                &&& final(k).container_of(t, false).is_none()
                &&& final(k).yield_pending == (old(k).yield_pending || old(k).tasks@[t as int].task_priority >= old(k).tasks@[old(k).current_task.unwrap() as int].task_priority)
            } else {
                *final(k) == *old(k)
            }
        }),
{
    let t: usize = task_to_resume.0;
    let cur: usize = match k.current_task {
        Some(c) => c,
        None => 0,
    };
    if t == cur {
        return ;
    }
    let suspended: bool = task_is_tasksuspended(k, &task_to_resume);
    if !suspended {
        return ;
    }
    crate::list::list_remove(k, t, true);
    let handle = TaskHandle(t);
    let res = handle.add_task_to_ready_list(k);
    proof {
        assert(res.is_ok());
    }
    let cur_prio: UBaseType = k.tasks[cur].get_priority();
    let t_prio: UBaseType = k.tasks[t].get_priority();
    if t_prio >= cur_prio {
        let ghost pre = *k;
        k.yield_pending = true;
        proof {
            assert forall|x: int| 0 <= x < pre.lists@.len() implies pre.entries_of(x)
                == k.entries_of(x) by {}
            crate::task_global::lemma_components_transfer(pre, *k);
        }
    }
}

/// Delete a task: both its items are unlinked.  A task deleting itself is
/// parked on the termination list for the idle task to reap and a yield is
/// requested; deleting another task releases its slot at once, with the
/// next wakeup recomputed in case it referred to the deleted task.
pub fn task_delete(k: &mut Kernel, task_to_delete: Option<TaskHandle>)
    requires
        old(k).wf(),
        old(k).current_task.is_some(),
        match task_to_delete {
            Some(h) => h.0 < old(k).tasks@.len(),
            None => true,
        },
        old(k).container_of(
            (match task_to_delete {
                Some(h) => h.0,
                None => old(k).current_task.unwrap(),
            }),
            true,
        ).is_some(),
        old(k).task_number < UBaseType::MAX,
        old(k).deleted_tasks_waiting_clean_up < UBaseType::MAX,
    ensures
        final(k).wf(),
        final(k).current_task == old(k).current_task,
        final(k).tick_count == old(k).tick_count,
        final(k).scheduler_suspended == old(k).scheduler_suspended,
        final(k).scheduler_running == old(k).scheduler_running,
        final(k).tasks@.len() == old(k).tasks@.len(),
        final(k).lists@.len() == old(k).lists@.len(),
        final(k).task_number == old(k).task_number + 1,
        ({
            let t = (match task_to_delete {
                Some(h) => h.0,
                None => old(k).current_task.unwrap(),
            });
            &&& final(k).container_of(t, false).is_none()
            &&& (t == old(k).current_task.unwrap() ==> final(k).container_of(t, true) == Some(
                crate::task_global::TASKS_WAITING_TERMINATION,
            ) && final(k).deleted_tasks_waiting_clean_up == old(k).deleted_tasks_waiting_clean_up + 1 && final(k).current_number_of_tasks == old(k).current_number_of_tasks)
            &&& (t != old(k).current_task.unwrap() ==> final(k).container_of(
                t,
                true,
            ).is_none() && final(k).current_number_of_tasks == (if old(k).current_number_of_tasks > 0 {
                old(k).current_number_of_tasks - 1
            } else {
                0int
            }) && final(k).next_task_unblock_time == (if final(k).entries_of(
                final(k).delayed_list as int,
            ).len() == 0 {
                crate::port::portMAX_DELAY as int
            } else {
                final(k).entry_value(final(k).entries_of(final(k).delayed_list as int)[0]) as int
            }))
        }),
{
    let t: usize = match task_to_delete {
        Some(h) => h.0,
        None => match k.current_task {
            Some(c) => c,
            None => 0,
        },
    };
    crate::list::list_remove(k, t, true);
    let ev: Option<usize> = k.tasks[t].event_list_item.container;
    if ev.is_some() {
        crate::list::list_remove(k, t, false);
    }
    let ghost pre1 = *k;
    k.task_number = k.task_number + 1;
    proof {
        assert forall|x: int| 0 <= x < pre1.lists@.len() implies pre1.entries_of(x)
            == k.entries_of(x) by {}
        crate::task_global::lemma_components_transfer(pre1, *k);
    }
    let cur: usize = match k.current_task {
        Some(c) => c,
        None => 0,
    };
    if t == cur {
        proof {
            crate::task_global::lemma_list_len_bound(
                k,
                crate::task_global::TASKS_WAITING_TERMINATION as int,
            );
        }
        crate::list::list_insert_end(k, crate::task_global::TASKS_WAITING_TERMINATION, t, true);
        let ghost pre2 = *k;
        k.deleted_tasks_waiting_clean_up = k.deleted_tasks_waiting_clean_up + 1;
        proof {
            assert forall|x: int| 0 <= x < pre2.lists@.len() implies pre2.entries_of(x)
                == k.entries_of(x) by {}
            crate::task_global::lemma_components_transfer(pre2, *k);
        }
    } else {
        if k.current_number_of_tasks > 0 {
            let ghost pre3 = *k;
            k.current_number_of_tasks = k.current_number_of_tasks - 1;
            proof {
                assert forall|x: int| 0 <= x < pre3.lists@.len() implies pre3.entries_of(x)
                    == k.entries_of(x) by {}
                crate::task_global::lemma_components_transfer(pre3, *k);
            }
        }
        crate::kernel::reset_next_task_unblock_time(k);
    }
}

/// A task handle: a shared name for one control block in the kernel's task
/// arena.  Two handles are equal exactly when they name the same task.
#[derive(Clone, Copy, Debug, PartialEq, Eq, Structural)]
pub struct TaskHandle(pub usize);

impl TaskHandle {
    /// The raw arena index behind the handle.
    pub fn as_raw(self) -> (r: usize)
        ensures
            r == self.0,
    {
        self.0
    }

    /// Register a control block in the kernel's task arena and hand back its
    /// handle.  Both list items become owned by the new task; nothing is
    /// placed in any list yet.
    pub fn from(k: &mut Kernel, tcb: task_control_block) -> (r: TaskHandle)
        requires
            old(k).wf(),
            tcb.state_list_item.container.is_none(),
            tcb.event_list_item.container.is_none(),
            tcb.task_priority < MAX_PRIORITIES,
            tcb.base_priority <= tcb.task_priority,
            old(k).tasks@.len() < 0x7fff_ffff,
        ensures
            final(k).wf(),
            r.0 == old(k).tasks@.len(),
            final(k).tasks@.len() == old(k).tasks@.len() + 1,
            final(k).tasks@ == old(k).tasks@.push(final(k).tasks@[r.0 as int]),
            final(k).tasks@[r.0 as int] == (task_control_block {
                state_list_item: crate::list::ListItem { owner: r.0, ..tcb.state_list_item },
                event_list_item: crate::list::ListItem { owner: r.0, ..tcb.event_list_item },
                ..tcb
            }),
            final(k).lists@ == old(k).lists@,
            Kernel::same_scalars(old(k), final(k)),
    {
        let ghost pre = *k;
        let id: usize = k.tasks.len();
        let mut tcb = tcb;
        tcb.state_list_item.owner = id;
        tcb.event_list_item.owner = id;
        k.tasks.push(tcb);
        proof {
            crate::task_global::lemma_push_task(pre, *k);
        }
        TaskHandle(id)
    }

    /// The task's effective priority.
    pub fn get_priority(&self, k: &Kernel) -> (r: UBaseType)
        requires
            self.0 < k.tasks@.len(),
        ensures
            r == k.tasks@[self.0 as int].task_priority,
    {
        k.tasks[self.0].get_priority()
    }

    /// Set the task's effective priority field.  List membership is the
    /// caller's business: the kernel stays well formed only while the task's
    /// state item is not linked into a ready list.
    pub fn set_priority(&self, k: &mut Kernel, new_priority: UBaseType)
        requires
            self.0 < old(k).tasks@.len(),
        ensures
            final(k).tasks@ == old(k).tasks@.update(
                self.0 as int,
                (task_control_block {
                    task_priority: new_priority,
                    ..old(k).tasks@[self.0 as int]
                }),
            ),
            final(k).lists@ == old(k).lists@,
            Kernel::same_scalars(old(k), final(k)),
            old(k).wf() && new_priority < MAX_PRIORITIES && old(k).tasks@[self.0 as int].base_priority <= new_priority && (match old(k).container_of(
                self.0,
                true,
            ) {
                Option::None => true,
                Option::Some(l) => l >= MAX_PRIORITIES,
            }) ==> final(k).wf(),
    {
        let ghost pre = *k;
        let tcb = &mut k.tasks[self.0];
        tcb.task_priority = new_priority;
        proof {
            let post = *k;
            let t = self.0;
            crate::task_global::lemma_task_update_transfer(pre, post, t);
            if pre.wf() && new_priority < MAX_PRIORITIES && pre.tasks@[t as int].base_priority
                <= new_priority && (match pre.container_of(t, true) {
                Option::None => true,
                Option::Some(l) => l >= MAX_PRIORITIES,
            }) {
                assert forall|t2: int| 0 <= t2 < post.tasks@.len() implies #[trigger] post.task_ok(
                    t2,
                ) by {
                    assert(pre.task_ok(t2));
                }
                assert forall|p: int, j: int|
                    #![trigger post.entries_of(p)[j]]
                    0 <= p < MAX_PRIORITIES && 0 <= j < post.entries_of(p).len() implies post
                    .ready_entry_ok(p, j) by {
                    assert(pre.ready_entry_ok(p, j));
                    if pre.entries_of(p)[j].owner == t {
                        assert(pre.container_of(t, true) == Some(p as usize));
                        assert(false);
                    }
                }
                assert forall|p: int|
                    post.top_ready_priority < p < MAX_PRIORITIES implies (
                #[trigger] post.entries_of(p)).len() == 0 by {
                    assert(pre.entries_of(p).len() == 0);
                }
            }
        }
    }

    /// The task's state list item.
    pub fn get_state_list_item(&self, k: &Kernel) -> (r: ListItem)
        requires
            self.0 < k.tasks@.len(),
        ensures
            r == k.tasks@[self.0 as int].state_list_item,
    {
        k.tasks[self.0].get_state_list_item()
    }

    /// The task's event list item.
    pub fn get_event_list_item(&self, k: &Kernel) -> (r: ListItem)
        requires
            self.0 < k.tasks@.len(),
        ensures
            r == k.tasks@[self.0 as int].event_list_item,
    {
        k.tasks[self.0].get_event_list_item()
    }

    /// The task's name.
    pub fn get_name(&self, k: &Kernel) -> (r: String)
        requires
            self.0 < k.tasks@.len(),
        ensures
            r@ == k.tasks@[self.0 as int].task_name@,
    {
        k.tasks[self.0].get_name()
    }

    /// Accumulated run time.
    pub fn get_run_time(&self, k: &Kernel) -> (r: TickType)
        requires
            self.0 < k.tasks@.len(),
        ensures
            r == k.tasks@[self.0 as int].runtime_counter,
    {
        k.tasks[self.0].get_run_time()
    }

    /// Replace the accumulated run time, returning the previous value.
    pub fn set_run_time(&self, k: &mut Kernel, next_val: TickType) -> (prev: TickType)
        requires
            self.0 < old(k).tasks@.len(),
        ensures
            prev == old(k).tasks@[self.0 as int].runtime_counter,
            final(k).tasks@ == old(k).tasks@.update(
                self.0 as int,
                (task_control_block {
                    runtime_counter: next_val,
                    ..old(k).tasks@[self.0 as int]
                }),
            ),
            final(k).lists@ == old(k).lists@,
            Kernel::same_scalars(old(k), final(k)),
            old(k).wf() ==> final(k).wf(),
    {
        let ghost pre = *k;
        let tcb = &mut k.tasks[self.0];
        let prev: TickType = tcb.set_run_time(next_val);
        proof {
            crate::task_global::lemma_task_update_transfer(pre, *k, self.0);
        }
        prev
    }

    /// Whether an abort of the task's current wait is pending.
    pub fn get_delay_aborted(&self, k: &Kernel) -> (r: bool)
        requires
            self.0 < k.tasks@.len(),
        ensures
            r == k.tasks@[self.0 as int].delay_aborted,
    {
        k.tasks[self.0].get_delay_aborted()
    }

    /// Replace the abort flag, returning the previous value.
    pub fn set_delay_aborted(&self, k: &mut Kernel, next_val: bool) -> (prev: bool)
        requires
            self.0 < old(k).tasks@.len(),
        ensures
            prev == old(k).tasks@[self.0 as int].delay_aborted,
            final(k).tasks@ == old(k).tasks@.update(
                self.0 as int,
                (task_control_block { delay_aborted: next_val, ..old(k).tasks@[self.0 as int] }),
            ),
            final(k).lists@ == old(k).lists@,
            Kernel::same_scalars(old(k), final(k)),
            old(k).wf() ==> final(k).wf(),
    {
        let ghost pre = *k;
        let tcb = &mut k.tasks[self.0];
        let prev: bool = tcb.set_delay_aborted(next_val);
        proof {
            crate::task_global::lemma_task_update_transfer(pre, *k, self.0);
        }
        prev
    }

    /// How many mutexes the task holds.
    pub fn get_mutex_held_count(&self, k: &Kernel) -> (r: UBaseType)
        requires
            self.0 < k.tasks@.len(),
        ensures
            r == k.tasks@[self.0 as int].mutexes_held,
    {
        k.tasks[self.0].get_mutex_held_count()
    }

    /// Set the held-mutex counter.
    pub fn set_mutex_held_count(&self, k: &mut Kernel, new_count: UBaseType)
        requires
            self.0 < old(k).tasks@.len(),
        ensures
            final(k).tasks@ == old(k).tasks@.update(
                self.0 as int,
                (task_control_block { mutexes_held: new_count, ..old(k).tasks@[self.0 as int] }),
            ),
            final(k).lists@ == old(k).lists@,
            Kernel::same_scalars(old(k), final(k)),
            old(k).wf() ==> final(k).wf(),
    {
        let ghost pre = *k;
        let tcb = &mut k.tasks[self.0];
        tcb.set_mutex_held_count(new_count);
        proof {
            crate::task_global::lemma_task_update_transfer(pre, *k, self.0);
        }
    }

    /// The task's base (uninherited) priority.
    pub fn get_base_priority(&self, k: &Kernel) -> (r: UBaseType)
        requires
            self.0 < k.tasks@.len(),
        ensures
            r == k.tasks@[self.0 as int].base_priority,
    {
        k.tasks[self.0].get_base_priority()
    }

    /// Set the task's base priority field.
    pub fn set_base_priority(&self, k: &mut Kernel, new_val: UBaseType)
        requires
            self.0 < old(k).tasks@.len(),
        ensures
            final(k).tasks@ == old(k).tasks@.update(
                self.0 as int,
                (task_control_block { base_priority: new_val, ..old(k).tasks@[self.0 as int] }),
            ),
            final(k).lists@ == old(k).lists@,
            Kernel::same_scalars(old(k), final(k)),
            old(k).wf() && new_val <= old(k).tasks@[self.0 as int].task_priority ==> final(k).wf(),
    {
        let ghost pre = *k;
        let tcb = &mut k.tasks[self.0];
        tcb.set_base_priority(new_val);
        proof {
            let post = *k;
            crate::task_global::lemma_task_update_transfer(pre, post, self.0);
            if pre.wf() && new_val <= pre.tasks@[self.0 as int].task_priority {
                assert forall|t2: int| 0 <= t2 < post.tasks@.len() implies #[trigger] post.task_ok(
                    t2,
                ) by {
                    assert(pre.task_ok(t2));
                }
            }
        }
    }

    /// Place the task at the tail of the ready list for its priority,
    /// raising `top_ready_priority` when needed.  "Tail" means the round
    /// robin reaches every already ready task of this priority first.
    pub fn add_task_to_ready_list(&self, k: &mut Kernel) -> (r: Result<(), FreeRtosError>)
        requires
            old(k).wf(),
            self.0 < old(k).tasks@.len(),
            old(k).container_of(self.0, true).is_none(),
        ensures
            final(k).wf(),
            r.is_ok(),
            Kernel::same_scalars_but_top(old(k), final(k)),
            ({
                let t = self.0;
                let p = old(k).tasks@[t as int].task_priority;
                &&& final(k).top_ready_priority == if p > old(k).top_ready_priority {
                    p
                } else {
                    old(k).top_ready_priority
                }
                &&& final(k).tasks@ == old(k).tasks@.update(
                    t as int,
                    with_container(old(k).tasks@[t as int], true, Some(p as usize)),
                )
                &&& final(k).lists@.len() == old(k).lists@.len()
                &&& final(k).entries_of(p as int) =~= old(k).entries_of(p as int).insert(
                    old(k).lists@[p as int].index as int,
                    ListEntry { owner: t, is_state: true },
                )
                &&& final(k).lists@[p as int].index == old(k).lists@[p as int].index + 1
                &&& forall|x: int|
                    0 <= x < old(k).lists@.len() && x != p ==> final(k).lists@[x] == old(k).lists@[x]
            }),
    {
        let ghost first = *k;
        let t: usize = self.0;
        let priority: UBaseType = k.tasks[t].get_priority();
        proof {
            assert(first.task_ok(t as int));
        }
        if priority > k.top_ready_priority {
            let ghost pre = *k;
            k.top_ready_priority = priority;
            proof {
                assert forall|x: int| 0 <= x < pre.lists@.len() implies pre.entries_of(x)
                    == k.entries_of(x) by {}
                crate::task_global::lemma_components_transfer(pre, *k);
            }
        }
        let pl: usize = priority as usize;
        proof {
            crate::task_global::lemma_list_len_bound(k, pl as int);
        }
        crate::list::list_insert_end(k, pl, t, true);
        Ok(())
    }

    /// Register a freshly initialised task with the scheduler: count it,
    /// adopt it as the current task when it is the first one or when it
    /// outranks the current task before the scheduler has started, place it
    /// on its ready list, and request a yield when it outranks the running
    /// task of a started scheduler.
    pub fn add_new_task_to_ready_list(&self, k: &mut Kernel) -> (r: Result<(), FreeRtosError>)
        requires
            old(k).wf(),
            self.0 < old(k).tasks@.len(),
            old(k).container_of(self.0, true).is_none(),
            old(k).current_number_of_tasks < UBaseType::MAX,
            old(k).task_number < UBaseType::MAX,
        ensures
            final(k).wf(),
            r.is_ok(),
            final(k).current_number_of_tasks == old(k).current_number_of_tasks + 1,
            final(k).task_number == old(k).task_number + 1,
            final(k).current_task == (match old(k).current_task {
                Option::None => Some(self.0),
                Option::Some(c) => if !old(k).scheduler_running && old(k).tasks@[c as int].task_priority <= old(k).tasks@[self.0 as int].task_priority {
                    Some(self.0)
                } else {
                    Some(c)
                },
            }),
            final(k).yield_pending == (old(k).yield_pending || (old(k).scheduler_running
                && final(k).tasks@[final(k).current_task.unwrap() as int].task_priority < old(k).tasks@[self.0 as int].task_priority)),
            ({
                let t = self.0;
                let p = old(k).tasks@[t as int].task_priority;
                &&& final(k).top_ready_priority == if p > old(k).top_ready_priority {
                    p
                } else {
                    old(k).top_ready_priority
                }
                &&& final(k).tasks@ == old(k).tasks@.update(
                    t as int,
                    with_container(old(k).tasks@[t as int], true, Some(p as usize)),
                )
                &&& final(k).entries_of(p as int) =~= old(k).entries_of(p as int).insert(
                    old(k).lists@[p as int].index as int,
                    ListEntry { owner: t, is_state: true },
                )
                &&& final(k).lists@[p as int].index == old(k).lists@[p as int].index + 1
                &&& final(k).lists@.len() == old(k).lists@.len()
                &&& forall|x: int|
                    0 <= x < old(k).lists@.len() && x != p ==> final(k).lists@[x] == old(k).lists@[x]
                &&& final(k).tick_count == old(k).tick_count
                &&& final(k).scheduler_running == old(k).scheduler_running
                &&& final(k).scheduler_suspended == old(k).scheduler_suspended
                &&& final(k).next_task_unblock_time == old(k).next_task_unblock_time
                &&& final(k).delayed_list == old(k).delayed_list
                &&& final(k).overflow_delayed_list == old(k).overflow_delayed_list
                &&& final(k).pended_ticks == old(k).pended_ticks
                &&& final(k).num_of_overflows == old(k).num_of_overflows
            }),
    {
        let ghost first = *k;
        let t: usize = self.0;
        let n_o_t: UBaseType = k.current_number_of_tasks + 1;
        k.current_number_of_tasks = n_o_t;
        let adopt: bool = match k.current_task {
            None => true,
            Some(c) => {
                if !k.scheduler_running {
                    let cur_prio: UBaseType = k.tasks[c].get_priority();
                    let new_prio: UBaseType = k.tasks[t].get_priority();
                    cur_prio <= new_prio
                } else {
                    false
                }
            },
        };
        if adopt {
            k.current_task = Some(t);
        }
        k.task_number = k.task_number + 1;
        proof {
            assert forall|x: int| 0 <= x < first.lists@.len() implies first.entries_of(x)
                == k.entries_of(x) by {}
            crate::task_global::lemma_components_transfer(first, *k);
        }
        let res: Result<(), FreeRtosError> = self.add_task_to_ready_list(k);
        match res {
            Ok(()) => {},
            Err(e) => {
                return Err(e);
            },
        }
        if k.get_scheduler_running() {
            let cur: usize = match k.current_task {
                Some(c) => c,
                None => 0,
            };
            let cur_prio: UBaseType = k.tasks[cur].get_priority();
            let new_prio: UBaseType = k.tasks[t].get_priority();
            if cur_prio < new_prio {
                let ghost pre = *k;
                k.yield_pending = true;
                proof {
                    assert forall|x: int| 0 <= x < pre.lists@.len() implies pre.entries_of(x)
                        == k.entries_of(x) by {}
                    crate::task_global::lemma_components_transfer(pre, *k);
                }
            }
        }
        Ok(())
    }
}

} // verus!
