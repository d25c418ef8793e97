//! The generic blocking queue: a fixed-capacity buffer with blocking send
//! and receive, interrupt-safe locking counters, and the mutex-mode
//! specialisation that stores the holder's identity.
//!
//! Waiting lists live in the kernel's list arena; each queue allocates its
//! two at creation.  A blocked caller is parked on the queue's wait list
//! (priority-ordered) and on the delayed list for its wait budget.  Within
//! a single flow of control no second task can run while a caller waits, so
//! the blocking paths let the tick handler serve the wait out and fail once
//! the budget expires; the wakeup of parked peers on success and on unlock
//! goes through [`task_remove_from_event_list`], exactly as a hosting port
//! would drive it.

use vstd::prelude::*;

use crate::config::MAX_PRIORITIES;
use crate::port::{BaseType, TickType, UBaseType, portMAX_DELAY};
use crate::task_control::TaskHandle;
use crate::task_global::{Kernel, NUM_KERNEL_LISTS};
use crate::task_queue::{
    task_check_for_timeout, task_place_on_event_list, task_priority_disinherit,
    task_priority_inherit, task_remove_from_event_list, task_set_time_out_state,
    task_increment_mutex_held_count, task_missed_yield, time_out,
};

verus! {

/// Recoverable queue outcomes.
#[derive(Copy, Clone, Debug, PartialEq, Eq, Structural)]
pub enum QueueError {
    QueueSendTimeout,
    QueueReceiveTimeout,
    MutexTimeout,
    QueueFull,
    QueueEmpty,
}

/// Send position: behind everything already queued.
pub const queueSEND_TO_BACK: BaseType = 0;

/// Send position: ahead of everything already queued.
pub const queueSEND_TO_FRONT: BaseType = 1;

/// Send position: replace the single slot of a capacity-one queue.
pub const queueOVERWRITE: BaseType = 2;

/// Wait budget used when giving a semaphore back.
pub const semGIVE_BLOCK_TIME: TickType = 0;

/// Lock counter value meaning "unlocked".
pub const queueUNLOCKED: i8 = -1;

/// Lock counter value meaning "locked, nothing pended yet".
pub const queueLOCKED_UNMODIFIED: i8 = 0;

/// What a queue is used as.
#[derive(Copy, Clone, Debug, PartialEq, Eq, Structural)]
pub enum QueueType {
    Base,
    QueueSet,
    Mutex,
    CountingSemaphore,
    BinarySemaphore,
    RecursiveMutex,
}

/// The queue engine.  `pcQueue` holds the queued items in arrival order;
/// for mutex kinds the stored item is inert and `holder` carries the owning
/// task's identity instead.
pub struct QueueDefinition<T> {
    pub pcQueue: Vec<T>,
    /// A data queue's read cursor, a recursive mutex's take count.
    pub QueueUnion: UBaseType,
    pub uxMessagesWaiting: UBaseType,
    pub uxLength: UBaseType,
    /// Kernel list holding tasks blocked on a full queue.
    pub xTasksWaitingToSend: usize,
    /// Kernel list holding tasks blocked on an empty queue.
    pub xTasksWaitingToReceive: usize,
    pub cRxLock: i8,
    pub cTxLock: i8,
    pub ucQueueType: QueueType,
    /// The task currently holding a mutex-kind queue, if any.
    pub holder: Option<TaskHandle>,
}

impl<T> QueueDefinition<T> {
    /// The queued items, oldest first.
    pub open spec fn contents(&self) -> Seq<T> {
        self.pcQueue@
    }

    /// Whether this queue backs a mutex.
    pub open spec fn is_mutex_kind(&self) -> bool {
        self.ucQueueType == QueueType::Mutex || self.ucQueueType == QueueType::RecursiveMutex
    }

    /// Queue soundness against the kernel it lives in: the two wait lists
    /// exist and are distinct lists outside the kernel's own, the occupancy
    /// count matches the buffer and never exceeds the capacity, and a
    /// recorded holder names an existing task.
    pub open spec fn wf_q(&self, k: &Kernel) -> bool {
        &&& NUM_KERNEL_LISTS <= self.xTasksWaitingToSend < k.lists@.len()
        &&& NUM_KERNEL_LISTS <= self.xTasksWaitingToReceive < k.lists@.len()
        &&& self.xTasksWaitingToSend != self.xTasksWaitingToReceive
        &&& self.pcQueue@.len() == self.uxMessagesWaiting
        &&& self.uxMessagesWaiting <= self.uxLength
        &&& self.uxLength <= 0xffff_ffff
        &&& (self.is_mutex_kind() ==> self.uxLength == 1)
        &&& match self.holder {
            Some(h) => h.0 < k.tasks@.len(),
            None => true,
        }
    }

    /// True when the queue holds no items.
    pub fn is_queue_empty(&self) -> (r: bool)
        ensures
            r == (self.uxMessagesWaiting == 0),
    {
        self.uxMessagesWaiting == 0
    }

    /// True when the queue is at capacity.
    pub fn is_queue_full(&self) -> (r: bool)
        ensures
            r == (self.uxMessagesWaiting == self.uxLength),
    {
        self.uxMessagesWaiting == self.uxLength
    }

    /// Pre-load the occupancy count; counting semaphores start at zero.
    pub fn initialise_count(&mut self, initial_count: UBaseType)
        ensures
            *final(self) == (QueueDefinition { uxMessagesWaiting: initial_count, ..*old(self) }),
    {
        self.uxMessagesWaiting = initial_count;
    }

    /// Decrement the union field (a recursive mutex's take count).
    pub fn QueueUnion_decrease(&mut self)
        requires
            old(self).QueueUnion > 0,
        ensures
            *final(self) == (QueueDefinition {
                QueueUnion: (old(self).QueueUnion - 1) as UBaseType,
                ..*old(self)
            }),
    {
        self.QueueUnion = self.QueueUnion - 1;
    }

    /// Increment the union field (a recursive mutex's take count).
    pub fn QueueUnion_increase(&mut self)
        requires
            old(self).QueueUnion < UBaseType::MAX,
        ensures
            *final(self) == (QueueDefinition {
                QueueUnion: (old(self).QueueUnion + 1) as UBaseType,
                ..*old(self)
            }),
    {
        self.QueueUnion = self.QueueUnion + 1;
    }

    /// Whether the union field is zero.
    pub fn is_QueueUnion_zero(&self) -> (r: bool)
        ensures
            r == (self.QueueUnion == 0),
    {
        self.QueueUnion == 0
    }

    /// A recursive mutex's take count.
    pub fn get_recursive_count(&self) -> (r: UBaseType)
        ensures
            r == self.QueueUnion,
    {
        self.QueueUnion
    }

    /// The mutex holder stored in a mutex-kind queue.
    pub fn transed_task_handle_for_mutex(&self) -> (r: Option<TaskHandle>)
        ensures
            r == self.holder,
    {
        self.holder
    }

    /// Mark both directions locked, so an interrupt would pend its wakeups
    /// rather than touch the scheduler's lists.
    pub fn lock_queue(&mut self)
        ensures
            final(self).cRxLock == if old(self).cRxLock == queueUNLOCKED {
                queueLOCKED_UNMODIFIED as int
            } else {
                old(self).cRxLock as int
            },
            final(self).cTxLock == if old(self).cTxLock == queueUNLOCKED {
                queueLOCKED_UNMODIFIED as int
            } else {
                old(self).cTxLock as int
            },
            final(self).pcQueue == old(self).pcQueue,
            final(self).uxMessagesWaiting == old(self).uxMessagesWaiting,
            final(self).uxLength == old(self).uxLength,
            final(self).QueueUnion == old(self).QueueUnion,
            final(self).holder == old(self).holder,
            final(self).ucQueueType == old(self).ucQueueType,
            final(self).xTasksWaitingToSend == old(self).xTasksWaitingToSend,
            final(self).xTasksWaitingToReceive == old(self).xTasksWaitingToReceive,
    {
        if self.cRxLock == queueUNLOCKED {
            self.cRxLock = queueLOCKED_UNMODIFIED;
        }
        if self.cTxLock == queueUNLOCKED {
            self.cTxLock = queueLOCKED_UNMODIFIED;
        }
    }

    /// Replay the wakeups pended while the queue was locked — up to one
    /// waiting receiver per pended send and one waiting sender per pended
    /// receive, each exactly once — then return both counters to unlocked.
    /// With nothing pended (both counters at most zero) the kernel is left
    /// untouched.
    pub fn unlock_queue(&mut self, k: &mut Kernel)
        requires
            old(k).wf(),
            old(self).wf_q(old(k)),
            old(k).current_task.is_some(),
        ensures
            final(k).wf(),
            final(self).wf_q(final(k)),
            final(self).cRxLock == queueUNLOCKED,
            final(self).cTxLock == queueUNLOCKED,
            final(self).pcQueue == old(self).pcQueue,
            final(self).uxMessagesWaiting == old(self).uxMessagesWaiting,
            final(self).uxLength == old(self).uxLength,
            final(self).QueueUnion == old(self).QueueUnion,
            final(self).holder == old(self).holder,
            final(self).ucQueueType == old(self).ucQueueType,
            final(self).xTasksWaitingToSend == old(self).xTasksWaitingToSend,
            final(self).xTasksWaitingToReceive == old(self).xTasksWaitingToReceive,
            final(k).current_task == old(k).current_task,
            final(k).tick_count == old(k).tick_count,
            final(k).scheduler_suspended == old(k).scheduler_suspended,
            final(k).scheduler_running == old(k).scheduler_running,
            final(k).pended_ticks == old(k).pended_ticks,
            final(k).num_of_overflows == old(k).num_of_overflows,
            final(k).tasks@.len() == old(k).tasks@.len(),
            final(k).lists@.len() == old(k).lists@.len(),
            old(self).cTxLock <= queueLOCKED_UNMODIFIED && old(self).cRxLock
                <= queueLOCKED_UNMODIFIED ==> *final(k) == *old(k),
            // replay: a pended send wakes the head waiting receiver
            old(self).cTxLock > queueLOCKED_UNMODIFIED && wakeable_head(
                old(k),
                old(self).xTasksWaitingToReceive as int,
            ) ==> ({
                let t = old(k).entries_of(old(self).xTasksWaitingToReceive as int)[0].owner;
                &&& final(k).entries_of(old(self).xTasksWaitingToReceive as int).len() < old(k).entries_of(old(self).xTasksWaitingToReceive as int).len()
                &&& (old(k).scheduler_suspended == 0 ==> final(k).container_of(t, true) == Some(
                    old(k).tasks@[t as int].task_priority as usize,
                ) && final(k).container_of(t, false).is_none())
            }),
            // replay: a pended receive wakes the head waiting sender (when
            // the transmit side had nothing pended to disturb it first)
            old(self).cRxLock > queueLOCKED_UNMODIFIED && old(self).cTxLock
                <= queueLOCKED_UNMODIFIED && wakeable_head(
                old(k),
                old(self).xTasksWaitingToSend as int,
            ) ==> ({
                let t = old(k).entries_of(old(self).xTasksWaitingToSend as int)[0].owner;
                &&& final(k).entries_of(old(self).xTasksWaitingToSend as int).len() < old(k).entries_of(old(self).xTasksWaitingToSend as int).len()
                &&& (old(k).scheduler_suspended == 0 ==> final(k).container_of(t, true) == Some(
                    old(k).tasks@[t as int].task_priority as usize,
                ) && final(k).container_of(t, false).is_none())
            }),
            // wait lists only ever shrink here
            final(k).entries_of(old(self).xTasksWaitingToReceive as int).len() <= old(k).entries_of(old(self).xTasksWaitingToReceive as int).len(),
            final(k).entries_of(old(self).xTasksWaitingToSend as int).len() <= old(k).entries_of(old(self).xTasksWaitingToSend as int).len(),
    {
        let ghost rxl = old(self).xTasksWaitingToReceive as int;
        let ghost txl = old(self).xTasksWaitingToSend as int;
        let ghost t0rx = old(k).entries_of(rxl)[0].owner;
        let ghost t0tx = old(k).entries_of(txl)[0].owner;
        let ghost mut woke_rx_head: bool = false;
        let mut tx: i8 = self.cTxLock;
        while tx > queueLOCKED_UNMODIFIED
            invariant
                k.wf(),
                k.current_task.is_some(),
                k.current_task == old(k).current_task,
                k.tick_count == old(k).tick_count,
                k.scheduler_suspended == old(k).scheduler_suspended,
                k.scheduler_running == old(k).scheduler_running,
                k.pended_ticks == old(k).pended_ticks,
                k.num_of_overflows == old(k).num_of_overflows,
                k.tasks@.len() == old(k).tasks@.len(),
                k.lists@.len() == old(k).lists@.len(),
                *self == *old(self),
                old(self).wf_q(old(k)),
                rxl == old(self).xTasksWaitingToReceive as int,
                txl == old(self).xTasksWaitingToSend as int,
                t0rx == old(k).entries_of(rxl)[0].owner,
                tx <= old(self).cTxLock,
                old(self).cTxLock <= queueLOCKED_UNMODIFIED ==> *k == *old(k),
                k.entries_of(rxl).len() <= old(k).entries_of(rxl).len(),
                k.entries_of(txl).len() <= old(k).entries_of(txl).len(),
                !woke_rx_head ==> *k == *old(k),
                woke_rx_head ==> k.entries_of(rxl).len() < old(k).entries_of(rxl).len(),
                woke_rx_head && old(k).scheduler_suspended == 0 ==> k.container_of(t0rx, true)
                    == Some(old(k).tasks@[t0rx as int].task_priority as usize)
                    && k.container_of(t0rx, false).is_none(),
                woke_rx_head ==> wakeable_head(old(k), rxl) && t0rx < old(k).tasks@.len(),
                tx < old(self).cTxLock ==> woke_rx_head,
            ensures
                old(self).cTxLock > queueLOCKED_UNMODIFIED && wakeable_head(old(k), rxl)
                    ==> woke_rx_head,
            decreases tx,
        {
            let ghost pre_it = *k;
            let w: (bool, bool) = wake_head_waiter(k, self.xTasksWaitingToReceive);
            if !w.0 {
                proof {
                    if !woke_rx_head {
                        assert(pre_it == *old(k));
                        assert(!wakeable_head(old(k), rxl));
                    }
                }
                break;
            }
            proof {
                let th = pre_it.entries_of(rxl)[0].owner;
                if !woke_rx_head {
                    assert(pre_it == *old(k));
                    assert(th == t0rx);
                    woke_rx_head = true;
                } else {
                    if old(k).scheduler_suspended == 0 && th == t0rx {
                        // the first-woken task's event item is unlinked, so
                        // it cannot head the wait list again
                        assert(pre_it.entries_of(rxl)[0] == (crate::list::ListEntry {
                            owner: th,
                            is_state: false,
                        }));
                        assert(pre_it.container_of(t0rx, false) == Some(
                            old(self).xTasksWaitingToReceive,
                        ));
                        assert(false);
                    }
                }
            }
            task_missed_yield(k);
            tx = tx - 1;
        }
        self.cTxLock = queueUNLOCKED;
        let ghost mid = *k;
        let ghost mut any_tx_wake: bool = false;
        let mut rx: i8 = self.cRxLock;
        while rx > queueLOCKED_UNMODIFIED
            invariant
                k.wf(),
                k.current_task.is_some(),
                k.current_task == old(k).current_task,
                k.tick_count == old(k).tick_count,
                k.scheduler_suspended == old(k).scheduler_suspended,
                k.scheduler_running == old(k).scheduler_running,
                k.pended_ticks == old(k).pended_ticks,
                k.num_of_overflows == old(k).num_of_overflows,
                k.tasks@.len() == old(k).tasks@.len(),
                k.lists@.len() == old(k).lists@.len(),
                self.cTxLock == queueUNLOCKED,
                self.pcQueue == old(self).pcQueue,
                self.uxMessagesWaiting == old(self).uxMessagesWaiting,
                self.uxLength == old(self).uxLength,
                self.QueueUnion == old(self).QueueUnion,
                self.holder == old(self).holder,
                self.ucQueueType == old(self).ucQueueType,
                self.xTasksWaitingToSend == old(self).xTasksWaitingToSend,
                self.xTasksWaitingToReceive == old(self).xTasksWaitingToReceive,
                self.cRxLock == old(self).cRxLock,
                old(self).wf_q(old(k)),
                rxl == old(self).xTasksWaitingToReceive as int,
                txl == old(self).xTasksWaitingToSend as int,
                t0rx == old(k).entries_of(rxl)[0].owner,
                t0tx == old(k).entries_of(txl)[0].owner,
                rx <= old(self).cRxLock,
                old(self).cTxLock <= queueLOCKED_UNMODIFIED ==> mid == *old(k),
                old(self).cTxLock <= queueLOCKED_UNMODIFIED && old(self).cRxLock
                    <= queueLOCKED_UNMODIFIED ==> *k == *old(k),
                k.entries_of(rxl).len() <= mid.entries_of(rxl).len(),
                k.entries_of(txl).len() <= mid.entries_of(txl).len(),
                mid.entries_of(rxl).len() <= old(k).entries_of(rxl).len(),
                mid.entries_of(txl).len() <= old(k).entries_of(txl).len(),
                woke_rx_head ==> mid.entries_of(rxl).len() < old(k).entries_of(rxl).len(),
                old(self).cTxLock > queueLOCKED_UNMODIFIED && wakeable_head(old(k), rxl)
                    ==> woke_rx_head,
                woke_rx_head && old(k).scheduler_suspended == 0 ==> k.container_of(t0rx, true)
                    == Some(old(k).tasks@[t0rx as int].task_priority as usize)
                    && k.container_of(t0rx, false).is_none(),
                woke_rx_head ==> t0rx < old(k).tasks@.len(),
                !any_tx_wake ==> *k == mid,
                any_tx_wake ==> k.entries_of(txl).len() < mid.entries_of(txl).len(),
                any_tx_wake && old(self).cTxLock <= queueLOCKED_UNMODIFIED && old(k).scheduler_suspended == 0 ==> k.container_of(t0tx, true) == Some(
                    old(k).tasks@[t0tx as int].task_priority as usize,
                ) && k.container_of(t0tx, false).is_none() && t0tx < old(k).tasks@.len(),
                rx < old(self).cRxLock ==> any_tx_wake,
            ensures
                old(self).cRxLock > queueLOCKED_UNMODIFIED && old(self).cTxLock
                    <= queueLOCKED_UNMODIFIED && wakeable_head(old(k), txl) ==> any_tx_wake
                    && (old(k).scheduler_suspended == 0 ==> k.container_of(t0tx, true) == Some(
                    old(k).tasks@[t0tx as int].task_priority as usize,
                ) && k.container_of(t0tx, false).is_none()),
            decreases rx,
        {
            let ghost pre_it = *k;
            let w: (bool, bool) = wake_head_waiter(k, self.xTasksWaitingToSend);
            if !w.0 {
                proof {
                    if !any_tx_wake {
                        assert(pre_it == mid);
                        if old(self).cTxLock <= queueLOCKED_UNMODIFIED {
                            assert(!wakeable_head(old(k), txl));
                        }
                    }
                }
                break;
            }
            proof {
                let th = pre_it.entries_of(txl)[0].owner;
                if !any_tx_wake {
                    assert(pre_it == mid);
                    if old(self).cTxLock <= queueLOCKED_UNMODIFIED {
                        assert(th == t0tx);
                    }
                    any_tx_wake = true;
                } else {
                    if old(self).cTxLock <= queueLOCKED_UNMODIFIED && old(k).scheduler_suspended == 0 && th == t0tx {
                        assert(pre_it.entries_of(txl)[0] == (crate::list::ListEntry {
                            owner: th,
                            is_state: false,
                        }));
                        assert(pre_it.container_of(t0tx, false) == Some(
                            old(self).xTasksWaitingToSend,
                        ));
                        assert(false);
                    }
                }
                if woke_rx_head && old(k).scheduler_suspended == 0 && th == t0rx {
                    assert(pre_it.entries_of(txl)[0] == (crate::list::ListEntry {
                        owner: th,
                        is_state: false,
                    }));
                    assert(pre_it.container_of(t0rx, false) == Some(
                        old(self).xTasksWaitingToSend,
                    ));
                    assert(false);
                }
            }
            task_missed_yield(k);
            rx = rx - 1;
        }
        self.cRxLock = queueUNLOCKED;
    }

    /// Deposit an item at the chosen position.  For a mutex-kind queue the
    /// current task becomes the holder and its held-mutex count rises; for
    /// any other kind the kernel is untouched.
    pub fn copy_data_to_queue(&mut self, k: &mut Kernel, item: T, position: BaseType)
        requires
            old(self).wf_q(old(k)),
            old(k).wf(),
            position == queueOVERWRITE ==> old(self).uxLength == 1,
            position != queueOVERWRITE ==> old(self).uxMessagesWaiting < old(self).uxLength,
            old(self).is_mutex_kind() ==> match old(k).current_task {
                Some(c) => old(k).tasks@[c as int].mutexes_held < UBaseType::MAX,
                None => true,
            },
        ensures
            final(k).wf(),
            final(self).wf_q(final(k)),
            final(self).contents() == if position == queueSEND_TO_FRONT {
                seq![item] + old(self).contents()
            } else if position == queueOVERWRITE {
                seq![item]
            } else {
                old(self).contents().push(item)
            },
            final(self).uxMessagesWaiting == final(self).contents().len(),
            final(self).uxLength == old(self).uxLength,
            final(self).ucQueueType == old(self).ucQueueType,
            final(self).xTasksWaitingToSend == old(self).xTasksWaitingToSend,
            final(self).xTasksWaitingToReceive == old(self).xTasksWaitingToReceive,
            final(self).QueueUnion == old(self).QueueUnion,
            final(self).cRxLock == old(self).cRxLock,
            final(self).cTxLock == old(self).cTxLock,
            final(self).holder == if old(self).is_mutex_kind() {
                match old(k).current_task {
                    Some(c) => Some(TaskHandle(c)),
                    None => Option::<TaskHandle>::None,
                }
            } else {
                old(self).holder
            },
            !old(self).is_mutex_kind() ==> *final(k) == *old(k),
            final(k).lists@ == old(k).lists@,
            final(k).tick_count == old(k).tick_count,
            final(k).current_task == old(k).current_task,
            final(k).scheduler_suspended == old(k).scheduler_suspended,
            final(k).scheduler_running == old(k).scheduler_running,
            final(k).pended_ticks == old(k).pended_ticks,
            final(k).num_of_overflows == old(k).num_of_overflows,
            old(self).is_mutex_kind() ==> match old(k).current_task {
                Some(c) => final(k).tasks@ == old(k).tasks@.update(
                    c as int,
                    (crate::task_control::task_control_block {
                        mutexes_held: (old(k).tasks@[c as int].mutexes_held + 1) as UBaseType,
                        ..old(k).tasks@[c as int]
                    }),
                ),
                None => final(k).tasks@ == old(k).tasks@,
            },
            !old(self).is_mutex_kind() ==> final(k).tasks@ == old(k).tasks@,
    {
        let is_mutex: bool = match self.ucQueueType {
            QueueType::Mutex => true,
            QueueType::RecursiveMutex => true,
            _ => false,
        };
        if is_mutex {
            let new_holder: Option<TaskHandle> = task_increment_mutex_held_count(k);
            self.holder = new_holder;
        }
        if position == queueSEND_TO_FRONT {
            self.pcQueue.insert(0, item);
        } else if position == queueOVERWRITE {
            self.pcQueue.clear();
            self.pcQueue.push(item);
            self.uxMessagesWaiting = 0;
        } else {
            self.pcQueue.push(item);
        }
        self.uxMessagesWaiting = self.uxMessagesWaiting + 1;
    }

    /// Read the oldest item out of the buffer, advancing the read side.
    /// The occupancy count is untouched: the caller decrements it on a true
    /// receive and leaves it alone on a peek.
    pub fn copy_data_from_queue(&mut self) -> (item: T)
        requires
            old(self).uxMessagesWaiting > 0,
            old(self).pcQueue@.len() == old(self).uxMessagesWaiting,
        ensures
            item == old(self).contents()[0],
            final(self).contents() =~= old(self).contents().skip(1),
            final(self).uxMessagesWaiting == old(self).uxMessagesWaiting,
            final(self).uxLength == old(self).uxLength,
            final(self).ucQueueType == old(self).ucQueueType,
            final(self).xTasksWaitingToSend == old(self).xTasksWaitingToSend,
            final(self).xTasksWaitingToReceive == old(self).xTasksWaitingToReceive,
            final(self).QueueUnion == old(self).QueueUnion,
            final(self).cRxLock == old(self).cRxLock,
            final(self).cTxLock == old(self).cTxLock,
            final(self).holder == old(self).holder,
    {
        let item: T = self.pcQueue.remove(0);
        item
    }
}

impl<T: Copy> QueueDefinition<T> {
    /// Create a queue of the given capacity and kind, allocating its two
    /// wait lists in the kernel's arena.
    pub fn queue_generic_create(k: &mut Kernel, uxQueueLength: UBaseType, ucQueueType: QueueType) -> (q: QueueDefinition<T>)
        requires
            old(k).wf(),
            1 <= uxQueueLength <= 0xffff_ffff,
            (ucQueueType == QueueType::Mutex || ucQueueType == QueueType::RecursiveMutex)
                ==> uxQueueLength == 1,
            old(k).lists@.len() + 2 <= usize::MAX,
        ensures
            final(k).wf(),
            q.wf_q(final(k)),
            q.contents().len() == 0,
            q.uxMessagesWaiting == 0,
            q.uxLength == uxQueueLength,
            q.ucQueueType == ucQueueType,
            q.QueueUnion == 0,
            q.holder.is_none(),
            q.cRxLock == queueUNLOCKED,
            q.cTxLock == queueUNLOCKED,
            final(k).tasks@ == old(k).tasks@,
            final(k).lists@.len() == old(k).lists@.len() + 2,
            forall|x: int|
                0 <= x < old(k).lists@.len() ==> final(k).lists@[x] == old(k).lists@[x],
            Kernel::same_scalars(old(k), final(k)),
            final(k).entries_of(q.xTasksWaitingToSend as int).len() == 0,
            final(k).entries_of(q.xTasksWaitingToReceive as int).len() == 0,
    {
        let ghost pre = *k;
        let send_list: usize = k.lists.len();
        k.lists.push(crate::list::List::new());
        proof {
            crate::task_global::lemma_push_list(pre, *k);
        }
        let ghost mid = *k;
        let recv_list: usize = k.lists.len();
        k.lists.push(crate::list::List::new());
        proof {
            crate::task_global::lemma_push_list(mid, *k);
        }
        let mut q = QueueDefinition {
            pcQueue: Vec::new(),
            QueueUnion: 0,
            uxMessagesWaiting: 0,
            uxLength: uxQueueLength,
            xTasksWaitingToSend: send_list,
            xTasksWaitingToReceive: recv_list,
            cRxLock: queueUNLOCKED,
            cTxLock: queueUNLOCKED,
            ucQueueType: ucQueueType,
            holder: None,
        };
        q.initialise_new_queue(uxQueueLength, ucQueueType);
        q
    }

    /// Finish creation: record capacity and kind and reset the state.
    pub fn initialise_new_queue(&mut self, uxQueueLength: UBaseType, ucQueueType: QueueType)
        requires
            old(self).uxMessagesWaiting == 0,
            old(self).pcQueue@.len() == 0,
        ensures
            final(self).uxLength == uxQueueLength,
            final(self).ucQueueType == ucQueueType,
            final(self).QueueUnion == 0,
            final(self).cRxLock == queueUNLOCKED,
            final(self).cTxLock == queueUNLOCKED,
            final(self).uxMessagesWaiting == 0,
            final(self).pcQueue@.len() == 0,
            final(self).xTasksWaitingToSend == old(self).xTasksWaitingToSend,
            final(self).xTasksWaitingToReceive == old(self).xTasksWaitingToReceive,
            final(self).holder == old(self).holder,
    {
        self.uxLength = uxQueueLength;
        self.uxMessagesWaiting = 0;
        self.QueueUnion = 0;
        self.cRxLock = queueUNLOCKED;
        self.cTxLock = queueUNLOCKED;
        self.pcQueue.clear();
        self.ucQueueType = ucQueueType;
    }

    /// Empty the queue and unlock it.  Resetting a queue already in use
    /// additionally wakes the head sender blocked on the formerly full
    /// queue; a brand-new queue has no waiters and leaves the kernel
    /// untouched.
    pub fn queue_generic_reset(&mut self, k: &mut Kernel, xNewQueue: bool) -> (r: Result<(), QueueError>)
        requires
            old(k).wf(),
            old(self).wf_q(old(k)),
            old(k).current_task.is_some(),
            xNewQueue ==> old(k).entries_of(old(self).xTasksWaitingToSend as int).len() == 0
                && old(k).entries_of(old(self).xTasksWaitingToReceive as int).len() == 0,
        ensures
            r.is_ok(),
            final(k).wf(),
            final(self).wf_q(final(k)),
            final(self).pcQueue@.len() == 0,
            final(self).uxMessagesWaiting == 0,
            final(self).QueueUnion == 0,
            final(self).cRxLock == queueUNLOCKED,
            final(self).cTxLock == queueUNLOCKED,
            final(self).uxLength == old(self).uxLength,
            final(self).ucQueueType == old(self).ucQueueType,
            final(self).holder == old(self).holder,
            final(self).xTasksWaitingToSend == old(self).xTasksWaitingToSend,
            final(self).xTasksWaitingToReceive == old(self).xTasksWaitingToReceive,
            xNewQueue ==> *final(k) == *old(k),
            // a reset of a queue in use wakes the head sender blocked on it
            !xNewQueue && wakeable_head(old(k), old(self).xTasksWaitingToSend as int) ==> ({
                let t = old(k).entries_of(old(self).xTasksWaitingToSend as int)[0].owner;
                &&& final(k).entries_of(old(self).xTasksWaitingToSend as int) =~= old(k).entries_of(old(self).xTasksWaitingToSend as int).remove(0)
                &&& (old(k).scheduler_suspended == 0 ==> final(k).container_of(t, true) == Some(
                    old(k).tasks@[t as int].task_priority as usize,
                ) && final(k).container_of(t, false).is_none())
            }),
            !xNewQueue && !wakeable_head(old(k), old(self).xTasksWaitingToSend as int)
                ==> *final(k) == *old(k),
            final(k).current_task == old(k).current_task,
            final(k).tick_count == old(k).tick_count,
            final(k).scheduler_suspended == old(k).scheduler_suspended,
            final(k).scheduler_running == old(k).scheduler_running,
            final(k).pended_ticks == old(k).pended_ticks,
            final(k).num_of_overflows == old(k).num_of_overflows,
            final(k).tasks@.len() == old(k).tasks@.len(),
    {
        self.uxMessagesWaiting = 0;
        self.QueueUnion = 0;
        self.cRxLock = queueUNLOCKED;
        self.cTxLock = queueUNLOCKED;
        self.pcQueue.clear();
        if !xNewQueue {
            wake_head_waiter(k, self.xTasksWaitingToSend);
        }
        Ok(())
    }

    /// Same as [`Self::queue_generic_create`].
    pub fn new(k: &mut Kernel, uxQueueLength: UBaseType, queue_type: QueueType) -> (q: QueueDefinition<T>)
        requires
            old(k).wf(),
            1 <= uxQueueLength <= 0xffff_ffff,
            (queue_type == QueueType::Mutex || queue_type == QueueType::RecursiveMutex)
                ==> uxQueueLength == 1,
            old(k).lists@.len() + 2 <= usize::MAX,
        ensures
            final(k).wf(),
            q.wf_q(final(k)),
            q.contents().len() == 0,
            q.uxMessagesWaiting == 0,
            q.uxLength == uxQueueLength,
            q.ucQueueType == queue_type,
            q.QueueUnion == 0,
            q.holder.is_none(),
            final(k).tasks@ == old(k).tasks@,
            Kernel::same_scalars(old(k), final(k)),
            final(k).entries_of(q.xTasksWaitingToSend as int).len() == 0,
            final(k).entries_of(q.xTasksWaitingToReceive as int).len() == 0,
    {
        QueueDefinition::queue_generic_create(k, uxQueueLength, queue_type)
    }

    /// Post an item: deposit it at once when there is room (or the position
    /// overwrites), waking the head waiting receiver; otherwise, with a
    /// zero wait, fail at once, and with a budget, park the caller on the
    /// wait list and the delayed list, let the tick handler serve the wait
    /// out, and fail once it expires — within a single flow of control no
    /// second task can free space meanwhile.  On a contended mutex-kind
    /// queue the holder first inherits the caller's priority.  An
    /// indefinite wait on a full queue could never return here and is left
    /// out of the domain.
    pub fn queue_generic_send(&mut self, k: &mut Kernel, pvItemToQueue: T, xTicksToWait: TickType, xCopyPosition: BaseType) -> (r: Result<(), QueueError>)
        requires
            old(k).wf(),
            old(self).wf_q(old(k)),
            old(k).current_task.is_some(),
            xCopyPosition == queueOVERWRITE ==> old(self).uxLength == 1,
            old(k).scheduler_suspended == 0 || xTicksToWait == 0,
            xTicksToWait != portMAX_DELAY,
            old(k).pended_ticks < UBaseType::MAX,
            old(k).num_of_overflows < BaseType::MAX - 1,
            old(self).is_mutex_kind() ==> match old(k).current_task {
                Some(c) => old(k).tasks@[c as int].mutexes_held < UBaseType::MAX,
                None => true,
            },
            xTicksToWait > 0 ==> ({
                let cur = old(k).current_task.unwrap();
                &&& old(k).container_of(cur, false).is_none()
                &&& match old(k).container_of(cur, true) {
                    Some(l) => l < MAX_PRIORITIES,
                    None => false,
                }
            }),
        ensures
            final(k).wf(),
            final(self).wf_q(final(k)),
            r.is_ok() <==> (old(self).contents().len() < old(self).uxLength || xCopyPosition
                == queueOVERWRITE),
            r.is_err() ==> r == Err::<(), QueueError>(QueueError::QueueFull) && final(self).contents() == old(self).contents() && final(self).holder == old(self).holder
                && final(self).uxMessagesWaiting == old(self).uxMessagesWaiting,
            r.is_ok() ==> ({
                &&& final(self).contents() == if xCopyPosition == queueSEND_TO_FRONT {
                    seq![pvItemToQueue] + old(self).contents()
                } else if xCopyPosition == queueOVERWRITE {
                    seq![pvItemToQueue]
                } else {
                    old(self).contents().push(pvItemToQueue)
                }
                &&& final(k).tick_count == old(k).tick_count
                &&& (old(self).is_mutex_kind() ==> final(self).holder == Some(
                    TaskHandle(old(k).current_task.unwrap()),
                ))
            }),
            !old(self).is_mutex_kind() ==> final(self).holder == old(self).holder,
            final(self).uxLength == old(self).uxLength,
            final(self).ucQueueType == old(self).ucQueueType,
            final(self).QueueUnion == old(self).QueueUnion,
            final(self).xTasksWaitingToSend == old(self).xTasksWaitingToSend,
            final(self).xTasksWaitingToReceive == old(self).xTasksWaitingToReceive,
            final(k).current_task == old(k).current_task,
            final(k).scheduler_suspended == old(k).scheduler_suspended,
            final(k).scheduler_running == old(k).scheduler_running,
            final(k).pended_ticks == old(k).pended_ticks,
            final(k).tasks@.len() == old(k).tasks@.len(),
            final(k).lists@.len() == old(k).lists@.len(),
            old(k).num_of_overflows <= final(k).num_of_overflows <= old(k).num_of_overflows + 1,
            r.is_ok() || xTicksToWait == 0 ==> final(k).num_of_overflows == old(k).num_of_overflows,
            !old(self).is_mutex_kind() && r.is_err() && xTicksToWait == 0 ==> *final(k)
                == *old(k),
            !old(self).is_mutex_kind() && r.is_ok() && old(k).entries_of(
                old(self).xTasksWaitingToReceive as int,
            ).len() == 0 ==> *final(k) == *old(k),
            r.is_err() && xTicksToWait > 0 ==> ({
                let cur = old(k).current_task.unwrap();
                &&& crate::task_queue::elapsed_since(final(k).tick_count, old(k).tick_count)
                    == xTicksToWait
                &&& final(k).container_of(cur, false).is_none()
                &&& final(k).container_of(cur, true) == Some(
                    old(k).tasks@[cur as int].task_priority as usize,
                )
            }),
            old(self).is_mutex_kind() && r.is_err() ==> ({
                match old(self).holder {
                    Some(h) => {
                        let hp = old(k).tasks@[h.0 as int].task_priority;
                        let cp = old(k).tasks@[old(k).current_task.unwrap() as int].task_priority;
                        &&& final(k).tasks@[h.0 as int].task_priority == if hp < cp {
                            cp
                        } else {
                            hp
                        }
                        &&& final(k).tasks@[h.0 as int].base_priority == old(k).tasks@[h.0 as int].base_priority
                    },
                    None => true,
                }
            }),
    {
        let has_room: bool = self.uxMessagesWaiting < self.uxLength;
        if has_room || xCopyPosition == queueOVERWRITE {
            self.copy_data_to_queue(k, pvItemToQueue, xCopyPosition);
            wake_head_waiter(k, self.xTasksWaitingToReceive);
            return Ok(());
        }
        let is_mutex: bool = match self.ucQueueType {
            QueueType::Mutex => true,
            QueueType::RecursiveMutex => true,
            _ => false,
        };
        if is_mutex {
            task_priority_inherit(k, self.holder);
        }
        if xTicksToWait == 0 {
            return Err(QueueError::QueueFull);
        }
        task_place_on_event_list(k, self.xTasksWaitingToSend, xTicksToWait);
        wait_out_budget(k, xTicksToWait);
        unblock_current(k);
        Err(QueueError::QueueFull)
    }

    /// Take an item: at once when one is queued (a peek leaves everything
    /// in place), waking the head waiting sender on a real removal and
    /// running priority disinheritance for a mutex-kind queue; otherwise,
    /// with a zero wait, fail at once, and with a budget, park the caller,
    /// serve the wait out and fail.
    pub fn queue_generic_receive(&mut self, k: &mut Kernel, xTicksToWait: TickType, xJustPeeking: bool) -> (r: Result<T, QueueError>)
        requires
            old(k).wf(),
            old(self).wf_q(old(k)),
            old(k).current_task.is_some(),
            old(k).scheduler_suspended == 0 || xTicksToWait == 0,
            xTicksToWait != portMAX_DELAY,
            old(k).pended_ticks < UBaseType::MAX,
            old(k).num_of_overflows < BaseType::MAX - 1,
            old(self).is_mutex_kind() && !xJustPeeking ==> match old(self).holder {
                Some(h) => old(k).tasks@[h.0 as int].mutexes_held > 0,
                None => true,
            },
            xTicksToWait > 0 ==> ({
                let cur = old(k).current_task.unwrap();
                &&& old(k).container_of(cur, false).is_none()
                &&& match old(k).container_of(cur, true) {
                    Some(l) => l < MAX_PRIORITIES,
                    None => false,
                }
            }),
        ensures
            final(k).wf(),
            final(self).wf_q(final(k)),
            r.is_ok() <==> old(self).contents().len() > 0,
            r.is_err() ==> r == Err::<T, QueueError>(QueueError::QueueEmpty) && final(self).contents() == old(self).contents() && final(self).holder == old(self).holder
                && final(self).uxMessagesWaiting == old(self).uxMessagesWaiting,
            r.is_ok() ==> ({
                &&& r.unwrap() == old(self).contents()[0]
                &&& final(self).contents() == if xJustPeeking {
                    old(self).contents()
                } else {
                    old(self).contents().skip(1)
                }
                &&& final(self).uxMessagesWaiting == if xJustPeeking {
                    old(self).uxMessagesWaiting as int
                } else {
                    old(self).uxMessagesWaiting - 1
                }
                &&& final(k).tick_count == old(k).tick_count
                &&& (old(self).is_mutex_kind() && !xJustPeeking ==> final(self).holder.is_none())
                &&& (xJustPeeking ==> final(self).holder == old(self).holder)
            }),
            !old(self).is_mutex_kind() ==> final(self).holder == old(self).holder,
            final(self).uxLength == old(self).uxLength,
            final(self).ucQueueType == old(self).ucQueueType,
            final(self).QueueUnion == old(self).QueueUnion,
            final(self).xTasksWaitingToSend == old(self).xTasksWaitingToSend,
            final(self).xTasksWaitingToReceive == old(self).xTasksWaitingToReceive,
            final(k).current_task == old(k).current_task,
            final(k).scheduler_suspended == old(k).scheduler_suspended,
            final(k).scheduler_running == old(k).scheduler_running,
            final(k).pended_ticks == old(k).pended_ticks,
            final(k).tasks@.len() == old(k).tasks@.len(),
            final(k).lists@.len() == old(k).lists@.len(),
            old(k).num_of_overflows <= final(k).num_of_overflows <= old(k).num_of_overflows + 1,
            r.is_ok() || xTicksToWait == 0 ==> final(k).num_of_overflows == old(k).num_of_overflows,
            r.is_err() && xTicksToWait == 0 ==> *final(k) == *old(k),
            r.is_ok() && xJustPeeking ==> *final(k) == *old(k),
            r.is_ok() && !xJustPeeking && !old(self).is_mutex_kind() && old(k).entries_of(
                old(self).xTasksWaitingToSend as int,
            ).len() == 0 ==> *final(k) == *old(k),
            r.is_err() && xTicksToWait > 0 ==> ({
                let cur = old(k).current_task.unwrap();
                &&& crate::task_queue::elapsed_since(final(k).tick_count, old(k).tick_count)
                    == xTicksToWait
                &&& final(k).container_of(cur, false).is_none()
                &&& final(k).container_of(cur, true) == Some(
                    old(k).tasks@[cur as int].task_priority as usize,
                )
            }),
            old(self).is_mutex_kind() && !xJustPeeking && r.is_ok() ==> ({
                match old(self).holder {
                    Some(h) => {
                        let hp = old(k).tasks@[h.0 as int].task_priority;
                        let bp = old(k).tasks@[h.0 as int].base_priority;
                        let held2 = old(k).tasks@[h.0 as int].mutexes_held - 1;
                        &&& final(k).tasks@[h.0 as int].mutexes_held == held2
                        &&& final(k).tasks@[h.0 as int].base_priority == bp
                        &&& final(k).tasks@[h.0 as int].task_priority == if hp != bp && held2
                            == 0 {
                            bp
                        } else {
                            hp
                        }
                    },
                    None => true,
                }
            }),
    {
        if self.uxMessagesWaiting > 0 {
            let item: T = self.pcQueue[0];
            if !xJustPeeking {
                let taken: T = self.copy_data_from_queue();
                self.uxMessagesWaiting = self.uxMessagesWaiting - 1;
                let is_mutex: bool = match self.ucQueueType {
                    QueueType::Mutex => true,
                    QueueType::RecursiveMutex => true,
                    _ => false,
                };
                if is_mutex {
                    task_priority_disinherit(k, self.holder);
                    self.holder = None;
                }
                wake_head_waiter(k, self.xTasksWaitingToSend);
            }
            return Ok(item);
        }
        if xTicksToWait == 0 {
            return Err(QueueError::QueueEmpty);
        }
        task_place_on_event_list(k, self.xTasksWaitingToReceive, xTicksToWait);
        wait_out_budget(k, xTicksToWait);
        unblock_current(k);
        Err(QueueError::QueueEmpty)
    }

    /// Post an item from an interrupt: deposit when possible, never block.
    /// While the queue is locked only the transmit lock counter rises and
    /// no scheduler list is touched; otherwise the head waiting receiver is
    /// woken, and the returned flag says whether it outranks the running
    /// task.
    pub fn queue_generic_send_from_isr(&mut self, k: &mut Kernel, pvItemToQueue: T, xCopyPosition: BaseType) -> (r: (Result<(), QueueError>, bool))
        requires
            old(k).wf(),
            old(self).wf_q(old(k)),
            old(k).current_task.is_some(),
            xCopyPosition == queueOVERWRITE ==> old(self).uxLength == 1,
            old(self).cTxLock < i8::MAX,
            !old(self).is_mutex_kind(),
        ensures
            final(k).wf(),
            final(self).wf_q(final(k)),
            r.0.is_ok() <==> (old(self).contents().len() < old(self).uxLength || xCopyPosition
                == queueOVERWRITE),
            r.0.is_err() ==> r.0 == Err::<(), QueueError>(QueueError::QueueFull) && final(self).contents() == old(self).contents() && !r.1 && *final(k) == *old(k) && final(self).cTxLock == old(self).cTxLock,
            r.0.is_ok() ==> final(self).contents() == if xCopyPosition == queueSEND_TO_FRONT {
                seq![pvItemToQueue] + old(self).contents()
            } else if xCopyPosition == queueOVERWRITE {
                seq![pvItemToQueue]
            } else {
                old(self).contents().push(pvItemToQueue)
            },
            final(self).cTxLock == if r.0.is_ok() && old(self).cTxLock != queueUNLOCKED {
                old(self).cTxLock + 1
            } else {
                old(self).cTxLock as int
            },
            final(self).holder == old(self).holder,
            final(self).uxLength == old(self).uxLength,
            final(self).ucQueueType == old(self).ucQueueType,
            final(self).QueueUnion == old(self).QueueUnion,
            final(self).cRxLock == old(self).cRxLock,
            final(self).xTasksWaitingToSend == old(self).xTasksWaitingToSend,
            final(self).xTasksWaitingToReceive == old(self).xTasksWaitingToReceive,
            // locked: the wakeup is pended, the kernel untouched
            r.0.is_ok() && old(self).cTxLock != queueUNLOCKED ==> *final(k) == *old(k) && !r.1,
            // unlocked: the head waiting receiver is woken at once
            r.0.is_ok() && old(self).cTxLock == queueUNLOCKED ==> ({
                let rxl = old(self).xTasksWaitingToReceive as int;
                if wakeable_head(old(k), rxl) {
                    let t = old(k).entries_of(rxl)[0].owner;
                    &&& final(k).entries_of(rxl) =~= old(k).entries_of(rxl).remove(0)
                    &&& (old(k).scheduler_suspended == 0 ==> final(k).container_of(t, true)
                        == Some(old(k).tasks@[t as int].task_priority as usize) && final(k).container_of(t, false).is_none())
                    &&& r.1 == (old(k).tasks@[t as int].task_priority > old(k).tasks@[old(k).current_task.unwrap() as int].task_priority)
                } else {
                    *final(k) == *old(k) && !r.1
                }
            }),
            final(k).current_task == old(k).current_task,
            final(k).tick_count == old(k).tick_count,
            final(k).scheduler_suspended == old(k).scheduler_suspended,
            final(k).scheduler_running == old(k).scheduler_running,
            final(k).pended_ticks == old(k).pended_ticks,
            final(k).num_of_overflows == old(k).num_of_overflows,
            final(k).tasks@.len() == old(k).tasks@.len(),
            final(k).lists@.len() == old(k).lists@.len(),
    {
        let has_room: bool = self.uxMessagesWaiting < self.uxLength;
        if has_room || xCopyPosition == queueOVERWRITE {
            let tx_lock: i8 = self.cTxLock;
            self.copy_data_to_queue(k, pvItemToQueue, xCopyPosition);
            let mut woke_higher: bool = false;
            if tx_lock != queueUNLOCKED {
                self.cTxLock = tx_lock + 1;
            } else {
                let w: (bool, bool) = wake_head_waiter(k, self.xTasksWaitingToReceive);
                woke_higher = w.1;
            }
            (Ok(()), woke_higher)
        } else {
            (Err(QueueError::QueueFull), false)
        }
    }
}

/// The head of `l` can be woken: it is an event item whose owner's state
/// item rests somewhere other than `l` itself.
pub open spec fn wakeable_head(k: &Kernel, l: int) -> bool {
    &&& k.entries_of(l).len() > 0
    &&& !k.entries_of(l)[0].is_state
    &&& k.container_of(k.entries_of(l)[0].owner, true) != Some(l as usize)
}

/// Wake the head waiter of `event_list` when it holds one in a wakeable
/// state.  The first flag says whether a waiter was woken; the second
/// whether the woken task outranks the running one (in which case a yield
/// is also latched).
pub fn wake_head_waiter(k: &mut Kernel, event_list: usize) -> (r: (bool, bool))
    requires
        old(k).wf(),
        old(k).current_task.is_some(),
        NUM_KERNEL_LISTS <= event_list < old(k).lists@.len(),
    ensures
        final(k).wf(),
        final(k).current_task == old(k).current_task,
        final(k).tick_count == old(k).tick_count,
        final(k).scheduler_suspended == old(k).scheduler_suspended,
        final(k).scheduler_running == old(k).scheduler_running,
        final(k).pended_ticks == old(k).pended_ticks,
        final(k).num_of_overflows == old(k).num_of_overflows,
        final(k).tasks@.len() == old(k).tasks@.len(),
        final(k).lists@.len() == old(k).lists@.len(),
        r.0 == wakeable_head(old(k), event_list as int),
        !r.0 ==> *final(k) == *old(k) && !r.1,
        forall|x: int|
            NUM_KERNEL_LISTS <= x < old(k).lists@.len() ==> final(k).entries_of(x).len() <= old(k).entries_of(x).len(),
        r.0 ==> ({
            let t = old(k).entries_of(event_list as int)[0].owner;
            &&& final(k).entries_of(event_list as int) =~= old(k).entries_of(
                event_list as int,
            ).remove(0)
            &&& (old(k).scheduler_suspended == 0 ==> final(k).container_of(t, true) == Some(
                old(k).tasks@[t as int].task_priority as usize,
            ) && final(k).container_of(t, false).is_none())
            &&& (old(k).scheduler_suspended > 0 ==> final(k).container_of(t, false) == Some(
                crate::task_global::PENDING_READY_LIST,
            ))
            &&& r.1 == (old(k).tasks@[t as int].task_priority > old(k).tasks@[old(k).current_task.unwrap() as int].task_priority)
            &&& final(k).yield_pending == (old(k).yield_pending || r.1)
            &&& forall|t2: usize|
                t2 < old(k).tasks@.len() && t2 != t ==> (#[trigger] final(k).container_of(
                    t2,
                    true,
                )) == old(k).container_of(t2, true) && final(k).container_of(t2, false) == old(k).container_of(t2, false)
        }),
        forall|t2: int|
            0 <= t2 < old(k).tasks@.len() ==> {
                &&& (#[trigger] final(k).tasks@[t2]).task_priority == old(k).tasks@[t2].task_priority
                &&& final(k).tasks@[t2].base_priority == old(k).tasks@[t2].base_priority
                &&& final(k).tasks@[t2].mutexes_held == old(k).tasks@[t2].mutexes_held
            },
{
    if crate::list::list_is_empty(k, event_list) {
        return (false, false);
    }
    let e: crate::list::ListEntry = crate::list::get_head_entry(k, event_list);
    proof {
        assert(k.entries_of(event_list as int)[0] == e);
        assert(e.owner < k.tasks@.len());
    }
    if e.is_state {
        return (false, false);
    }
    let stc: Option<usize> = k.tasks[e.owner].state_list_item.container;
    let wakeable: bool = match stc {
        Some(l) => l != event_list,
        None => true,
    };
    if wakeable {
        let higher: bool = task_remove_from_event_list(k, event_list);
        (true, higher)
    } else {
        (false, false)
    }
}

/// Let a wait budget elapse tick by tick.  Within a single flow of control
/// no second task can run while the caller waits, so the timer interrupt is
/// the only actor: exactly as many ticks fire as the budget holds, and the
/// tick handler releases the parked caller when its wake time comes.
fn wait_out_budget(k: &mut Kernel, xTicksToWait: TickType)
    requires
        old(k).wf(),
        old(k).current_task.is_some(),
        old(k).scheduler_suspended == 0,
        0 < xTicksToWait < portMAX_DELAY,
        old(k).pended_ticks < UBaseType::MAX,
        old(k).num_of_overflows < BaseType::MAX - 1,
        old(k).tasks@[old(k).current_task.unwrap() as int].delay_aborted == false,
    ensures
        final(k).wf(),
        final(k).current_task == old(k).current_task,
        final(k).scheduler_suspended == old(k).scheduler_suspended,
        final(k).scheduler_running == old(k).scheduler_running,
        final(k).pended_ticks == old(k).pended_ticks,
        final(k).lists@.len() == old(k).lists@.len(),
        final(k).tasks@.len() == old(k).tasks@.len(),
        old(k).num_of_overflows <= final(k).num_of_overflows <= old(k).num_of_overflows + 1,
        crate::task_queue::elapsed_since(final(k).tick_count, old(k).tick_count) == xTicksToWait,
        forall|t2: int|
            0 <= t2 < old(k).tasks@.len() ==> {
                &&& (#[trigger] final(k).tasks@[t2]).task_priority == old(k).tasks@[t2].task_priority
                &&& final(k).tasks@[t2].base_priority == old(k).tasks@[t2].base_priority
                &&& final(k).tasks@[t2].mutexes_held == old(k).tasks@[t2].mutexes_held
            },
        ({
            let cur = old(k).current_task.unwrap();
            &&& (final(k).container_of(cur, true) == old(k).container_of(cur, true) || final(k).container_of(cur, true) == Some(
                old(k).tasks@[cur as int].task_priority as usize,
            ) || final(k).container_of(cur, true) == Some(final(k).delayed_list) || final(k).container_of(cur, true) == Some(final(k).overflow_delayed_list))
            &&& (final(k).container_of(cur, false) == old(k).container_of(cur, false) || final(k).container_of(cur, false).is_none())
        }),
{
    let mut timeout: time_out = time_out::new();
    task_set_time_out_state(k, &mut timeout);
    let mut remaining: TickType = xTicksToWait;
    let ghost t0 = k.tick_count;
    let ghost total = xTicksToWait as int;
    let ghost cur = k.current_task.unwrap();
    let ghost c0t = k.container_of(cur, true);
    let ghost c0e = k.container_of(cur, false);
    loop
        invariant_except_break
            1 <= remaining <= total,
            remaining < portMAX_DELAY,
            timeout.time_on_entering == k.tick_count,
            timeout.overflow_count == k.num_of_overflows,
            k.tick_count == (t0 + (total - remaining)) % 0x1_0000_0000,
            k.num_of_overflows == old(k).num_of_overflows + if t0 + (total - remaining)
                >= 0x1_0000_0000 {
                1int
            } else {
                0int
            },
            k.tasks@[cur as int].delay_aborted == false,
        invariant
            k.wf(),
            k.current_task == old(k).current_task,
            k.current_task.is_some(),
            cur == old(k).current_task.unwrap(),
            k.scheduler_suspended == 0,
            k.scheduler_running == old(k).scheduler_running,
            k.pended_ticks == old(k).pended_ticks,
            k.lists@.len() == old(k).lists@.len(),
            k.tasks@.len() == old(k).tasks@.len(),
            old(k).pended_ticks < UBaseType::MAX,
            old(k).num_of_overflows < BaseType::MAX - 1,
            old(k).num_of_overflows <= k.num_of_overflows <= old(k).num_of_overflows + 1,
            t0 == old(k).tick_count,
            total == xTicksToWait as int,
            c0t == old(k).container_of(cur, true),
            c0e == old(k).container_of(cur, false),
            forall|t2: int|
                0 <= t2 < old(k).tasks@.len() ==> {
                    &&& (#[trigger] k.tasks@[t2]).task_priority == old(k).tasks@[t2].task_priority
                    &&& k.tasks@[t2].base_priority == old(k).tasks@[t2].base_priority
                    &&& k.tasks@[t2].mutexes_held == old(k).tasks@[t2].mutexes_held
                },
            k.container_of(cur, true) == c0t || k.container_of(cur, true) == Some(
                old(k).tasks@[cur as int].task_priority as usize,
            ) || k.container_of(cur, true) == Some(k.delayed_list) || k.container_of(cur, true)
                == Some(k.overflow_delayed_list),
            k.container_of(cur, false) == c0e || k.container_of(cur, false).is_none(),
        ensures
            k.wf(),
            k.current_task == old(k).current_task,
            k.scheduler_suspended == 0,
            k.scheduler_running == old(k).scheduler_running,
            k.pended_ticks == old(k).pended_ticks,
            k.lists@.len() == old(k).lists@.len(),
            k.tasks@.len() == old(k).tasks@.len(),
            old(k).num_of_overflows <= k.num_of_overflows <= old(k).num_of_overflows + 1,
            crate::task_queue::elapsed_since(k.tick_count, t0) == total,
            forall|t2: int|
                0 <= t2 < old(k).tasks@.len() ==> {
                    &&& (#[trigger] k.tasks@[t2]).task_priority == old(k).tasks@[t2].task_priority
                    &&& k.tasks@[t2].base_priority == old(k).tasks@[t2].base_priority
                    &&& k.tasks@[t2].mutexes_held == old(k).tasks@[t2].mutexes_held
                },
            k.container_of(cur, true) == c0t || k.container_of(cur, true) == Some(
                old(k).tasks@[cur as int].task_priority as usize,
            ) || k.container_of(cur, true) == Some(k.delayed_list) || k.container_of(cur, true)
                == Some(k.overflow_delayed_list),
            k.container_of(cur, false) == c0e || k.container_of(cur, false).is_none(),
        decreases remaining,
    {
        crate::kernel::task_increment_tick(k);
        let expired: bool = task_check_for_timeout(k, &mut timeout, &mut remaining);
        if expired {
            proof {
                assert(crate::task_queue::elapsed_since(k.tick_count, t0) == total);
            }
            break;
        }
    }
}

/// Make sure the current task is back in running shape after a served-out
/// wait: the tick handler normally unlinked it already, so this at most
/// removes a leftover event-list link and returns the task from a delayed
/// list to its ready list.
fn unblock_current(k: &mut Kernel)
    requires
        old(k).wf(),
        old(k).current_task.is_some(),
        ({
            let cur = old(k).current_task.unwrap();
            match old(k).container_of(cur, true) {
                Some(l) => l < MAX_PRIORITIES || l == old(k).delayed_list || l == old(k).overflow_delayed_list,
                None => true,
            }
        }),
    ensures
        final(k).wf(),
        final(k).current_task == old(k).current_task,
        final(k).tick_count == old(k).tick_count,
        final(k).scheduler_suspended == old(k).scheduler_suspended,
        final(k).scheduler_running == old(k).scheduler_running,
        final(k).pended_ticks == old(k).pended_ticks,
        final(k).num_of_overflows == old(k).num_of_overflows,
        final(k).tasks@.len() == old(k).tasks@.len(),
        final(k).lists@.len() == old(k).lists@.len(),
        forall|t2: int|
            0 <= t2 < old(k).tasks@.len() ==> {
                &&& (#[trigger] final(k).tasks@[t2]).task_priority == old(k).tasks@[t2].task_priority
                &&& final(k).tasks@[t2].base_priority == old(k).tasks@[t2].base_priority
                &&& final(k).tasks@[t2].mutexes_held == old(k).tasks@[t2].mutexes_held
            },
        ({
            let cur = old(k).current_task.unwrap();
            &&& final(k).container_of(cur, false).is_none()
            &&& final(k).container_of(cur, true) == Some(
                old(k).tasks@[cur as int].task_priority as usize,
            )
        }),
{
    let cur: usize = match k.current_task {
        Some(c) => c,
        None => 0,
    };
    let handle = TaskHandle(cur);
    let evc: Option<usize> = k.tasks[cur].event_list_item.container;
    if evc.is_some() {
        crate::list::list_remove(k, cur, false);
    }
    let d: usize = k.delayed_list;
    let o: usize = k.overflow_delayed_list;
    let stc: Option<usize> = k.tasks[cur].state_list_item.container;
    let in_pair: bool = match stc {
        Some(l) => l == d || l == o,
        None => false,
    };
    if in_pair {
        crate::list::list_remove(k, cur, true);
    }
    let stc2: Option<usize> = k.tasks[cur].state_list_item.container;
    match stc2 {
        None => {
            let res = handle.add_task_to_ready_list(k);
            proof {
                assert(res.is_ok());
            }
        },
        Some(l) => {
            proof {
                // a task already linked in a ready list sits in the one
                // matching its priority
                assert(l < MAX_PRIORITIES);
                let j = k.entry_index(l as int, cur, true);
                assert(k.has_entry(l as int, cur, true));
                assert(k.entries_of(l as int)[j] == (crate::list::ListEntry {
                    owner: cur,
                    is_state: true,
                }));
                assert(k.ready_entry_ok(l as int, j));
            }
        },
    }
}

} // verus!
