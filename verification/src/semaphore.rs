//! Counting, binary, mutex and recursive-mutex semaphores, all built on the
//! blocking queue engine: taking a semaphore sends into the queue, giving it
//! back receives, and a mutex-kind queue carries the holder's identity with
//! priority inheritance on contention.

use vstd::prelude::*;

use crate::config::MAX_PRIORITIES;
use crate::port::{BaseType, TickType, UBaseType, portMAX_DELAY};
use crate::queue::{
    QueueDefinition, QueueError, QueueType, queueSEND_TO_BACK, semGIVE_BLOCK_TIME,
};
use crate::task_control::TaskHandle;
use crate::task_global::Kernel;

verus! {

/// A semaphore: a queue of unit items whose occupancy is the token count —
/// or, for mutex kinds, whose single slot and holder record track ownership.
pub struct Semaphore(pub QueueDefinition<u8>);

impl Semaphore {
    /// Semaphore soundness against its kernel: queue soundness, and for a
    /// mutex kind the holder record and the taken slot agree.
    pub open spec fn wf_s(&self, k: &Kernel) -> bool {
        &&& self.0.wf_q(k)
        &&& (self.0.is_mutex_kind() ==> (self.0.holder.is_some() <==> self.0.contents().len()
            == 1))
        &&& (self.0.ucQueueType == QueueType::RecursiveMutex && self.0.holder.is_none()
            ==> self.0.QueueUnion == 0)
    }

    /// How many tokens are held (for a mutex: one when taken).
    pub open spec fn count(&self) -> int {
        self.0.contents().len() as int
    }

    /// Create a (non-recursive) mutex: a capacity-one queue whose stored
    /// slot marks it taken and whose holder record carries the owner.
    pub fn new_mutex(k: &mut Kernel) -> (s: Semaphore)
        requires
            old(k).wf(),
            old(k).lists@.len() + 2 <= usize::MAX,
        ensures
            final(k).wf(),
            s.wf_s(final(k)),
            s.count() == 0,
            s.0.ucQueueType == QueueType::Mutex,
            s.0.uxLength == 1,
            s.0.holder.is_none(),
            final(k).tasks@ == old(k).tasks@,
            Kernel::same_scalars(old(k), final(k)),
    {
        Semaphore(QueueDefinition::new(k, 1, QueueType::Mutex))
    }

    /// Create a binary semaphore.
    pub fn create_binary(k: &mut Kernel) -> (s: Semaphore)
        requires
            old(k).wf(),
            old(k).lists@.len() + 2 <= usize::MAX,
        ensures
            final(k).wf(),
            s.wf_s(final(k)),
            s.count() == 0,
            s.0.ucQueueType == QueueType::BinarySemaphore,
            s.0.uxLength == 1,
            final(k).tasks@ == old(k).tasks@,
            Kernel::same_scalars(old(k), final(k)),
    {
        Semaphore(QueueDefinition::new(k, 1, QueueType::BinarySemaphore))
    }

    /// Create a counting semaphore with the given maximum count, starting
    /// empty.
    pub fn create_counting(k: &mut Kernel, max_count: UBaseType) -> (s: Semaphore)
        requires
            old(k).wf(),
            1 <= max_count <= 0xffff_ffff,
            old(k).lists@.len() + 2 <= usize::MAX,
        ensures
            final(k).wf(),
            s.wf_s(final(k)),
            s.count() == 0,
            s.0.ucQueueType == QueueType::CountingSemaphore,
            s.0.uxLength == max_count,
            final(k).tasks@ == old(k).tasks@,
            Kernel::same_scalars(old(k), final(k)),
    {
        let mut q: QueueDefinition<u8> = QueueDefinition::new(
            k,
            max_count,
            QueueType::CountingSemaphore,
        );
        q.initialise_count(0);
        Semaphore(q)
    }

    /// Create a recursive mutex; its union field counts the nested takes.
    pub fn create_recursive_mutex(k: &mut Kernel) -> (s: Semaphore)
        requires
            old(k).wf(),
            old(k).lists@.len() + 2 <= usize::MAX,
        ensures
            final(k).wf(),
            s.wf_s(final(k)),
            s.count() == 0,
            s.0.ucQueueType == QueueType::RecursiveMutex,
            s.0.uxLength == 1,
            s.0.QueueUnion == 0,
            s.0.holder.is_none(),
            final(k).tasks@ == old(k).tasks@,
            Kernel::same_scalars(old(k), final(k)),
    {
        Semaphore(QueueDefinition::new(k, 1, QueueType::RecursiveMutex))
    }

    /// The recorded holder of a mutex-kind semaphore.
    pub fn get_mutex_holder(&self) -> (r: Option<TaskHandle>)
        ensures
            r == self.0.holder,
    {
        self.0.transed_task_handle_for_mutex()
    }

    /// A recursive mutex's nested take count.
    pub fn get_recursive_count(&self) -> (r: UBaseType)
        ensures
            r == self.0.QueueUnion,
    {
        self.0.get_recursive_count()
    }

    /// Obtain the semaphore: send one token into the queue, blocking up to
    /// `xBlockTime` ticks when it is already at capacity (taken, for a
    /// mutex — with priority inheritance for the holder).
    pub fn semaphore_down(&mut self, k: &mut Kernel, xBlockTime: TickType) -> (r: Result<
        (),
        QueueError,
    >)
        requires
            old(k).wf(),
            old(self).wf_s(old(k)),
            old(k).current_task.is_some(),
            old(k).scheduler_suspended == 0 || xBlockTime == 0,
            xBlockTime != portMAX_DELAY,
            old(k).pended_ticks < UBaseType::MAX,
            old(k).num_of_overflows < BaseType::MAX - 1,
            old(self).0.is_mutex_kind() ==> match old(k).current_task {
                Some(c) => old(k).tasks@[c as int].mutexes_held < UBaseType::MAX,
                None => true,
            },
            xBlockTime > 0 ==> ({
                let cur = old(k).current_task.unwrap();
                &&& old(k).container_of(cur, false).is_none()
                &&& match old(k).container_of(cur, true) {
                    Some(l) => l < MAX_PRIORITIES,
                    None => false,
                }
            }),
        ensures
            final(k).wf(),
            final(self).wf_s(final(k)),
            r.is_ok() <==> old(self).count() < old(self).0.uxLength,
            r.is_ok() ==> final(self).count() == old(self).count() + 1 && final(k).tick_count
                == old(k).tick_count,
            r.is_err() ==> r == Err::<(), QueueError>(QueueError::QueueFull) && final(self).count() == old(self).count(),
            r.is_ok() && old(self).0.is_mutex_kind() ==> final(self).0.holder == Some(
                TaskHandle(old(k).current_task.unwrap()),
            ),
            final(k).current_task == old(k).current_task,
            final(k).scheduler_suspended == old(k).scheduler_suspended,
            final(k).scheduler_running == old(k).scheduler_running,
            final(k).pended_ticks == old(k).pended_ticks,
            old(k).num_of_overflows <= final(k).num_of_overflows <= old(k).num_of_overflows
                + 1,
            r.is_ok() || xBlockTime == 0 ==> final(k).num_of_overflows == old(k).num_of_overflows,
            final(k).tasks@.len() == old(k).tasks@.len(),
            final(k).lists@.len() == old(k).lists@.len(),
            final(self).0.ucQueueType == old(self).0.ucQueueType,
            final(self).0.uxLength == old(self).0.uxLength,
            final(self).0.QueueUnion == old(self).0.QueueUnion,
            // a full first attempt on a mutex kind raises the holder to the
            // caller's priority
            old(self).0.is_mutex_kind() && r.is_err() ==> ({
                match old(self).0.holder {
                    Some(h) => {
                        let hp = old(k).tasks@[h.0 as int].task_priority;
                        let cp = old(k).tasks@[old(k).current_task.unwrap() as int].task_priority;
                        &&& final(k).tasks@[h.0 as int].task_priority == if hp < cp {
                            cp
                        } else {
                            hp
                        }
                        &&& final(k).tasks@[h.0 as int].base_priority == old(k).tasks@[h.0 as int].base_priority
                    },
                    None => true,
                }
            }),
    {
        self.0.queue_generic_send(k, 0, xBlockTime, queueSEND_TO_BACK)
    }

    /// Release the semaphore: receive one token back, running priority
    /// disinheritance for a mutex kind and handing back who held it.
    pub fn semaphore_up(&mut self, k: &mut Kernel) -> (r: Result<Option<TaskHandle>, QueueError>)
        requires
            old(k).wf(),
            old(self).wf_s(old(k)),
            old(k).current_task.is_some(),
            old(k).pended_ticks < UBaseType::MAX,
            old(k).num_of_overflows < BaseType::MAX - 1,
            old(self).0.is_mutex_kind() ==> match old(self).0.holder {
                Some(h) => old(k).tasks@[h.0 as int].mutexes_held > 0,
                None => true,
            },
            old(self).0.ucQueueType == QueueType::RecursiveMutex ==> old(self).0.QueueUnion
                == 0,
        ensures
            final(k).wf(),
            final(self).wf_s(final(k)),
            r.is_ok() <==> old(self).count() > 0,
            r.is_ok() ==> final(self).count() == old(self).count() - 1 && r.unwrap() == old(self).0.holder && (old(self).0.is_mutex_kind() ==> final(self).0.holder.is_none()),
            r.is_err() ==> r == Err::<Option<TaskHandle>, QueueError>(QueueError::QueueEmpty)
                && final(self).count() == old(self).count(),
            final(k).current_task == old(k).current_task,
            final(k).tick_count == old(k).tick_count,
            final(k).scheduler_suspended == old(k).scheduler_suspended,
            final(k).scheduler_running == old(k).scheduler_running,
            final(k).pended_ticks == old(k).pended_ticks,
            final(k).num_of_overflows == old(k).num_of_overflows,
            final(k).tasks@.len() == old(k).tasks@.len(),
            final(k).lists@.len() == old(k).lists@.len(),
            final(self).0.ucQueueType == old(self).0.ucQueueType,
            final(self).0.uxLength == old(self).0.uxLength,
            final(self).0.QueueUnion == old(self).0.QueueUnion,
            // releasing a held mutex kind runs disinheritance on the holder
            old(self).0.is_mutex_kind() && r.is_ok() ==> ({
                match old(self).0.holder {
                    Some(h) => {
                        let hp = old(k).tasks@[h.0 as int].task_priority;
                        let bp = old(k).tasks@[h.0 as int].base_priority;
                        let held2 = old(k).tasks@[h.0 as int].mutexes_held - 1;
                        &&& final(k).tasks@[h.0 as int].mutexes_held == held2
                        &&& final(k).tasks@[h.0 as int].base_priority == bp
                        &&& final(k).tasks@[h.0 as int].task_priority == if hp != bp && held2
                            == 0 {
                            bp
                        } else {
                            hp
                        }
                    },
                    None => true,
                }
            }),
    {
        let holder: Option<TaskHandle> = self.0.transed_task_handle_for_mutex();
        let r: Result<u8, QueueError> = self.0.queue_generic_receive(
            k,
            semGIVE_BLOCK_TIME,
            false,
        );
        match r {
            Ok(_) => Ok(holder),
            Err(e) => Err(e),
        }
    }

    /// Obtain a recursive mutex: the holder takes it again by counting,
    /// without touching the queue; anyone else contends through a normal
    /// send, and a first take starts the count at one.
    pub fn down_recursive(&mut self, k: &mut Kernel, ticks_to_wait: TickType) -> (r: bool)
        requires
            old(k).wf(),
            old(self).wf_s(old(k)),
            old(self).0.ucQueueType == QueueType::RecursiveMutex,
            old(k).current_task.is_some(),
            old(k).scheduler_suspended == 0 || ticks_to_wait == 0,
            ticks_to_wait != portMAX_DELAY,
            old(k).pended_ticks < UBaseType::MAX,
            old(k).num_of_overflows < BaseType::MAX - 1,
            old(self).0.QueueUnion < UBaseType::MAX,
            match old(k).current_task {
                Some(c) => old(k).tasks@[c as int].mutexes_held < UBaseType::MAX,
                None => true,
            },
            ticks_to_wait > 0 ==> ({
                let cur = old(k).current_task.unwrap();
                &&& old(k).container_of(cur, false).is_none()
                &&& match old(k).container_of(cur, true) {
                    Some(l) => l < MAX_PRIORITIES,
                    None => false,
                }
            }),
        ensures
            final(k).wf(),
            final(self).wf_s(final(k)),
            ({
                let cur = old(k).current_task.unwrap();
                if old(self).0.holder == Some(TaskHandle(cur)) {
                    &&& r
                    &&& final(self).0.QueueUnion == old(self).0.QueueUnion + 1
                    &&& final(self).0.holder == old(self).0.holder
                } else {
                    &&& r == (old(self).count() < old(self).0.uxLength)
                    &&& (r ==> final(self).0.QueueUnion == old(self).0.QueueUnion + 1
                        && final(self).0.holder == Some(TaskHandle(cur)) && (old(self).0.holder.is_none() ==> final(self).0.QueueUnion == 1))
                    &&& (!r ==> final(self).0.QueueUnion == old(self).0.QueueUnion && final(self).0.holder == old(self).0.holder && final(self).count() == old(self).count())
                }
            }),
            final(k).current_task == old(k).current_task,
            final(k).scheduler_suspended == old(k).scheduler_suspended,
    {
        let cur: usize = match k.current_task {
            Some(c) => c,
            None => 0,
        };
        let held_by_me: bool = match self.0.transed_task_handle_for_mutex() {
            Some(h) => h.0 == cur,
            None => false,
        };
        if held_by_me {
            self.0.QueueUnion_increase();
            true
        } else {
            let sent: Result<(), QueueError> = self.0.queue_generic_send(
                k,
                0,
                ticks_to_wait,
                queueSEND_TO_BACK,
            );
            match sent {
                Ok(()) => {
                    self.0.QueueUnion_increase();
                    true
                },
                Err(_) => false,
            }
        }
    }

    /// Release a recursive mutex: count one take back; reaching zero
    /// performs the real queue release, with priority disinheritance.
    /// Only the holder can release.
    pub fn up_recursive(&mut self, k: &mut Kernel) -> (r: bool)
        requires
            old(k).wf(),
            old(self).wf_s(old(k)),
            old(self).0.ucQueueType == QueueType::RecursiveMutex,
            old(k).current_task.is_some(),
            old(k).pended_ticks < UBaseType::MAX,
            old(k).num_of_overflows < BaseType::MAX - 1,
            old(self).0.holder == Some(TaskHandle(old(k).current_task.unwrap()))
                ==> old(self).0.QueueUnion > 0,
            old(self).0.is_mutex_kind() ==> match old(self).0.holder {
                Some(h) => old(k).tasks@[h.0 as int].mutexes_held > 0,
                None => true,
            },
        ensures
            final(k).wf(),
            final(self).wf_s(final(k)),
            r == (old(self).0.holder == Some(TaskHandle(old(k).current_task.unwrap()))),
            r ==> final(self).0.QueueUnion == old(self).0.QueueUnion - 1 && (final(self).0.QueueUnion == 0 ==> final(self).0.holder.is_none()),
            // the release at count zero runs disinheritance on the holder
            r && old(self).0.QueueUnion == 1 ==> ({
                let h = old(k).current_task.unwrap();
                let hp = old(k).tasks@[h as int].task_priority;
                let bp = old(k).tasks@[h as int].base_priority;
                let held2 = old(k).tasks@[h as int].mutexes_held - 1;
                &&& final(k).tasks@[h as int].mutexes_held == held2
                &&& final(k).tasks@[h as int].base_priority == bp
                &&& final(k).tasks@[h as int].task_priority == if hp != bp && held2 == 0 {
                    bp
                } else {
                    hp
                }
            }),
            r && old(self).0.QueueUnion > 1 ==> *final(k) == *old(k),
            !r ==> *final(self) == *old(self) && *final(k) == *old(k),
            final(k).current_task == old(k).current_task,
            final(k).tick_count == old(k).tick_count,
    {
        let cur: usize = match k.current_task {
            Some(c) => c,
            None => 0,
        };
        let held_by_me: bool = match self.0.transed_task_handle_for_mutex() {
            Some(h) => h.0 == cur,
            None => false,
        };
        if held_by_me {
            self.0.QueueUnion_decrease();
            if self.0.is_QueueUnion_zero() {
                let released: Result<u8, QueueError> = self.0.queue_generic_receive(
                    k,
                    semGIVE_BLOCK_TIME,
                    false,
                );
                proof {
                    assert(released.is_ok());
                }
            }
            true
        } else {
            false
        }
    }
}

} // verus!
