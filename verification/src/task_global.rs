//! The process-wide scheduler state.
//!
//! All kernel state lives in one explicit [`Kernel`] object: the task arena,
//! the list arena (per-priority ready lists, the two delayed lists, the
//! pending-ready, suspended and termination lists, and every queue's wait
//! lists), and the scheduler scalars.  One state object stands in for a set
//! of globals guarded by a critical section, and makes that contract
//! explicit: whoever holds `&mut Kernel` holds the critical section.
//!
//! The module also provides the two primitives all list surgery goes
//! through — linking an item into a list and unlinking it — each of which
//! preserves the kernel's membership invariants.

use vstd::prelude::*;

use crate::config::MAX_PRIORITIES;
use crate::list::{List, ListEntry, ListItem};
use crate::port::{BaseType, TickType, UBaseType, portMAX_DELAY};
use crate::task_control::{task_control_block, with_container};

verus! {

/// Arena index of the ready list for priority `p`, for `p` below
/// [`MAX_PRIORITIES`]; the ready list of priority `p` is simply list `p`.
pub const READY_TASK_LISTS_BASE: usize = 0;

/// Arena index of the first delayed-task list.
pub const DELAYED_TASK_LIST_1: usize = 10;

/// Arena index of the second delayed-task list.
pub const DELAYED_TASK_LIST_2: usize = 11;

/// Arena index of the list of tasks readied while the scheduler was
/// suspended; they hold their event items here until resume moves them.
pub const PENDING_READY_LIST: usize = 12;

/// Arena index of the list of suspended tasks.
pub const SUSPENDED_TASK_LIST: usize = 13;

/// Arena index of the list of deleted tasks awaiting cleanup.
pub const TASKS_WAITING_TERMINATION: usize = 14;

/// Number of lists the kernel itself owns; queues allocate theirs above it.
pub const NUM_KERNEL_LISTS: usize = 15;

/// The whole scheduler state.
pub struct Kernel {
    /// Task arena; a `TaskHandle` is an index into it.
    pub tasks: Vec<task_control_block>,
    /// List arena: the kernel lists at the fixed indices above, then the
    /// wait lists of every created queue.
    pub lists: Vec<List>,
    /// Arena index of the delayed list currently in use.
    pub delayed_list: usize,
    /// Arena index of the delayed list holding wake times that have wrapped
    /// past the tick counter's maximum.
    pub overflow_delayed_list: usize,
    /// The tick counter.
    pub tick_count: TickType,
    /// Earliest wake time of any delayed task, or the maximum tick value
    /// when no task is delayed.
    pub next_task_unblock_time: TickType,
    /// How many times the tick counter has wrapped to zero.
    pub num_of_overflows: BaseType,
    /// Whether the scheduler has been started.
    pub scheduler_running: bool,
    /// Nesting depth of suspend-all; zero means the scheduler is active.
    pub scheduler_suspended: UBaseType,
    /// Ticks that arrived while the scheduler was suspended, to be replayed
    /// on resume.
    pub pended_ticks: UBaseType,
    /// Whether a context switch has been requested but not yet performed.
    pub yield_pending: bool,
    /// Highest priority that may have a non-empty ready list.
    pub top_ready_priority: UBaseType,
    /// The task currently running, if any task has been created.
    pub current_task: Option<usize>,
    /// How many tasks exist.
    pub current_number_of_tasks: UBaseType,
    /// Monotonic counter of task creations and deletions, for debuggers.
    pub task_number: UBaseType,
    /// How many self-deleted tasks await cleanup by the idle task.
    pub deleted_tasks_waiting_clean_up: UBaseType,
    /// Port timer reading taken when the current task was switched in.
    pub task_switched_in_time: u32,
    /// Latest total-run-time reading of the port's statistics timer.
    pub total_run_time: u32,
}

impl Kernel {
    /// The chosen list item (state or event) of task `t`.
    pub open spec fn item_of(&self, t: usize, is_state: bool) -> ListItem {
        if is_state {
            self.tasks@[t as int].state_list_item
        } else {
            self.tasks@[t as int].event_list_item
        }
    }

    /// The list currently linking the chosen item of task `t`, if any.
    pub open spec fn container_of(&self, t: usize, is_state: bool) -> Option<usize> {
        self.item_of(t, is_state).container
    }

    /// The entries of list `l`, in ring order.
    pub open spec fn entries_of(&self, l: int) -> Seq<ListEntry> {
        self.lists@[l].entries@
    }

    /// Whether list `l` links the chosen item of `owner`.
    pub open spec fn has_entry(&self, l: int, owner: usize, is_state: bool) -> bool {
        exists|j: int|
            0 <= j < self.entries_of(l).len() && self.entries_of(l)[j] == (ListEntry {
                owner,
                is_state,
            })
    }

    /// The ring position of the chosen item of `owner` in list `l`; by
    /// [`Self::members_nodup`] there is at most one.
    pub open spec fn entry_index(&self, l: int, owner: usize, is_state: bool) -> int {
        choose|j: int|
            0 <= j < self.entries_of(l).len() && self.entries_of(l)[j] == (ListEntry {
                owner,
                is_state,
            })
    }

    /// The sort key an entry currently carries: its owner item's value.
    pub open spec fn entry_value(&self, e: ListEntry) -> TickType {
        self.item_of(e.owner, e.is_state).item_value
    }

    /// List `l` is sorted by ascending item value.
    pub open spec fn list_sorted(&self, l: int) -> bool {
        forall|j1: int, j2: int|
            0 <= j1 < j2 < self.entries_of(l).len() ==> self.entry_value(
                #[trigger] self.entries_of(l)[j1],
            ) <= self.entry_value(#[trigger] self.entries_of(l)[j2])
    }

    /// The kernel lists exist and each list is structurally sound.
    pub open spec fn lists_wf(&self) -> bool {
        &&& self.lists@.len() >= NUM_KERNEL_LISTS
        &&& forall|l: int| 0 <= l < self.lists@.len() ==> (#[trigger] self.lists@[l]).wf()
    }

    /// Every linked item's entry is present in its recorded container.
    pub open spec fn members_fwd(&self) -> bool {
        forall|t: usize, st: bool|
            t < self.tasks@.len() && (#[trigger] self.container_of(t, st)).is_some() ==> {
                &&& self.container_of(t, st).unwrap() < self.lists@.len()
                &&& self.has_entry(self.container_of(t, st).unwrap() as int, t, st)
            }
    }

    /// Every entry names an existing task whose item records this list as
    /// its container.
    pub open spec fn members_back(&self) -> bool {
        forall|l: int, j: int|
            #![trigger self.entries_of(l)[j]]
            0 <= l < self.lists@.len() && 0 <= j < self.entries_of(l).len() ==> {
                &&& self.entries_of(l)[j].owner < self.tasks@.len()
                &&& self.container_of(
                    self.entries_of(l)[j].owner,
                    self.entries_of(l)[j].is_state,
                ) == Some(l as usize)
            }
    }

    /// No list links the same item twice.
    pub open spec fn members_nodup(&self) -> bool {
        forall|l: int, j1: int, j2: int|
            0 <= l < self.lists@.len() && 0 <= j1 < self.entries_of(l).len() && 0 <= j2
                < self.entries_of(l).len() && #[trigger] self.entries_of(l)[j1]
                == #[trigger] self.entries_of(l)[j2] ==> j1 == j2
    }

    /// An item is linked into at most one list, exactly where its container
    /// field says.
    pub open spec fn membership_wf(&self) -> bool {
        &&& self.members_fwd()
        &&& self.members_back()
        &&& self.members_nodup()
    }

    /// Per-task soundness: priorities in range, inheritance only upward,
    /// items owned by their task.
    pub open spec fn task_ok(&self, t: int) -> bool {
        &&& self.tasks@[t].task_priority < MAX_PRIORITIES
        &&& self.tasks@[t].base_priority <= self.tasks@[t].task_priority
        &&& self.tasks@[t].state_list_item.owner == t
        &&& self.tasks@[t].event_list_item.owner == t
    }

    /// All tasks are sound and the current task, if set, exists.  The task
    /// arena is kept well under the address space's limit so that no list,
    /// which links each task at most twice, can outgrow a `usize`.
    pub open spec fn tasks_wf(&self) -> bool {
        &&& self.tasks@.len() <= 0x7fff_ffff
        &&& forall|t: int| 0 <= t < self.tasks@.len() ==> #[trigger] self.task_ok(t)
        &&& match self.current_task {
            Some(c) => c < self.tasks@.len(),
            None => true,
        }
    }

    /// Ready list `p` entry `j` is a state item of a task whose priority is
    /// exactly `p`.
    pub open spec fn ready_entry_ok(&self, p: int, j: int) -> bool {
        &&& self.entries_of(p)[j].is_state
        &&& self.entries_of(p)[j].owner < self.tasks@.len()
        &&& self.tasks@[self.entries_of(p)[j].owner as int].task_priority == p
    }

    /// Ready lists hold tasks of their own priority, and no ready list above
    /// `top_ready_priority` is occupied.
    pub open spec fn ready_wf(&self) -> bool {
        &&& self.top_ready_priority < MAX_PRIORITIES
        &&& forall|p: int|
            self.top_ready_priority < p < MAX_PRIORITIES ==> (#[trigger] self.entries_of(
                p,
            )).len() == 0
        &&& forall|p: int, j: int|
            #![trigger self.entries_of(p)[j]]
            0 <= p < MAX_PRIORITIES && 0 <= j < self.entries_of(p).len() ==> self.ready_entry_ok(
                p,
                j,
            )
    }

    /// The two delayed-list arena slots, currently assigned either way round.
    pub open spec fn delayed_ids_ok(&self) -> bool {
        ||| (self.delayed_list == DELAYED_TASK_LIST_1 && self.overflow_delayed_list
            == DELAYED_TASK_LIST_2)
        ||| (self.delayed_list == DELAYED_TASK_LIST_2 && self.overflow_delayed_list
            == DELAYED_TASK_LIST_1)
    }

    /// Both delayed lists hold state items sorted by wake time, and no
    /// delayed task wakes before `next_task_unblock_time`.
    pub open spec fn delayed_wf(&self) -> bool {
        &&& self.delayed_ids_ok()
        &&& self.list_sorted(self.delayed_list as int)
        &&& self.list_sorted(self.overflow_delayed_list as int)
        &&& forall|j: int|
            0 <= j < self.entries_of(self.delayed_list as int).len() ==> (
            #[trigger] self.entries_of(self.delayed_list as int)[j]).is_state
        &&& forall|j: int|
            0 <= j < self.entries_of(self.overflow_delayed_list as int).len() ==> (
            #[trigger] self.entries_of(self.overflow_delayed_list as int)[j]).is_state
        &&& (self.entries_of(self.delayed_list as int).len() > 0
            ==> self.next_task_unblock_time <= self.entry_value(
            self.entries_of(self.delayed_list as int)[0],
        ))
    }

    /// The kernel's full well-formedness: what every public operation
    /// requires and preserves.
    pub open spec fn wf(&self) -> bool {
        &&& self.lists_wf()
        &&& self.membership_wf()
        &&& self.tasks_wf()
        &&& self.ready_wf()
        &&& self.delayed_wf()
    }

    /// The scheduler scalars of `a` and `b` agree (list and task arenas may
    /// differ).
    pub open spec fn same_scalars(a: &Kernel, b: &Kernel) -> bool {
        &&& a.delayed_list == b.delayed_list
        &&& a.overflow_delayed_list == b.overflow_delayed_list
        &&& a.tick_count == b.tick_count
        &&& a.next_task_unblock_time == b.next_task_unblock_time
        &&& a.num_of_overflows == b.num_of_overflows
        &&& a.scheduler_running == b.scheduler_running
        &&& a.scheduler_suspended == b.scheduler_suspended
        &&& a.pended_ticks == b.pended_ticks
        &&& a.yield_pending == b.yield_pending
        &&& a.top_ready_priority == b.top_ready_priority
        &&& a.current_task == b.current_task
        &&& a.current_number_of_tasks == b.current_number_of_tasks
        &&& a.task_number == b.task_number
        &&& a.deleted_tasks_waiting_clean_up == b.deleted_tasks_waiting_clean_up
        &&& a.task_switched_in_time == b.task_switched_in_time
        &&& a.total_run_time == b.total_run_time
    }

    /// Like [`Self::same_scalars`], but allowing `top_ready_priority` to
    /// differ.
    pub open spec fn same_scalars_but_top(a: &Kernel, b: &Kernel) -> bool {
        &&& a.delayed_list == b.delayed_list
        &&& a.overflow_delayed_list == b.overflow_delayed_list
        &&& a.tick_count == b.tick_count
        &&& a.next_task_unblock_time == b.next_task_unblock_time
        &&& a.num_of_overflows == b.num_of_overflows
        &&& a.scheduler_running == b.scheduler_running
        &&& a.scheduler_suspended == b.scheduler_suspended
        &&& a.pended_ticks == b.pended_ticks
        &&& a.yield_pending == b.yield_pending
        &&& a.current_task == b.current_task
        &&& a.current_number_of_tasks == b.current_number_of_tasks
        &&& a.task_number == b.task_number
        &&& a.deleted_tasks_waiting_clean_up == b.deleted_tasks_waiting_clean_up
        &&& a.task_switched_in_time == b.task_switched_in_time
        &&& a.total_run_time == b.total_run_time
    }

    /// A fresh kernel: empty kernel lists, no tasks, tick at zero, scheduler
    /// not yet started.
    pub fn new() -> (k: Kernel)
        ensures
            k.wf(),
            k.tasks@.len() == 0,
            k.lists@.len() == NUM_KERNEL_LISTS,
            forall|l: int| 0 <= l < NUM_KERNEL_LISTS ==> (#[trigger] k.entries_of(l)).len() == 0,
            k.delayed_list == DELAYED_TASK_LIST_1,
            k.overflow_delayed_list == DELAYED_TASK_LIST_2,
            k.tick_count == 0,
            k.next_task_unblock_time == portMAX_DELAY,
            k.num_of_overflows == 0,
            !k.scheduler_running,
            k.scheduler_suspended == 0,
            k.pended_ticks == 0,
            !k.yield_pending,
            k.top_ready_priority == 0,
            k.current_task.is_none(),
            k.current_number_of_tasks == 0,
            k.task_number == 0,
            k.deleted_tasks_waiting_clean_up == 0,
    {
        let mut lists: Vec<List> = Vec::new();
        let mut i: usize = 0;
        while i < NUM_KERNEL_LISTS
            invariant
                i <= NUM_KERNEL_LISTS,
                lists@.len() == i,
                forall|l: int|
                    0 <= l < i ==> (#[trigger] lists@[l]).wf() && lists@[l].entries@.len() == 0,
            decreases NUM_KERNEL_LISTS - i,
        {
            lists.push(List::new());
            i = i + 1;
        }
        Kernel {
            tasks: Vec::new(),
            lists,
            delayed_list: DELAYED_TASK_LIST_1,
            overflow_delayed_list: DELAYED_TASK_LIST_2,
            tick_count: 0,
            next_task_unblock_time: portMAX_DELAY,
            num_of_overflows: 0,
            scheduler_running: false,
            scheduler_suspended: 0,
            pended_ticks: 0,
            yield_pending: false,
            top_ready_priority: 0,
            current_task: None,
            current_number_of_tasks: 0,
            task_number: 0,
            deleted_tasks_waiting_clean_up: 0,
            task_switched_in_time: 0,
            total_run_time: 0,
        }
    }

    /// The tick counter's current value.
    pub fn get_tick_count(&self) -> (r: TickType)
        ensures
            r == self.tick_count,
    {
        self.tick_count
    }

    /// The task currently running, if any.
    pub fn get_current_task(&self) -> (r: Option<usize>)
        ensures
            r == self.current_task,
    {
        self.current_task
    }

    /// Whether the scheduler has been started.
    pub fn get_scheduler_running(&self) -> (r: bool)
        ensures
            r == self.scheduler_running,
    {
        self.scheduler_running
    }

    /// The effective priority of the current task.
    pub fn get_current_task_priority(&self) -> (r: UBaseType)
        requires
            self.tasks_wf(),
            self.current_task.is_some(),
        ensures
            r == self.tasks@[self.current_task.unwrap() as int].task_priority,
    {
        let c: usize = match self.current_task {
            Some(c) => c,
            None => 0,
        };
        self.tasks[c].get_priority()
    }

    /// Link the chosen item of task `t` into list `l` at ring position
    /// `pos`.  Membership invariants are preserved; ready and delayed
    /// soundness are preserved whenever the touched list is not one of
    /// those, and otherwise are the caller's to re-establish.
    pub fn item_insert_at(&mut self, l: usize, pos: usize, t: usize, is_state: bool)
        requires
            old(self).lists_wf(),
            old(self).membership_wf(),
            l < old(self).lists@.len(),
            t < old(self).tasks@.len(),
            pos <= old(self).entries_of(l as int).len(),
            old(self).container_of(t, is_state).is_none(),
            old(self).entries_of(l as int).len() < usize::MAX,
        ensures
            final(self).lists_wf(),
            final(self).membership_wf(),
            Kernel::same_scalars(old(self), final(self)),
            final(self).tasks@ == old(self).tasks@.update(
                t as int,
                with_container(old(self).tasks@[t as int], is_state, Some(l)),
            ),
            final(self).lists@.len() == old(self).lists@.len(),
            forall|x: int|
                0 <= x < old(self).lists@.len() && x != l ==> final(self).lists@[x] == old(self).lists@[x],
            final(self).entries_of(l as int) =~= old(self).entries_of(l as int).insert(
                pos as int,
                ListEntry { owner: t, is_state },
            ),
            final(self).lists@[l as int].index == if pos <= old(self).lists@[l as int].index {
                old(self).lists@[l as int].index + 1
            } else {
                old(self).lists@[l as int].index as int
            },
            forall|e: ListEntry|
                e.owner < old(self).tasks@.len() ==> #[trigger] final(self).entry_value(e) == old(self).entry_value(e),
            old(self).tasks_wf() ==> final(self).tasks_wf(),
            old(self).ready_wf() && (l >= MAX_PRIORITIES || (is_state
                && old(self).tasks@[t as int].task_priority == l
                && l <= old(self).top_ready_priority)) ==> final(self).ready_wf(),
            old(self).delayed_wf() && l != old(self).delayed_list
                && l != old(self).overflow_delayed_list ==> final(self).delayed_wf(),
    {
        let ghost pre = *self;
        let entry = ListEntry { owner: t, is_state };
        let lst = &mut self.lists[l];
        lst.insert_at(pos, entry);
        let tcb = &mut self.tasks[t];
        if is_state {
            tcb.state_list_item.container = Some(l);
        } else {
            tcb.event_list_item.container = Some(l);
        }
        proof {
            let post = *self;
            assert(post.entries_of(l as int) =~= pre.entries_of(l as int).insert(
                pos as int,
                entry,
            ));
            pre.entries_of(l as int).insert_ensures(pos as int, entry);
            // forward membership
            assert forall|t2: usize, st2: bool|
                t2 < post.tasks@.len() && (#[trigger] post.container_of(t2, st2)).is_some() implies {
                &&& post.container_of(t2, st2).unwrap() < post.lists@.len()
                &&& post.has_entry(post.container_of(t2, st2).unwrap() as int, t2, st2)
            } by {
                let e2 = ListEntry { owner: t2, is_state: st2 };
                if t2 == t && st2 == is_state {
                    assert(post.entries_of(l as int)[pos as int] == e2);
                } else {
                    assert(post.container_of(t2, st2) == pre.container_of(t2, st2));
                    let l2 = pre.container_of(t2, st2).unwrap() as int;
                    let j = choose|j: int|
                        0 <= j < pre.entries_of(l2).len() && pre.entries_of(l2)[j] == e2;
                    if l2 == l {
                        if j < pos {
                            assert(post.entries_of(l2)[j] == e2);
                        } else {
                            assert(post.entries_of(l2)[j + 1] == e2);
                        }
                    } else {
                        assert(post.entries_of(l2)[j] == e2);
                    }
                }
            }
            // backward membership
            assert forall|l2: int, j: int|
                0 <= l2 < post.lists@.len() && 0 <= j < post.entries_of(l2).len() implies {
                &&& (#[trigger] post.entries_of(l2)[j]).owner < post.tasks@.len()
                &&& post.container_of(
                    post.entries_of(l2)[j].owner,
                    post.entries_of(l2)[j].is_state,
                ) == Some(l2 as usize)
            } by {
                if l2 == l {
                    if j == pos {
                        assert(post.entries_of(l2)[j] == entry);
                    } else {
                        let jo = if j < pos {
                            j
                        } else {
                            j - 1
                        };
                        assert(post.entries_of(l2)[j] == pre.entries_of(l2)[jo]);
                        let e2 = pre.entries_of(l2)[jo];
                        assert(pre.container_of(e2.owner, e2.is_state) == Some(l2 as usize));
                        assert(!(e2.owner == t && e2.is_state == is_state));
                    }
                } else {
                    let e2 = pre.entries_of(l2)[j];
                    assert(pre.container_of(e2.owner, e2.is_state) == Some(l2 as usize));
                    assert(!(e2.owner == t && e2.is_state == is_state));
                }
            }
            // no duplicates
            assert forall|l2: int, j1: int, j2: int|
                0 <= l2 < post.lists@.len() && 0 <= j1 < post.entries_of(l2).len() && 0 <= j2
                    < post.entries_of(l2).len() && #[trigger] post.entries_of(l2)[j1]
                    == #[trigger] post.entries_of(l2)[j2] implies j1 == j2 by {
                if l2 == l {
                    if j1 != j2 {
                        let e1 = post.entries_of(l2)[j1];
                        if j1 == pos || j2 == pos {
                            let jj = if j1 == pos {
                                j2
                            } else {
                                j1
                            };
                            let jo = if jj < pos {
                                jj
                            } else {
                                jj - 1
                            };
                            assert(post.entries_of(l2)[jj] == pre.entries_of(l2)[jo]);
                            assert(pre.entries_of(l2)[jo] == entry);
                            assert(pre.container_of(t, is_state) == Some(l2 as usize));
                            assert(false);
                        } else {
                            let j1o = if j1 < pos {
                                j1
                            } else {
                                j1 - 1
                            };
                            let j2o = if j2 < pos {
                                j2
                            } else {
                                j2 - 1
                            };
                            assert(post.entries_of(l2)[j1] == pre.entries_of(l2)[j1o]);
                            assert(post.entries_of(l2)[j2] == pre.entries_of(l2)[j2o]);
                            assert(j1o != j2o);
                            assert(false);
                        }
                    }
                } else {
                    assert(post.entries_of(l2)[j1] == pre.entries_of(l2)[j1]);
                    assert(post.entries_of(l2)[j2] == pre.entries_of(l2)[j2]);
                }
            }
            // task soundness is untouched by a container change
            if pre.tasks_wf() {
                assert forall|t2: int| 0 <= t2 < post.tasks@.len() implies #[trigger] post.task_ok(
                    t2,
                ) by {
                    assert(pre.task_ok(t2));
                }
            }
            // ready soundness, when the caller's conditions make it possible
            if pre.ready_wf() && (l >= MAX_PRIORITIES || (is_state
                && pre.tasks@[t as int].task_priority == l && l <= pre.top_ready_priority)) {
                assert forall|p: int, j: int|
                    #![trigger post.entries_of(p)[j]]
                    0 <= p < MAX_PRIORITIES && 0 <= j < post.entries_of(p).len() implies post
                    .ready_entry_ok(p, j) by {
                    if p == l {
                        if j == pos {
                            assert(post.entries_of(p)[j] == entry);
                        } else {
                            let jo = if j < pos {
                                j
                            } else {
                                j - 1
                            };
                            assert(post.entries_of(p)[j] == pre.entries_of(p)[jo]);
                            assert(pre.ready_entry_ok(p, jo));
                        }
                    } else {
                        assert(pre.ready_entry_ok(p, j));
                    }
                }
                assert forall|p: int|
                    post.top_ready_priority < p < MAX_PRIORITIES implies (
                #[trigger] post.entries_of(p)).len() == 0 by {
                    assert(pre.entries_of(p).len() == 0);
                }
            }
            // delayed soundness, when the touched list is neither delayed list
            if pre.delayed_wf() && l != pre.delayed_list && l != pre.overflow_delayed_list {
                let d = post.delayed_list as int;
                let o = post.overflow_delayed_list as int;
                assert(post.entries_of(d) == pre.entries_of(d));
                assert(post.entries_of(o) == pre.entries_of(o));
                assert forall|j: int|
                    0 <= j < post.entries_of(d).len() implies (
                #[trigger] post.entries_of(d)[j]).is_state by {
                    assert(pre.entries_of(d)[j].is_state);
                }
                assert forall|j: int|
                    0 <= j < post.entries_of(o).len() implies (
                #[trigger] post.entries_of(o)[j]).is_state by {
                    assert(pre.entries_of(o)[j].is_state);
                }
                assert forall|j1: int, j2: int|
                    0 <= j1 < j2 < post.entries_of(d).len() implies post.entry_value(
                    #[trigger] post.entries_of(d)[j1],
                ) <= post.entry_value(#[trigger] post.entries_of(d)[j2]) by {
                    assert(pre.entries_of(d)[j1].owner < pre.tasks@.len());
                    assert(pre.entries_of(d)[j2].owner < pre.tasks@.len());
                    assert(pre.entry_value(pre.entries_of(d)[j1]) <= pre.entry_value(
                        pre.entries_of(d)[j2],
                    ));
                }
                assert forall|j1: int, j2: int|
                    0 <= j1 < j2 < post.entries_of(o).len() implies post.entry_value(
                    #[trigger] post.entries_of(o)[j1],
                ) <= post.entry_value(#[trigger] post.entries_of(o)[j2]) by {
                    assert(pre.entries_of(o)[j1].owner < pre.tasks@.len());
                    assert(pre.entries_of(o)[j2].owner < pre.tasks@.len());
                    assert(pre.entry_value(pre.entries_of(o)[j1]) <= pre.entry_value(
                        pre.entries_of(o)[j2],
                    ));
                }
                if post.entries_of(d).len() > 0 {
                    assert(post.entries_of(d)[0] == pre.entries_of(d)[0]);
                    assert(pre.entries_of(d)[0].owner < pre.tasks@.len());
                }
            }
        }
    }

    /// Unlink the chosen item of task `t` from the list its container field
    /// names, returning how many items remain in that list.
    pub fn item_remove(&mut self, t: usize, is_state: bool) -> (remaining: UBaseType)
        requires
            old(self).lists_wf(),
            old(self).membership_wf(),
            t < old(self).tasks@.len(),
            old(self).container_of(t, is_state).is_some(),
        ensures
            final(self).lists_wf(),
            final(self).membership_wf(),
            Kernel::same_scalars(old(self), final(self)),
            final(self).tasks@ == old(self).tasks@.update(
                t as int,
                with_container(old(self).tasks@[t as int], is_state, None),
            ),
            final(self).lists@.len() == old(self).lists@.len(),
            forall|x: int|
                0 <= x < old(self).lists@.len() && x != old(self).container_of(
                    t,
                    is_state,
                ).unwrap() ==> final(self).lists@[x] == old(self).lists@[x],
            ({
                let l = old(self).container_of(t, is_state).unwrap() as int;
                let j = old(self).entry_index(l, t, is_state);
                &&& 0 <= j < old(self).entries_of(l).len()
                &&& old(self).entries_of(l)[j] == (ListEntry { owner: t, is_state })
                &&& final(self).entries_of(l) =~= old(self).entries_of(l).remove(j)
                &&& remaining == final(self).entries_of(l).len()
                &&& final(self).lists@[l].index == if j < old(self).lists@[l].index {
                    (old(self).lists@[l].index - 1) as int
                } else if j == old(self).lists@[l].index {
                    if j == 0 {
                        old(self).entries_of(l).len() - 1
                    } else {
                        j - 1
                    }
                } else {
                    old(self).lists@[l].index as int
                }
            }),
            forall|e: ListEntry|
                e.owner < old(self).tasks@.len() ==> #[trigger] final(self).entry_value(e) == old(self).entry_value(e),
            old(self).tasks_wf() ==> final(self).tasks_wf(),
            old(self).ready_wf() ==> final(self).ready_wf(),
            old(self).delayed_wf() ==> final(self).delayed_wf(),
            forall|x: int|
                0 <= x < old(self).lists@.len() && old(self).list_sorted(x) ==> final(self).list_sorted(x),
    {
        let ghost pre = *self;
        let l: usize = match if is_state {
            self.tasks[t].state_list_item.container
        } else {
            self.tasks[t].event_list_item.container
        } {
            Some(l) => l,
            None => 0,
        };
        let found: Option<usize> = self.lists[l].find_entry(t, is_state);
        proof {
            assert(pre.container_of(t, is_state) == Some(l));
            assert(pre.has_entry(l as int, t, is_state));
            if found.is_none() {
                let j = pre.entry_index(l as int, t, is_state);
                assert(pre.entries_of(l as int)[j] == (ListEntry { owner: t, is_state }));
                assert(false);
            }
        }
        let pos: usize = match found {
            Some(p) => p,
            None => 0,
        };
        proof {
            let j = pre.entry_index(l as int, t, is_state);
            assert(pre.entries_of(l as int)[j] == (ListEntry { owner: t, is_state }));
            assert(j == pos as int);
        }
        let lst = &mut self.lists[l];
        lst.remove_at(pos);
        let remaining: UBaseType = lst.get_length();
        let tcb = &mut self.tasks[t];
        if is_state {
            tcb.state_list_item.container = None;
        } else {
            tcb.event_list_item.container = None;
        }
        proof {
            let post = *self;
            pre.entries_of(l as int).remove_ensures(pos as int);
            let entry = ListEntry { owner: t, is_state };
            // forward membership
            assert forall|t2: usize, st2: bool|
                t2 < post.tasks@.len() && (#[trigger] post.container_of(t2, st2)).is_some() implies {
                &&& post.container_of(t2, st2).unwrap() < post.lists@.len()
                &&& post.has_entry(post.container_of(t2, st2).unwrap() as int, t2, st2)
            } by {
                let e2 = ListEntry { owner: t2, is_state: st2 };
                assert(!(t2 == t && st2 == is_state));
                assert(post.container_of(t2, st2) == pre.container_of(t2, st2));
                let l2 = pre.container_of(t2, st2).unwrap() as int;
                let j = choose|j: int|
                    0 <= j < pre.entries_of(l2).len() && pre.entries_of(l2)[j] == e2;
                if l2 == l {
                    assert(j != pos as int);
                    if j < pos as int {
                        assert(post.entries_of(l2)[j] == e2);
                    } else {
                        assert(post.entries_of(l2)[j - 1] == e2);
                    }
                } else {
                    assert(post.entries_of(l2)[j] == e2);
                }
            }
            // backward membership
            assert forall|l2: int, j: int|
                0 <= l2 < post.lists@.len() && 0 <= j < post.entries_of(l2).len() implies {
                &&& (#[trigger] post.entries_of(l2)[j]).owner < post.tasks@.len()
                &&& post.container_of(
                    post.entries_of(l2)[j].owner,
                    post.entries_of(l2)[j].is_state,
                ) == Some(l2 as usize)
            } by {
                if l2 == l {
                    let jo = if j < pos as int {
                        j
                    } else {
                        j + 1
                    };
                    assert(post.entries_of(l2)[j] == pre.entries_of(l2)[jo]);
                    let e2 = pre.entries_of(l2)[jo];
                    assert(pre.container_of(e2.owner, e2.is_state) == Some(l2 as usize));
                    assert(!(e2.owner == t && e2.is_state == is_state)) by {
                        if e2.owner == t && e2.is_state == is_state {
                            assert(jo == pos as int);
                        }
                    }
                } else {
                    assert(post.entries_of(l2) == pre.entries_of(l2));
                    let e2 = pre.entries_of(l2)[j];
                    assert(pre.container_of(e2.owner, e2.is_state) == Some(l2 as usize));
                    if e2.owner == t && e2.is_state == is_state {
                        assert(Some(l2 as usize) == Some(l));
                        vstd::std_specs::vec::axiom_spec_len(&pre.lists);
                        assert(0 <= l2 < pre.lists@.len());
                        assert(l2 == l);
                        assert(false);
                    }
                }
            }
            // no duplicates
            assert forall|l2: int, j1: int, j2: int|
                0 <= l2 < post.lists@.len() && 0 <= j1 < post.entries_of(l2).len() && 0 <= j2
                    < post.entries_of(l2).len() && #[trigger] post.entries_of(l2)[j1]
                    == #[trigger] post.entries_of(l2)[j2] implies j1 == j2 by {
                if l2 == l {
                    if j1 != j2 {
                        let j1o = if j1 < pos as int {
                            j1
                        } else {
                            j1 + 1
                        };
                        let j2o = if j2 < pos as int {
                            j2
                        } else {
                            j2 + 1
                        };
                        assert(post.entries_of(l2)[j1] == pre.entries_of(l2)[j1o]);
                        assert(post.entries_of(l2)[j2] == pre.entries_of(l2)[j2o]);
                        assert(j1o != j2o);
                        assert(false);
                    }
                } else {
                    assert(post.entries_of(l2)[j1] == pre.entries_of(l2)[j1]);
                    assert(post.entries_of(l2)[j2] == pre.entries_of(l2)[j2]);
                }
            }
            // task soundness is untouched by a container change
            if pre.tasks_wf() {
                assert forall|t2: int| 0 <= t2 < post.tasks@.len() implies #[trigger] post.task_ok(
                    t2,
                ) by {
                    assert(pre.task_ok(t2));
                }
            }
            // sortedness of any sorted list survives removal
            assert forall|x: int|
                0 <= x < pre.lists@.len() && pre.list_sorted(x) implies post.list_sorted(x) by {
                if x == l {
                    assert forall|j1: int, j2: int|
                        0 <= j1 < j2 < post.entries_of(x).len() implies post.entry_value(
                        #[trigger] post.entries_of(x)[j1],
                    ) <= post.entry_value(#[trigger] post.entries_of(x)[j2]) by {
                        let j1o = if j1 < pos as int {
                            j1
                        } else {
                            j1 + 1
                        };
                        let j2o = if j2 < pos as int {
                            j2
                        } else {
                            j2 + 1
                        };
                        assert(post.entries_of(x)[j1] == pre.entries_of(x)[j1o]);
                        assert(post.entries_of(x)[j2] == pre.entries_of(x)[j2o]);
                    }
                } else {
                    assert(post.entries_of(x) == pre.entries_of(x));
                    assert forall|j1: int, j2: int|
                        0 <= j1 < j2 < post.entries_of(x).len() implies post.entry_value(
                        #[trigger] post.entries_of(x)[j1],
                    ) <= post.entry_value(#[trigger] post.entries_of(x)[j2]) by {
                        assert(pre.entry_value(pre.entries_of(x)[j1]) <= pre.entry_value(
                            pre.entries_of(x)[j2],
                        ));
                    }
                }
            }
            // ready soundness survives removal
            if pre.ready_wf() {
                assert forall|p: int, j: int|
                    #![trigger post.entries_of(p)[j]]
                    0 <= p < MAX_PRIORITIES && 0 <= j < post.entries_of(p).len() implies post
                    .ready_entry_ok(p, j) by {
                    if p == l {
                        let jo = if j < pos as int {
                            j
                        } else {
                            j + 1
                        };
                        assert(post.entries_of(p)[j] == pre.entries_of(p)[jo]);
                        assert(pre.ready_entry_ok(p, jo));
                    } else {
                        assert(pre.ready_entry_ok(p, j));
                    }
                }
                assert forall|p: int|
                    post.top_ready_priority < p < MAX_PRIORITIES implies (
                #[trigger] post.entries_of(p)).len() == 0 by {
                    assert(pre.entries_of(p).len() == 0);
                }
            }
            // delayed soundness survives removal
            if pre.delayed_wf() {
                let d = post.delayed_list as int;
                let o = post.overflow_delayed_list as int;
                assert forall|j: int|
                    0 <= j < post.entries_of(d).len() implies (
                #[trigger] post.entries_of(d)[j]).is_state by {
                    if d == l {
                        let jo = if j < pos as int {
                            j
                        } else {
                            j + 1
                        };
                        assert(post.entries_of(d)[j] == pre.entries_of(d)[jo]);
                    } else {
                        assert(post.entries_of(d) == pre.entries_of(d));
                        assert(pre.entries_of(d)[j].is_state);
                    }
                }
                assert forall|j: int|
                    0 <= j < post.entries_of(o).len() implies (
                #[trigger] post.entries_of(o)[j]).is_state by {
                    if o == l {
                        let jo = if j < pos as int {
                            j
                        } else {
                            j + 1
                        };
                        assert(post.entries_of(o)[j] == pre.entries_of(o)[jo]);
                    } else {
                        assert(post.entries_of(o) == pre.entries_of(o));
                        assert(pre.entries_of(o)[j].is_state);
                    }
                }
                if post.entries_of(d).len() > 0 {
                    if d == l {
                        let jo = if 0 < pos as int {
                            0
                        } else {
                            1
                        };
                        assert(post.entries_of(d)[0] == pre.entries_of(d)[jo]);
                        assert(pre.entry_value(pre.entries_of(d)[0]) <= pre.entry_value(
                            pre.entries_of(d)[jo],
                        ));
                    }
                }
            }
        }
        remaining
    }
}

/// A list links each task's state item and event item at most once, so its
/// length is bounded by twice the number of tasks.
pub proof fn lemma_list_len_bound(k: &Kernel, l: int)
    requires
        k.lists_wf(),
        k.membership_wf(),
        0 <= l < k.lists@.len(),
    ensures
        k.entries_of(l).len() <= 2 * k.tasks@.len(),
{
    broadcast use vstd::set::group_set_axioms;

    let s = k.entries_of(l);
    let n = k.tasks@.len() as int;
    assert(s.no_duplicates()) by {
        assert forall|j1: int, j2: int| 0 <= j1 < j2 < s.len() implies s[j1] != s[j2] by {
            if s[j1] == s[j2] {
                assert(k.entries_of(l)[j1] == k.entries_of(l)[j2]);
            }
        }
    }
    s.unique_seq_to_set();
    let f_state = |i: int| ListEntry { owner: i as usize, is_state: true };
    let f_event = |i: int| ListEntry { owner: i as usize, is_state: false };
    let range = vstd::set_lib::set_int_range(0, n);
    vstd::set_lib::lemma_int_range(0, n);
    let m_state = range.map(f_state);
    let m_event = range.map(f_event);
    vstd::set_lib::lemma_map_size_bound(range, m_state, f_state);
    vstd::set_lib::lemma_map_size_bound(range, m_event, f_event);
    vstd::set_lib::lemma_len_union(m_state, m_event);
    let valid = m_state.union(m_event);
    assert forall|e: ListEntry| s.to_set().contains(e) implies valid.contains(e) by {
        let j = choose|j: int| 0 <= j < s.len() && s[j] == e;
        assert(k.entries_of(l)[j].owner < k.tasks@.len());
        let i = e.owner as int;
        assert(range.contains(i));
        if e.is_state {
            assert(m_state.contains(f_state(i)));
            assert(f_state(i) == e);
        } else {
            assert(m_event.contains(f_event(i)));
            assert(f_event(i) == e);
        }
    }
    vstd::set_lib::lemma_len_subset(s.to_set(), valid);
}

/// Updating one task's bookkeeping fields (name, stack, counters, flags)
/// while keeping its priority fields and both list items leaves every kernel
/// invariant in place.
pub proof fn lemma_task_update_transfer(a: Kernel, b: Kernel, t: usize)
    requires
        t < a.tasks@.len(),
        b.lists@ == a.lists@,
        b.tasks@ == a.tasks@.update(t as int, b.tasks@[t as int]),
        b.tasks@[t as int].state_list_item == a.tasks@[t as int].state_list_item,
        b.tasks@[t as int].event_list_item == a.tasks@[t as int].event_list_item,
        a.top_ready_priority == b.top_ready_priority,
        a.delayed_list == b.delayed_list,
        a.overflow_delayed_list == b.overflow_delayed_list,
        a.next_task_unblock_time == b.next_task_unblock_time,
        a.current_task == b.current_task,
    ensures
        a.tasks_wf() && b.tasks@[t as int].task_priority == a.tasks@[t as int].task_priority
            && b.tasks@[t as int].base_priority == a.tasks@[t as int].base_priority
            ==> b.tasks_wf(),
        a.membership_wf() ==> b.membership_wf(),
        a.ready_wf() && b.tasks@[t as int].task_priority == a.tasks@[t as int].task_priority
            ==> b.ready_wf(),
        a.membership_wf() && a.delayed_wf() && a.lists@.len() >= NUM_KERNEL_LISTS
            ==> b.delayed_wf(),
        a.lists_wf() ==> b.lists_wf(),
        forall|x: int|
            0 <= x < a.lists@.len() && a.membership_wf() && a.list_sorted(x) ==> b.list_sorted(x),
{
    assert forall|t2: usize, st: bool|
        #![trigger a.container_of(t2, st)]
        t2 < a.tasks@.len() ==> a.item_of(t2, st) == b.item_of(t2, st) by {}
    assert forall|e: ListEntry|
        #![trigger a.entry_value(e)]
        e.owner < a.tasks@.len() ==> a.entry_value(e) == b.entry_value(e) by {}
    if a.tasks_wf() && b.tasks@[t as int].task_priority == a.tasks@[t as int].task_priority
        && b.tasks@[t as int].base_priority == a.tasks@[t as int].base_priority {
        assert forall|t2: int| 0 <= t2 < b.tasks@.len() implies #[trigger] b.task_ok(t2) by {
            assert(a.task_ok(t2));
        }
    }
    if a.membership_wf() {
        assert forall|l: int, j1: int, j2: int|
            0 <= l < b.lists@.len() && 0 <= j1 < b.entries_of(l).len() && 0 <= j2 < b.entries_of(
                l,
            ).len() && #[trigger] b.entries_of(l)[j1] == #[trigger] b.entries_of(l)[j2] implies j1
            == j2 by {
            assert(b.entries_of(l)[j1] == a.entries_of(l)[j1]);
            assert(b.entries_of(l)[j2] == a.entries_of(l)[j2]);
        }
        assert forall|t2: usize, st: bool|
            t2 < b.tasks@.len() && (#[trigger] b.container_of(t2, st)).is_some() implies {
            &&& b.container_of(t2, st).unwrap() < b.lists@.len()
            &&& b.has_entry(b.container_of(t2, st).unwrap() as int, t2, st)
        } by {
            let e = ListEntry { owner: t2, is_state: st };
            assert(a.container_of(t2, st) == b.container_of(t2, st));
            let l = a.container_of(t2, st).unwrap() as int;
            let j = choose|j: int| 0 <= j < a.entries_of(l).len() && a.entries_of(l)[j] == e;
            assert(b.entries_of(l)[j] == e);
        }
        assert forall|l: int, j: int|
            0 <= l < b.lists@.len() && 0 <= j < b.entries_of(l).len() implies {
            &&& (#[trigger] b.entries_of(l)[j]).owner < b.tasks@.len()
            &&& b.container_of(b.entries_of(l)[j].owner, b.entries_of(l)[j].is_state) == Some(
                l as usize,
            )
        } by {
            assert(b.entries_of(l)[j] == a.entries_of(l)[j]);
            assert(a.container_of(a.entries_of(l)[j].owner, a.entries_of(l)[j].is_state) == Some(
                l as usize,
            ));
        }
    }
    if a.ready_wf() && b.tasks@[t as int].task_priority == a.tasks@[t as int].task_priority {
        assert forall|p: int, j: int|
            #![trigger b.entries_of(p)[j]]
            0 <= p < MAX_PRIORITIES && 0 <= j < b.entries_of(p).len() implies b.ready_entry_ok(
            p,
            j,
        ) by {
            assert(a.ready_entry_ok(p, j));
        }
        assert forall|p: int|
            b.top_ready_priority < p < MAX_PRIORITIES implies (#[trigger] b.entries_of(p)).len()
            == 0 by {
            assert(a.entries_of(p).len() == 0);
        }
    }
    if a.membership_wf() {
        assert forall|x: int| 0 <= x < a.lists@.len() && a.list_sorted(x) implies b.list_sorted(
            x,
        ) by {
            assert forall|j1: int, j2: int|
                0 <= j1 < j2 < b.entries_of(x).len() implies b.entry_value(
                #[trigger] b.entries_of(x)[j1],
            ) <= b.entry_value(#[trigger] b.entries_of(x)[j2]) by {
                assert(a.entries_of(x)[j1].owner < a.tasks@.len());
                assert(a.entries_of(x)[j2].owner < a.tasks@.len());
                assert(a.entry_value(a.entries_of(x)[j1]) <= a.entry_value(a.entries_of(x)[j2]));
            }
        }
        if a.delayed_wf() && a.lists@.len() >= NUM_KERNEL_LISTS {
            let d = b.delayed_list as int;
            let o = b.overflow_delayed_list as int;
            assert forall|j: int|
                0 <= j < b.entries_of(d).len() implies (
            #[trigger] b.entries_of(d)[j]).is_state by {
                assert(a.entries_of(d)[j].is_state);
            }
            assert forall|j: int|
                0 <= j < b.entries_of(o).len() implies (
            #[trigger] b.entries_of(o)[j]).is_state by {
                assert(a.entries_of(o)[j].is_state);
            }
            if b.entries_of(d).len() > 0 {
                assert(b.entries_of(d)[0] == a.entries_of(d)[0]);
                assert(a.entries_of(d)[0].owner < a.tasks@.len());
            }
        }
    }
}

/// Appending a fresh, unlinked task extends the arena without disturbing any
/// kernel invariant.
pub proof fn lemma_push_task(a: Kernel, b: Kernel)
    requires
        a.lists@.len() >= NUM_KERNEL_LISTS,
        b.lists@ == a.lists@,
        b.tasks@.len() == a.tasks@.len() + 1,
        b.tasks@ == a.tasks@.push(b.tasks@[a.tasks@.len() as int]),
        b.tasks@[a.tasks@.len() as int].state_list_item.container.is_none(),
        b.tasks@[a.tasks@.len() as int].event_list_item.container.is_none(),
        b.tasks@[a.tasks@.len() as int].state_list_item.owner == a.tasks@.len(),
        b.tasks@[a.tasks@.len() as int].event_list_item.owner == a.tasks@.len(),
        b.tasks@[a.tasks@.len() as int].task_priority < MAX_PRIORITIES,
        b.tasks@[a.tasks@.len() as int].base_priority <= b.tasks@[a.tasks@.len() as int].task_priority,
        b.tasks@.len() <= 0x7fff_ffff,
        a.top_ready_priority == b.top_ready_priority,
        a.delayed_list == b.delayed_list,
        a.overflow_delayed_list == b.overflow_delayed_list,
        a.next_task_unblock_time == b.next_task_unblock_time,
        a.membership_wf(),
    ensures
        b.membership_wf(),
        a.tasks_wf() && (match b.current_task {
            Some(c) => c < b.tasks@.len(),
            None => true,
        }) ==> b.tasks_wf(),
        a.ready_wf() ==> b.ready_wf(),
        a.delayed_wf() ==> b.delayed_wf(),
        a.lists_wf() ==> b.lists_wf(),
        forall|x: int| 0 <= x < a.lists@.len() && a.list_sorted(x) ==> b.list_sorted(x),
{
    let n = a.tasks@.len() as int;
    assert forall|t2: usize, st: bool|
        #![trigger a.container_of(t2, st)]
        t2 < a.tasks@.len() ==> a.item_of(t2, st) == b.item_of(t2, st) by {}
    assert forall|e: ListEntry|
        #![trigger a.entry_value(e)]
        e.owner < a.tasks@.len() ==> a.entry_value(e) == b.entry_value(e) by {}
    if a.tasks_wf() {
        assert forall|t2: int| 0 <= t2 < b.tasks@.len() implies #[trigger] b.task_ok(t2) by {
            if t2 < n {
                assert(a.task_ok(t2));
            }
        }
    }
    assert forall|t2: usize, st: bool|
        t2 < b.tasks@.len() && (#[trigger] b.container_of(t2, st)).is_some() implies {
        &&& b.container_of(t2, st).unwrap() < b.lists@.len()
        &&& b.has_entry(b.container_of(t2, st).unwrap() as int, t2, st)
    } by {
        let e = ListEntry { owner: t2, is_state: st };
        assert(t2 < a.tasks@.len());
        assert(a.container_of(t2, st) == b.container_of(t2, st));
        let l = a.container_of(t2, st).unwrap() as int;
        let j = choose|j: int| 0 <= j < a.entries_of(l).len() && a.entries_of(l)[j] == e;
        assert(b.entries_of(l)[j] == e);
    }
    assert forall|l: int, j: int|
        0 <= l < b.lists@.len() && 0 <= j < b.entries_of(l).len() implies {
        &&& (#[trigger] b.entries_of(l)[j]).owner < b.tasks@.len()
        &&& b.container_of(b.entries_of(l)[j].owner, b.entries_of(l)[j].is_state) == Some(
            l as usize,
        )
    } by {
        assert(b.entries_of(l)[j] == a.entries_of(l)[j]);
        assert(a.container_of(a.entries_of(l)[j].owner, a.entries_of(l)[j].is_state) == Some(
            l as usize,
        ));
    }
    assert forall|l: int, j1: int, j2: int|
        0 <= l < b.lists@.len() && 0 <= j1 < b.entries_of(l).len() && 0 <= j2 < b.entries_of(
            l,
        ).len() && #[trigger] b.entries_of(l)[j1] == #[trigger] b.entries_of(l)[j2] implies j1
        == j2 by {
        assert(b.entries_of(l)[j1] == a.entries_of(l)[j1]);
        assert(b.entries_of(l)[j2] == a.entries_of(l)[j2]);
    }
    if a.ready_wf() {
        assert forall|p: int, j: int|
            #![trigger b.entries_of(p)[j]]
            0 <= p < MAX_PRIORITIES && 0 <= j < b.entries_of(p).len() implies b.ready_entry_ok(
            p,
            j,
        ) by {
            assert(a.ready_entry_ok(p, j));
        }
        assert forall|p: int|
            b.top_ready_priority < p < MAX_PRIORITIES implies (#[trigger] b.entries_of(p)).len()
            == 0 by {
            assert(a.entries_of(p).len() == 0);
        }
    }
    assert forall|x: int| 0 <= x < a.lists@.len() && a.list_sorted(x) implies b.list_sorted(x) by {
        assert forall|j1: int, j2: int|
            0 <= j1 < j2 < b.entries_of(x).len() implies b.entry_value(
            #[trigger] b.entries_of(x)[j1],
        ) <= b.entry_value(#[trigger] b.entries_of(x)[j2]) by {
            assert(b.entries_of(x)[j1] == a.entries_of(x)[j1]);
            assert(b.entries_of(x)[j2] == a.entries_of(x)[j2]);
            assert(a.entries_of(x)[j1].owner < a.tasks@.len());
            assert(a.entries_of(x)[j2].owner < a.tasks@.len());
            assert(a.entry_value(a.entries_of(x)[j1]) <= a.entry_value(a.entries_of(x)[j2]));
        }
    }
    if a.delayed_wf() {
        let d = b.delayed_list as int;
        let o = b.overflow_delayed_list as int;
        assert forall|j: int|
            0 <= j < b.entries_of(d).len() implies (#[trigger] b.entries_of(d)[j]).is_state by {
            assert(a.entries_of(d)[j].is_state);
        }
        assert forall|j: int|
            0 <= j < b.entries_of(o).len() implies (#[trigger] b.entries_of(o)[j]).is_state by {
            assert(a.entries_of(o)[j].is_state);
        }
        if b.entries_of(d).len() > 0 {
            assert(b.entries_of(d)[0] == a.entries_of(d)[0]);
            assert(a.entries_of(d)[0].owner < a.tasks@.len());
        }
    }
}

/// Appending a fresh, empty list to the arena disturbs no kernel invariant.
pub proof fn lemma_push_list(a: Kernel, b: Kernel)
    requires
        a.wf(),
        b.tasks@ == a.tasks@,
        b.lists@.len() == a.lists@.len() + 1,
        b.lists@ == a.lists@.push(b.lists@[a.lists@.len() as int]),
        b.lists@[a.lists@.len() as int].wf(),
        b.lists@[a.lists@.len() as int].entries@.len() == 0,
        Kernel::same_scalars(&a, &b),
    ensures
        b.wf(),
{
    let n = a.lists@.len() as int;
    assert forall|x: int| 0 <= x < n implies a.entries_of(x) == b.entries_of(x) by {}
    assert forall|t2: int| 0 <= t2 < b.tasks@.len() implies #[trigger] b.task_ok(t2) by {
        assert(a.task_ok(t2));
    }
    assert forall|l: int| 0 <= l < b.lists@.len() implies (#[trigger] b.lists@[l]).wf() by {
        if l < n {
            assert(a.lists@[l].wf());
        }
    }
    assert forall|t2: usize, st: bool|
        t2 < b.tasks@.len() && (#[trigger] b.container_of(t2, st)).is_some() implies {
        &&& b.container_of(t2, st).unwrap() < b.lists@.len()
        &&& b.has_entry(b.container_of(t2, st).unwrap() as int, t2, st)
    } by {
        let e = ListEntry { owner: t2, is_state: st };
        assert(a.container_of(t2, st) == b.container_of(t2, st));
        let l = a.container_of(t2, st).unwrap() as int;
        let j = choose|j: int| 0 <= j < a.entries_of(l).len() && a.entries_of(l)[j] == e;
        assert(b.entries_of(l)[j] == e);
    }
    assert forall|l: int, j: int|
        0 <= l < b.lists@.len() && 0 <= j < b.entries_of(l).len() implies {
        &&& (#[trigger] b.entries_of(l)[j]).owner < b.tasks@.len()
        &&& b.container_of(b.entries_of(l)[j].owner, b.entries_of(l)[j].is_state) == Some(
            l as usize,
        )
    } by {
        assert(l < n);
        assert(b.entries_of(l)[j] == a.entries_of(l)[j]);
        assert(a.container_of(a.entries_of(l)[j].owner, a.entries_of(l)[j].is_state) == Some(
            l as usize,
        ));
    }
    assert forall|l: int, j1: int, j2: int|
        0 <= l < b.lists@.len() && 0 <= j1 < b.entries_of(l).len() && 0 <= j2 < b.entries_of(
            l,
        ).len() && #[trigger] b.entries_of(l)[j1] == #[trigger] b.entries_of(l)[j2] implies j1
        == j2 by {
        if l < n {
            assert(b.entries_of(l)[j1] == a.entries_of(l)[j1]);
            assert(b.entries_of(l)[j2] == a.entries_of(l)[j2]);
        }
    }
    assert forall|p: int, j: int|
        #![trigger b.entries_of(p)[j]]
        0 <= p < MAX_PRIORITIES && 0 <= j < b.entries_of(p).len() implies b.ready_entry_ok(
        p,
        j,
    ) by {
        assert(a.ready_entry_ok(p, j));
    }
    assert forall|p: int|
        b.top_ready_priority < p < MAX_PRIORITIES implies (#[trigger] b.entries_of(p)).len()
        == 0 by {
        assert(a.entries_of(p).len() == 0);
    }
    let d = b.delayed_list as int;
    let o = b.overflow_delayed_list as int;
    assert forall|j: int|
        0 <= j < b.entries_of(d).len() implies (#[trigger] b.entries_of(d)[j]).is_state by {
        assert(a.entries_of(d)[j].is_state);
    }
    assert forall|j: int|
        0 <= j < b.entries_of(o).len() implies (#[trigger] b.entries_of(o)[j]).is_state by {
        assert(a.entries_of(o)[j].is_state);
    }
    assert(b.list_sorted(d)) by {
        assert forall|j1: int, j2: int|
            0 <= j1 < j2 < b.entries_of(d).len() implies b.entry_value(
            #[trigger] b.entries_of(d)[j1],
        ) <= b.entry_value(#[trigger] b.entries_of(d)[j2]) by {
            assert(a.entry_value(a.entries_of(d)[j1]) <= a.entry_value(a.entries_of(d)[j2]));
        }
    }
    assert(b.list_sorted(o)) by {
        assert forall|j1: int, j2: int|
            0 <= j1 < j2 < b.entries_of(o).len() implies b.entry_value(
            #[trigger] b.entries_of(o)[j1],
        ) <= b.entry_value(#[trigger] b.entries_of(o)[j2]) by {
            assert(a.entry_value(a.entries_of(o)[j1]) <= a.entry_value(a.entries_of(o)[j2]));
        }
    }
    if b.entries_of(d).len() > 0 {
        assert(b.entries_of(d)[0] == a.entries_of(d)[0]);
    }
}

/// The membership, task, ready and delayed invariants only read the lists'
/// entries, the task arena and a few scalars; two kernels agreeing on those
/// share them.  Used whenever an operation merely moves a cursor or changes
/// an unrelated scalar.
pub proof fn lemma_components_transfer(a: Kernel, b: Kernel)
    requires
        a.lists@.len() >= NUM_KERNEL_LISTS,
        a.lists@.len() == b.lists@.len(),
        forall|x: int| 0 <= x < a.lists@.len() ==> a.entries_of(x) == b.entries_of(x),
        a.tasks@ == b.tasks@,
    ensures
        a.tasks_wf() && (match b.current_task {
            Some(c) => c < b.tasks@.len(),
            None => true,
        }) ==> b.tasks_wf(),
        a.members_fwd() ==> b.members_fwd(),
        a.members_back() ==> b.members_back(),
        a.members_nodup() ==> b.members_nodup(),
        a.membership_wf() ==> b.membership_wf(),
        a.ready_wf() && a.top_ready_priority <= b.top_ready_priority && b.top_ready_priority
            < MAX_PRIORITIES ==> b.ready_wf(),
        a.delayed_wf() && a.delayed_list == b.delayed_list && a.overflow_delayed_list
            == b.overflow_delayed_list && a.next_task_unblock_time == b.next_task_unblock_time
            ==> b.delayed_wf(),
        forall|x: int| 0 <= x < a.lists@.len() && a.list_sorted(x) ==> b.list_sorted(x),
{
    assert forall|t: usize, st: bool|
        #![trigger a.container_of(t, st)]
        a.container_of(t, st) == b.container_of(t, st) by {}
    assert forall|e: ListEntry| #![trigger a.entry_value(e)] a.entry_value(e) == b.entry_value(
        e,
    ) by {}
    if a.tasks_wf() {
        assert forall|t: int| 0 <= t < b.tasks@.len() implies #[trigger] b.task_ok(t) by {
            assert(a.task_ok(t));
        }
    }
    if a.members_fwd() {
        assert forall|t: usize, st: bool|
            t < b.tasks@.len() && (#[trigger] b.container_of(t, st)).is_some() implies {
            &&& b.container_of(t, st).unwrap() < b.lists@.len()
            &&& b.has_entry(b.container_of(t, st).unwrap() as int, t, st)
        } by {
            let e = ListEntry { owner: t, is_state: st };
            assert(a.container_of(t, st).is_some());
            let l = a.container_of(t, st).unwrap() as int;
            let j = choose|j: int| 0 <= j < a.entries_of(l).len() && a.entries_of(l)[j] == e;
            assert(b.entries_of(l)[j] == e);
        }
    }
    if a.members_back() {
        assert forall|l: int, j: int|
            0 <= l < b.lists@.len() && 0 <= j < b.entries_of(l).len() implies {
            &&& (#[trigger] b.entries_of(l)[j]).owner < b.tasks@.len()
            &&& b.container_of(b.entries_of(l)[j].owner, b.entries_of(l)[j].is_state) == Some(
                l as usize,
            )
        } by {
            assert(b.entries_of(l)[j] == a.entries_of(l)[j]);
        }
    }
    if a.members_nodup() {
        assert forall|l: int, j1: int, j2: int|
            0 <= l < b.lists@.len() && 0 <= j1 < b.entries_of(l).len() && 0 <= j2 < b.entries_of(
                l,
            ).len() && #[trigger] b.entries_of(l)[j1] == #[trigger] b.entries_of(l)[j2] implies j1
            == j2 by {
            assert(b.entries_of(l)[j1] == a.entries_of(l)[j1]);
            assert(b.entries_of(l)[j2] == a.entries_of(l)[j2]);
        }
    }
    if a.ready_wf() && a.top_ready_priority <= b.top_ready_priority && b.top_ready_priority
        < MAX_PRIORITIES {
        assert forall|p: int, j: int|
            #![trigger b.entries_of(p)[j]]
            0 <= p < MAX_PRIORITIES && 0 <= j < b.entries_of(p).len() implies b.ready_entry_ok(
            p,
            j,
        ) by {
            assert(a.ready_entry_ok(p, j));
        }
        assert forall|p: int|
            b.top_ready_priority < p < MAX_PRIORITIES implies (#[trigger] b.entries_of(p)).len()
            == 0 by {
            assert(a.entries_of(p).len() == 0);
        }
    }
    assert forall|x: int| 0 <= x < a.lists@.len() && a.list_sorted(x) implies b.list_sorted(x) by {
        assert forall|j1: int, j2: int|
            0 <= j1 < j2 < b.entries_of(x).len() implies b.entry_value(
            #[trigger] b.entries_of(x)[j1],
        ) <= b.entry_value(#[trigger] b.entries_of(x)[j2]) by {
            assert(a.entry_value(a.entries_of(x)[j1]) <= a.entry_value(a.entries_of(x)[j2]));
        }
    }
    if a.delayed_wf() && a.delayed_list == b.delayed_list && a.overflow_delayed_list
        == b.overflow_delayed_list && a.next_task_unblock_time == b.next_task_unblock_time {
        let d = b.delayed_list as int;
        let o = b.overflow_delayed_list as int;
        assert forall|j: int|
            0 <= j < b.entries_of(d).len() implies (#[trigger] b.entries_of(d)[j]).is_state by {
            assert(a.entries_of(d)[j].is_state);
        }
        assert forall|j: int|
            0 <= j < b.entries_of(o).len() implies (#[trigger] b.entries_of(o)[j]).is_state by {
            assert(a.entries_of(o)[j].is_state);
        }
        if b.entries_of(d).len() > 0 {
            assert(b.entries_of(d)[0] == a.entries_of(d)[0]);
        }
    }
}

} // verus!
