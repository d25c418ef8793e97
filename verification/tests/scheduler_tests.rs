use rust_freertos::kernel::{task_start_scheduler, task_switch_context, task_increment_tick};
use rust_freertos::queue::{QueueDefinition, QueueError, QueueType, queueOVERWRITE, queueSEND_TO_BACK};
use rust_freertos::task_control::task_control_block;
use rust_freertos::task_global::Kernel;
use rust_freertos::semaphore::Semaphore;

fn started_kernel() -> Kernel {
    let mut k = Kernel::new();
    task_start_scheduler(&mut k).unwrap();
    k
}

#[test]
fn first_dispatch_prefers_higher_priority() {
    // two tasks at priority 3 and 4: the first switch runs the priority-4 one
    let mut k = Kernel::new();
    let _t3 = task_control_block::new().name("Task3").priority(3).initialise(&mut k).unwrap();
    let t4 = task_control_block::new().name("Task4").priority(4).initialise(&mut k).unwrap();
    task_start_scheduler(&mut k).unwrap();
    task_switch_context(&mut k);
    assert_eq!(k.current_task, Some(t4.0));
}

#[test]
fn equal_priority_tasks_rotate_in_creation_order() {
    let mut k = Kernel::new();
    let t0 = task_control_block::new().name("A").priority(3).initialise(&mut k).unwrap();
    let t1 = task_control_block::new().name("B").priority(3).initialise(&mut k).unwrap();
    let t2 = task_control_block::new().name("C").priority(3).initialise(&mut k).unwrap();
    task_start_scheduler(&mut k).unwrap();
    let mut seen = Vec::new();
    for _i in 0..6 {
        task_switch_context(&mut k);
        seen.push(k.current_task.unwrap());
    }
    assert_eq!(seen, vec![t0.0, t1.0, t2.0, t0.0, t1.0, t2.0]);
}

#[test]
fn receive_on_empty_queue_with_zero_wait_is_immediate() {
    let mut k = started_kernel();
    let mut q: QueueDefinition<u32> = QueueDefinition::new(&mut k, 5, QueueType::Base);
    let before = k.tick_count;
    let r = q.queue_generic_receive(&mut k, 0, false);
    assert_eq!(r, Err(QueueError::QueueEmpty));
    assert_eq!(k.tick_count, before);
}

#[test]
fn send_on_full_queue_times_out_after_exactly_the_budget() {
    let mut k = started_kernel();
    let mut q: QueueDefinition<u32> = QueueDefinition::new(&mut k, 2, QueueType::Base);
    assert!(q.queue_generic_send(&mut k, 1, 0, queueSEND_TO_BACK).is_ok());
    assert!(q.queue_generic_send(&mut k, 2, 0, queueSEND_TO_BACK).is_ok());
    let before = k.tick_count;
    let r = q.queue_generic_send(&mut k, 3, 5, queueSEND_TO_BACK);
    assert_eq!(r, Err(QueueError::QueueFull));
    assert_eq!(k.tick_count, before + 5);
}

#[test]
fn overwrite_keeps_exactly_the_latest_value() {
    let mut k = started_kernel();
    let mut q: QueueDefinition<u32> = QueueDefinition::new(&mut k, 1, QueueType::Base);
    for v in 10..20 {
        assert!(q.queue_generic_send(&mut k, v, 0, queueOVERWRITE).is_ok());
        assert_eq!(q.uxMessagesWaiting, 1);
    }
    let r = q.queue_generic_receive(&mut k, 0, false);
    assert_eq!(r, Ok(19));
}

#[test]
fn queue_occupancy_stays_within_capacity() {
    let mut k = started_kernel();
    let mut q: QueueDefinition<u32> = QueueDefinition::new(&mut k, 3, QueueType::Base);
    for v in 0..10 {
        let _ = q.queue_generic_send(&mut k, v, 0, queueSEND_TO_BACK);
        assert!(q.uxMessagesWaiting <= 3);
    }
    for _i in 0..10 {
        let _ = q.queue_generic_receive(&mut k, 0, false);
        assert!(q.uxMessagesWaiting <= 3);
    }
}

#[test]
fn sender_and_receiver_pass_all_values_in_order() {
    // a driver plays sender and receiver in turn: ten values cross a
    // capacity-five queue in order; a final receive times out
    let mut k = started_kernel();
    let mut q: QueueDefinition<u32> = QueueDefinition::new(&mut k, 5, QueueType::Base);
    let mut sum: u32 = 0;
    let mut received = Vec::new();
    for batch in [1u32, 6].iter() {
        for v in *batch..(*batch + 5) {
            assert!(q.queue_generic_send(&mut k, v, 5, queueSEND_TO_BACK).is_ok());
        }
        for _i in 0..5 {
            let v = q.queue_generic_receive(&mut k, 1000, false).unwrap();
            received.push(v);
            sum += v;
        }
    }
    assert_eq!(received, (1..=10).collect::<Vec<u32>>());
    assert_eq!(sum, 55);
    let r = q.queue_generic_receive(&mut k, 1000, false);
    assert_eq!(r, Err(QueueError::QueueEmpty));
}

#[test]
fn tick_wakes_delayed_task_and_requests_switch() {
    let mut k = started_kernel();
    let _hi = task_control_block::new().name("Hi").priority(5).initialise(&mut k).unwrap();
    task_switch_context(&mut k);
    // park the running task for three ticks
    rust_freertos::task_control::add_current_task_to_delayed_list(&mut k, 3, false);
    assert!(!task_increment_tick(&mut k));
    assert!(!task_increment_tick(&mut k));
    assert!(task_increment_tick(&mut k));
}

#[test]
fn delayed_task_parks_and_wakes_with_the_tick() {
    let mut k = started_kernel();
    let t = rust_freertos::task_control::task_control_block::new()
        .name("Sleeper")
        .priority(2)
        .initialise(&mut k)
        .unwrap();
    task_switch_context(&mut k);
    assert_eq!(k.current_task, Some(t.0));
    rust_freertos::task_timemanager::task_delay(&mut k, 3);
    // parked on the delayed list, keyed three ticks ahead
    assert_eq!(
        k.tasks[t.0].state_list_item.container,
        Some(k.delayed_list)
    );
    assert!(!task_increment_tick(&mut k));
    assert!(!task_increment_tick(&mut k));
    assert!(task_increment_tick(&mut k));
    // back in its ready list
    assert_eq!(k.tasks[t.0].state_list_item.container, Some(2));
}

#[test]
fn priority_set_requeues_and_clamps() {
    let mut k = started_kernel();
    let t = rust_freertos::task_control::task_control_block::new()
        .name("Worker")
        .priority(2)
        .initialise(&mut k)
        .unwrap();
    rust_freertos::task_control::task_priority_set(&mut k, Some(t), 99);
    assert_eq!(k.tasks[t.0].task_priority, 9);
    assert_eq!(k.tasks[t.0].base_priority, 9);
    assert_eq!(k.tasks[t.0].state_list_item.container, Some(9));
}

#[test]
fn suspend_and_resume_round_trip() {
    let mut k = started_kernel();
    let t = rust_freertos::task_control::task_control_block::new()
        .name("Naps")
        .priority(4)
        .initialise(&mut k)
        .unwrap();
    task_switch_context(&mut k);
    rust_freertos::task_control::suspend_task(&mut k, t);
    assert!(rust_freertos::task_control::task_is_tasksuspended(&k, &t));
    // switch away so the suspended task is no longer current
    task_switch_context(&mut k);
    rust_freertos::task_control::resume_task(&mut k, t);
    assert!(!rust_freertos::task_control::task_is_tasksuspended(&k, &t));
    assert_eq!(k.tasks[t.0].state_list_item.container, Some(4));
}

#[test]
fn deleting_self_parks_on_termination_and_idle_reaps() {
    let mut k = started_kernel();
    let t = rust_freertos::task_control::task_control_block::new()
        .name("Doomed")
        .priority(5)
        .initialise(&mut k)
        .unwrap();
    task_switch_context(&mut k);
    assert_eq!(k.current_task, Some(t.0));
    rust_freertos::task_control::task_delete(&mut k, None);
    assert_eq!(
        k.tasks[t.0].state_list_item.container,
        Some(rust_freertos::task_global::TASKS_WAITING_TERMINATION)
    );
    assert_eq!(k.deleted_tasks_waiting_clean_up, 1);
    rust_freertos::kernel::check_tasks_waiting_termination(&mut k);
    assert_eq!(k.deleted_tasks_waiting_clean_up, 0);
    assert_eq!(k.tasks[t.0].state_list_item.container, None);
}

#[test]
fn counting_semaphore_counts_to_capacity() {
    let mut k = started_kernel();
    let mut s = Semaphore::create_counting(&mut k, 3);
    assert!(s.semaphore_down(&mut k, 0).is_ok());
    assert!(s.semaphore_down(&mut k, 0).is_ok());
    assert!(s.semaphore_down(&mut k, 0).is_ok());
    assert!(s.semaphore_down(&mut k, 0).is_err());
    assert!(s.semaphore_up(&mut k).is_ok());
    assert!(s.semaphore_down(&mut k, 0).is_ok());
}

#[test]
fn recursive_mutex_counts_nested_takes() {
    let mut k = started_kernel();
    let mut m = Semaphore::create_recursive_mutex(&mut k);
    for i in 1..11u64 {
        assert!(m.down_recursive(&mut k, 0));
        assert_eq!(m.get_recursive_count(), i);
    }
    for j in 1..11u64 {
        assert!(m.up_recursive(&mut k));
        assert_eq!(m.get_recursive_count(), 10 - j);
    }
    assert!(m.get_mutex_holder().is_none());
}

#[test]
fn contended_mutex_raises_and_restores_holder_priority() {
    let mut k = started_kernel();
    let low = rust_freertos::task_control::task_control_block::new()
        .name("Low")
        .priority(2)
        .initialise(&mut k)
        .unwrap();
    let high = rust_freertos::task_control::task_control_block::new()
        .name("High")
        .priority(7)
        .initialise(&mut k)
        .unwrap();
    let mut m = Semaphore::new_mutex(&mut k);
    // the low task takes the mutex
    task_switch_context(&mut k);
    assert_eq!(k.current_task, Some(high.0));
    // act as the low task: make it current by suspending the high one
    rust_freertos::task_control::suspend_task(&mut k, high);
    task_switch_context(&mut k);
    assert_eq!(k.current_task, Some(low.0));
    assert!(m.semaphore_down(&mut k, 0).is_ok());
    assert_eq!(m.get_mutex_holder(), Some(low));
    // back as the high task: contention boosts the holder
    rust_freertos::task_control::resume_task(&mut k, high);
    task_switch_context(&mut k);
    assert_eq!(k.current_task, Some(high.0));
    assert!(m.semaphore_down(&mut k, 0).is_err());
    assert_eq!(k.tasks[low.0].task_priority, 7);
    assert_eq!(k.tasks[low.0].base_priority, 2);
    // the holder releases: disinheritance restores the base priority
    rust_freertos::task_control::suspend_task(&mut k, high);
    task_switch_context(&mut k);
    assert_eq!(k.current_task, Some(low.0));
    assert!(m.semaphore_up(&mut k).is_ok());
    assert_eq!(k.tasks[low.0].task_priority, 2);
    assert_eq!(k.tasks[low.0].base_priority, 2);
}
