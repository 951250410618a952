use route_rs_runtime::queue::{is_in_valid_range, BoundedQueue};
use route_rs_runtime::queue_egressor::QueueEgressor;
use route_rs_runtime::stream::Pull;
use route_rs_runtime::task_park::{
    die_and_notify, park_and_notify, unpark_and_notify, TaskPark, TaskParkState,
};

#[test]
fn parking_in_an_empty_park_waits() {
    let mut park = TaskPark::new();
    assert_eq!(park.state(), TaskParkState::Empty);
    assert_eq!(park_and_notify(&mut park, 7), None);
    assert_eq!(park.state(), TaskParkState::Parked(7));
}

#[test]
fn parking_replaces_and_notifies_the_parked_peer() {
    let mut park = TaskPark::new();
    park_and_notify(&mut park, 7);
    assert_eq!(park_and_notify(&mut park, 8), Some(7));
    assert_eq!(park.state(), TaskParkState::Parked(8));
    assert_eq!(park_and_notify(&mut park, 8), None);
    assert_eq!(park.state(), TaskParkState::Parked(8));
}

#[test]
fn wakeup_notifies_the_parked_task_once() {
    let mut park = TaskPark::new();
    park_and_notify(&mut park, 7);
    assert_eq!(unpark_and_notify(&mut park), Some(7));
    assert_eq!(park.state(), TaskParkState::Empty);
}

#[test]
fn early_wakeup_makes_the_next_parker_notify_itself() {
    let mut park = TaskPark::new();
    assert_eq!(unpark_and_notify(&mut park), None);
    assert_eq!(park.state(), TaskParkState::IndirectNotify);
    assert_eq!(unpark_and_notify(&mut park), None);
    assert_eq!(park.state(), TaskParkState::IndirectNotify);
    assert_eq!(park_and_notify(&mut park, 3), Some(3));
    assert_eq!(park.state(), TaskParkState::Empty);
    assert_eq!(park_and_notify(&mut park, 3), None);
    assert_eq!(park.state(), TaskParkState::Parked(3));
}

#[test]
fn death_releases_the_parked_task_and_is_terminal() {
    let mut park = TaskPark::new();
    park_and_notify(&mut park, 7);
    assert_eq!(die_and_notify(&mut park), Some(7));
    assert!(park.is_dead());
    assert_eq!(park_and_notify(&mut park, 9), Some(9));
    assert_eq!(park.state(), TaskParkState::Dead);
    assert_eq!(unpark_and_notify(&mut park), None);
    assert_eq!(park.state(), TaskParkState::Dead);
    assert_eq!(die_and_notify(&mut park), None);
    assert_eq!(park.state(), TaskParkState::Dead);
}

#[test]
fn valid_range_is_one_to_a_thousand() {
    assert!(!is_in_valid_range(0));
    assert!(is_in_valid_range(1));
    assert!(is_in_valid_range(10));
    assert!(is_in_valid_range(1000));
    assert!(!is_in_valid_range(1001));
}

#[test]
fn bounded_queue_is_first_in_first_out_and_hands_back_when_full() {
    let mut queue = BoundedQueue::new(2);
    assert!(queue.is_empty());
    assert_eq!(queue.try_recv(), None);
    assert_eq!(queue.try_send(1), Ok(()));
    assert!(!queue.is_full());
    assert_eq!(queue.try_send(2), Ok(()));
    assert!(queue.is_full());
    assert_eq!(queue.try_send(3), Err(3));
    assert_eq!(queue.len(), 2);
    assert_eq!(queue.try_recv(), Some(1));
    assert_eq!(queue.try_send(3), Ok(()));
    assert_eq!(queue.try_recv(), Some(2));
    assert_eq!(queue.try_recv(), Some(3));
    assert_eq!(queue.try_recv(), None);
    queue.send(4);
    assert_eq!(queue.try_recv(), Some(4));
}

#[test]
fn queue_egressor_follows_its_state_table() {
    let mut port = QueueEgressor::new(1);

    // Idle, queue empty, producer live: the consumer parks.
    assert_eq!(port.pull(1), (Pull::NotReady, None));
    // The producer sends: the parked consumer is woken.
    assert_eq!(port.send(5), Some(1));
    assert!(port.is_full());
    // The producer parks on the full queue.
    assert_eq!(port.park_producer(0), None);
    // Idle, queue non-empty: the packet is handed out and the producer woken.
    assert_eq!(port.pull(1), (Pull::Item(5), Some(0)));
    assert_eq!(port.len(), 0);
    // The producer dies while the consumer is parked.
    assert_eq!(port.pull(1), (Pull::NotReady, None));
    assert_eq!(port.close(), Some(1));
    assert!(port.is_dead());
    // Idle, queue empty, producer dead: the end.
    assert_eq!(port.pull(1), (Pull::End, None));
}

#[test]
fn queue_egressor_hands_out_what_is_queued_before_it_reports_the_end() {
    let mut port = QueueEgressor::new(3);
    port.send(1);
    port.send(2);
    port.close();
    assert_eq!(port.pull(1).0, Pull::Item(1));
    assert_eq!(port.pull(1).0, Pull::Item(2));
    assert_eq!(port.pull(1).0, Pull::End);
}
