use canvas_hub::geometry::Geometry;
use canvas_hub::holder::{new, CellWrite, DeliveryMode, Dispatch, DrawError, GridHolder, StorageError};
use canvas_hub::message::{DrawReq, Outbound};
use canvas_hub::registry::RegistryError;

fn hub(mode: DeliveryMode) -> GridHolder {
    new(Geometry::new(100, 100, 50).unwrap(), mode, 16, 8)
}

fn draw(x: usize, y: usize, color: u8) -> DrawReq {
    DrawReq { x, y, color }
}

#[test]
fn new_hub_has_the_quadrant_layout_and_no_one() {
    let h = hub(DeliveryMode::Direct);
    assert_eq!(h.quadrants().len(), 4);
    let ids: Vec<usize> = h.quadrants().iter().map(|q| q.id).collect();
    assert_eq!(ids, vec![0, 1, 2, 3]);
    assert!(h.connection_ids().is_empty());
    for q in 0..4 {
        assert!(h.subscribers_of(q).is_empty());
    }
}

#[test]
fn ids_increase_from_zero() {
    let mut h = hub(DeliveryMode::Direct);
    assert_eq!(h.add_client_at(5), Ok(0));
    assert_eq!(h.add_client_at(5), Ok(1));
    assert!(h.remove_client(1));
    assert_eq!(h.add_client_at(5), Ok(2));
    assert_eq!(h.connection_ids(), vec![0, 2]);
}

#[test]
fn first_message_is_the_configuration() {
    let mut h = hub(DeliveryMode::Direct);
    let a = h.add_client_at(0).unwrap();
    assert!(h.subscribe_to_quadrant(a, 3));
    assert_eq!(h.update_cell(&draw(70, 70, 4), Ok(())), Ok(Dispatch::Delivered));
    let b = h.add_client().unwrap();
    assert!(h.subscribe_to_quadrant(b, 3));
    assert_eq!(h.update_cell(&draw(71, 70, 5), Ok(())), Ok(Dispatch::Delivered));
    let first = h.take_messages(a).unwrap();
    assert_eq!(
        first,
        vec![
            Outbound::Configuration,
            Outbound::Update(draw(70, 70, 4)),
            Outbound::Update(draw(71, 70, 5)),
        ]
    );
    assert_eq!(
        h.take_messages(b).unwrap(),
        vec![Outbound::Configuration, Outbound::Update(draw(71, 70, 5))]
    );
    assert_eq!(h.take_messages(a).unwrap(), vec![]);
    assert_eq!(h.take_messages(99), None);
}

#[test]
fn draw_reaches_only_the_subscribers_of_its_quadrant() {
    let mut h = hub(DeliveryMode::Direct);
    let zero = h.add_client_at(0).unwrap();
    let three = h.add_client_at(0).unwrap();
    let idle = h.add_client_at(0).unwrap();
    assert!(h.subscribe_to_quadrant(zero, 0));
    assert!(h.subscribe_to_quadrant(three, 3));
    for id in [zero, three, idle] {
        h.take_messages(id).unwrap();
    }
    assert_eq!(h.update_cell(&draw(70, 70, 9), Ok(())), Ok(Dispatch::Delivered));
    assert_eq!(h.take_messages(zero).unwrap(), vec![]);
    assert_eq!(h.take_messages(three).unwrap(), vec![Outbound::Update(draw(70, 70, 9))]);
    assert_eq!(h.take_messages(idle).unwrap(), vec![]);
    assert_eq!(h.update_cell(&draw(10, 10, 1), Ok(())), Ok(Dispatch::Delivered));
    assert_eq!(h.take_messages(zero).unwrap(), vec![Outbound::Update(draw(10, 10, 1))]);
    assert_eq!(h.take_messages(three).unwrap(), vec![]);
}

#[test]
fn failed_write_delivers_nothing() {
    let mut h = hub(DeliveryMode::Direct);
    let a = h.add_client_at(0).unwrap();
    assert!(h.subscribe_to_quadrant(a, 3));
    h.take_messages(a).unwrap();
    assert_eq!(h.update_cell(&draw(70, 70, 9), Err(StorageError)), Err(DrawError::Storage));
    assert_eq!(h.take_messages(a).unwrap(), vec![]);
}

#[test]
fn invalid_draws_are_refused_before_the_store() {
    let mut h = hub(DeliveryMode::Direct);
    let a = h.add_client_at(0).unwrap();
    assert!(h.subscribe_to_quadrant(a, 0));
    h.take_messages(a).unwrap();
    assert_eq!(h.cell_write(&draw(100, 0, 1)), Err(DrawError::OutOfBounds));
    assert_eq!(h.cell_write(&draw(0, 0, 16)), Err(DrawError::InvalidColor));
    assert_eq!(h.cell_write(&draw(100, 0, 16)), Err(DrawError::OutOfBounds));
    assert_eq!(
        h.cell_write(&draw(70, 70, 3)),
        Ok(CellWrite { index: 7070, bit_offset: 28280, color: 3 })
    );
    assert_eq!(h.update_cell(&draw(0, 100, 1), Ok(())), Err(DrawError::OutOfBounds));
    assert_eq!(h.update_cell(&draw(0, 0, 200), Ok(())), Err(DrawError::InvalidColor));
    assert_eq!(h.take_messages(a).unwrap(), vec![]);
}

#[test]
fn broker_mode_hands_the_update_back() {
    let mut h = hub(DeliveryMode::Broker);
    let a = h.add_client_at(0).unwrap();
    assert!(h.subscribe_to_quadrant(a, 3));
    h.take_messages(a).unwrap();
    assert_eq!(h.update_cell(&draw(70, 70, 2), Ok(())), Ok(Dispatch::Publish(draw(70, 70, 2))));
    assert_eq!(h.update_cell(&draw(70, 70, 2), Err(StorageError)), Err(DrawError::Storage));
    assert_eq!(h.take_messages(a).unwrap(), vec![]);
}

#[test]
fn broadcast_reaches_every_connection() {
    let mut h = hub(DeliveryMode::Broker);
    let a = h.add_client_at(0).unwrap();
    let b = h.add_client_at(0).unwrap();
    h.take_messages(a).unwrap();
    h.broadcast_payload(b"{\"type\":\"update\"}".to_vec());
    assert_eq!(h.take_messages(a).unwrap(), vec![Outbound::Forward(b"{\"type\":\"update\"}".to_vec())]);
    assert_eq!(
        h.take_messages(b).unwrap(),
        vec![Outbound::Configuration, Outbound::Forward(b"{\"type\":\"update\"}".to_vec())]
    );
}

#[test]
fn removal_purges_every_subscription() {
    let mut h = hub(DeliveryMode::Direct);
    let a = h.add_client_at(0).unwrap();
    let b = h.add_client_at(0).unwrap();
    for q in 0..4 {
        assert!(h.subscribe_to_quadrant(a, q));
    }
    assert!(h.subscribe_to_quadrant(b, 2));
    assert!(h.remove_client(a));
    for q in 0..4 {
        assert!(!h.subscribers_of(q).contains(&a));
    }
    assert_eq!(h.subscribers_of(2), vec![b]);
    assert!(!h.is_connected(a));
    assert!(!h.remove_client(a));
    assert_eq!(h.connection_ids(), vec![b]);
}

#[test]
fn subscribe_needs_a_live_connection_and_a_quadrant() {
    let mut h = hub(DeliveryMode::Direct);
    let a = h.add_client_at(0).unwrap();
    assert!(!h.subscribe_to_quadrant(a, 4));
    assert!(!h.subscribe_to_quadrant(a + 1, 0));
    assert!(h.subscribe_to_quadrant(a, 1));
    assert!(h.subscribe_to_quadrant(a, 1));
    assert_eq!(h.subscribers_of(1), vec![a]);
    h.unsubscribe_from_quadrant(a, 0);
    h.unsubscribe_from_quadrant(a, 9);
    assert_eq!(h.subscribers_of(1), vec![a]);
    h.unsubscribe_from_quadrant(a, 1);
    assert!(h.subscribers_of(1).is_empty());
    assert!(h.subscribers_of(9).is_empty());
}

#[test]
fn sweep_removes_only_connections_idle_past_the_timeout() {
    let mut h = hub(DeliveryMode::Direct);
    let old = h.add_client_at(1_000).unwrap();
    let edge = h.add_client_at(2_000).unwrap();
    let fresh = h.add_client_at(2_500).unwrap();
    assert!(h.subscribe_to_quadrant(old, 0));
    assert!(h.subscribe_to_quadrant(edge, 0));
    // At 3 000 ms with a 1 000 ms timeout: 2 000 idle is over, exactly 1 000 is not.
    assert_eq!(h.clean_inactive_clients_at(3_000, 1_000), vec![old]);
    assert!(!h.is_connected(old));
    assert!(h.is_connected(edge));
    assert!(h.is_connected(fresh));
    assert_eq!(h.subscribers_of(0), vec![edge]);
    // One millisecond later the edge connection is over the line.
    assert_eq!(h.clean_inactive_clients_at(3_001, 1_000), vec![edge]);
    assert!(h.subscribers_of(0).is_empty());
    assert_eq!(h.connection_ids(), vec![fresh]);
}

#[test]
fn activity_keeps_a_connection_alive() {
    let mut h = hub(DeliveryMode::Direct);
    let a = h.add_client_at(0).unwrap();
    assert!(h.update_client_activity_at(a, 9_000));
    assert!(!h.update_client_activity_at(a + 7, 9_000));
    assert_eq!(h.clean_inactive_clients_at(10_000, 1_000), Vec::<usize>::new());
    assert!(h.is_connected(a));
    assert_eq!(h.clean_inactive_clients_at(10_001, 1_000), vec![a]);
}

#[test]
fn sweep_with_the_wall_clock() {
    let mut h = hub(DeliveryMode::Direct);
    let a = h.add_client().unwrap();
    assert!(h.update_client_activity(a));
    assert_eq!(h.clean_inactive_clients(60_000), Vec::<usize>::new());
    assert!(h.is_connected(a));
    let b = h.add_client_at(0).unwrap();
    assert_eq!(h.clean_inactive_clients(60_000), vec![b]);
}

#[test]
fn connection_limit_is_enforced() {
    let mut h = new(Geometry::new(100, 100, 50).unwrap(), DeliveryMode::Direct, 2, 8);
    assert_eq!(h.add_client_at(0), Ok(0));
    assert_eq!(h.add_client_at(0), Ok(1));
    assert_eq!(h.add_client_at(0), Err(RegistryError::ConnectionLimitReached));
    assert!(h.remove_client(0));
    assert_eq!(h.add_client_at(0), Ok(2));
}

#[test]
fn a_full_outbox_closes_the_connection() {
    let mut h = new(Geometry::new(100, 100, 50).unwrap(), DeliveryMode::Direct, 4, 2);
    let slow = h.add_client_at(0).unwrap();
    let quick = h.add_client_at(0).unwrap();
    assert!(h.subscribe_to_quadrant(slow, 0));
    assert!(h.subscribe_to_quadrant(quick, 0));
    assert_eq!(h.update_cell(&draw(1, 1, 1), Ok(())), Ok(Dispatch::Delivered));
    h.take_messages(quick).unwrap();
    // The slow connection still holds two messages: the next one closes it.
    assert_eq!(h.update_cell(&draw(2, 2, 2), Ok(())), Ok(Dispatch::Delivered));
    assert!(!h.is_connected(slow));
    assert_eq!(h.subscribers_of(0), vec![quick]);
    assert_eq!(h.take_messages(quick).unwrap(), vec![Outbound::Update(draw(2, 2, 2))]);
    assert_eq!(h.take_messages(slow), None);
}
