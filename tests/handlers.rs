use canvas_hub::geometry::Geometry;
use canvas_hub::handlers::{Action, GridKafkaMessageHandler, GridWebSocketHandler, HandlerError};
use canvas_hub::holder::{new, CellWrite, DeliveryMode, DrawError};
use canvas_hub::message::{ClientMessage, DrawReq, Outbound};

#[test]
fn client_messages_drive_the_hub() {
    let mut h = new(Geometry::new(100, 100, 50).unwrap(), DeliveryMode::Direct, 8, 8);
    let handler = GridWebSocketHandler::new();
    let a = h.add_client_at(0).unwrap();
    assert_eq!(
        handler.handle_message(&mut h, a, ClientMessage::Subscribe { quadrant_id: 2 }),
        Action::Done
    );
    assert_eq!(h.subscribers_of(2), vec![a]);
    let req = DrawReq { x: 10, y: 60, color: 7 };
    assert_eq!(
        handler.handle_message(&mut h, a, ClientMessage::Draw(req)),
        Action::Persist(req, CellWrite { index: 6010, bit_offset: 24040, color: 7 })
    );
    assert_eq!(
        handler.handle_message(&mut h, a, ClientMessage::Draw(DrawReq { x: 10, y: 60, color: 99 })),
        Action::Reject(DrawError::InvalidColor)
    );
    assert_eq!(handler.handle_message(&mut h, a, ClientMessage::Activity), Action::Done);
    assert_eq!(h.clean_inactive_clients_at(1_000, 10_000), Vec::<usize>::new());
    assert_eq!(
        handler.handle_message(&mut h, a, ClientMessage::Unsubscribe { quadrant_id: 2 }),
        Action::Done
    );
    assert!(h.subscribers_of(2).is_empty());
    handler.on_disconnect(&mut h, a);
    assert!(!h.is_connected(a));
}

#[test]
fn broker_messages_are_forwarded_to_everyone() {
    let mut h = new(Geometry::new(100, 100, 50).unwrap(), DeliveryMode::Broker, 8, 8);
    let handler = GridKafkaMessageHandler::new();
    let a = h.add_client_at(0).unwrap();
    let b = h.add_client_at(0).unwrap();
    assert_eq!(handler.handle_message(&mut h, Some(b"payload".to_vec())), Ok(()));
    assert_eq!(handler.handle_message(&mut h, None), Err(HandlerError::MissingPayload));
    for id in [a, b] {
        assert_eq!(
            h.take_messages(id).unwrap(),
            vec![Outbound::Configuration, Outbound::Forward(b"payload".to_vec())]
        );
    }
}
