use haesli::error::ChannelException;
use haesli::queue::{Broker, Deliveries, Message, QueueDeclare};

fn message(body: &[u8]) -> Message {
    Message { exchange: String::new(), routing_key: "q".to_owned(), body: body.to_vec() }
}

fn pending_tags(d: &Deliveries) -> Vec<u64> {
    d.unacked.iter().map(|(t, _, _)| *t).collect()
}

#[test]
fn delivery_tags_grow_by_one() {
    let mut d = Deliveries::new();
    assert_eq!(d.record("q".to_owned(), message(b"a"), false), Some(1));
    assert_eq!(d.record("q".to_owned(), message(b"b"), true), Some(2));
    assert_eq!(d.record("q".to_owned(), message(b"c"), false), Some(3));
    assert_eq!(pending_tags(&d), vec![1, 3]);
}

#[test]
fn ack_settles_one_or_all_up_to_the_tag() {
    let mut d = Deliveries::new();
    for body in [b"a", b"b", b"c", b"d"] {
        d.record("q".to_owned(), message(body), false);
    }
    assert_eq!(d.ack(2, false), Ok(()));
    assert_eq!(pending_tags(&d), vec![1, 3, 4]);
    assert_eq!(d.ack(3, true), Ok(()));
    assert_eq!(pending_tags(&d), vec![4]);
}

#[test]
fn ack_of_unknown_tag_is_a_precondition_failure() {
    let mut d = Deliveries::new();
    d.record("q".to_owned(), message(b"a"), false);
    assert_eq!(d.ack(9, false), Err(ChannelException::PreconditionFailed));
    assert_eq!(d.ack(1, false), Ok(()));
    assert_eq!(d.ack(1, false), Err(ChannelException::PreconditionFailed));
}

#[test]
fn unacked_messages_go_back_to_the_head_in_order() {
    let mut broker = Broker::new();
    let args = QueueDeclare {
        queue: "q".to_owned(),
        passive: false,
        durable: false,
        exclusive: false,
        auto_delete: false,
        no_wait: false,
    };
    broker.declare(1, args).unwrap();
    let q = "q".to_owned();
    for body in [b"a", b"b", b"c"] {
        broker.publish(&String::new(), &q, false, false, message(body)).unwrap();
    }
    let mut d = Deliveries::new();
    for _ in 0..2 {
        let m = broker.get(1, &q).unwrap().unwrap();
        d.record("q".to_owned(), m, false);
    }
    d.record("gone".to_owned(), message(b"x"), false);
    broker.requeue(d);
    let bodies: Vec<Vec<u8>> = broker.queues[0].messages.iter().map(|m| m.body.clone()).collect();
    assert_eq!(bodies, vec![b"a".to_vec(), b"b".to_vec(), b"c".to_vec()]);
}
