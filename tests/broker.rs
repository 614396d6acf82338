use haesli::error::{ChannelException, ConException, ProtocolError};
use haesli::queue::{Broker, Message, PublishOutcome, QueueDeclare};

fn declare_args(name: &str, exclusive: bool, auto_delete: bool) -> QueueDeclare {
    QueueDeclare {
        queue: name.to_owned(),
        passive: false,
        durable: false,
        exclusive,
        auto_delete,
        no_wait: false,
    }
}

fn message(key: &str, body: &[u8]) -> Message {
    Message { exchange: String::new(), routing_key: key.to_owned(), body: body.to_vec() }
}

#[test]
fn declare_then_publish_then_get() {
    let mut broker = Broker::new();
    let ok = broker.declare(1, declare_args("hello", false, false)).unwrap();
    assert_eq!((ok.queue.as_str(), ok.message_count, ok.consumer_count), ("hello", 0, 0));
    let outcome = broker
        .publish(&String::new(), &"hello".to_owned(), false, false, message("hello", b"world"))
        .unwrap();
    assert_eq!(outcome, PublishOutcome::Routed);
    let got = broker.get(1, &"hello".to_owned()).unwrap().unwrap();
    assert_eq!(got.body, b"world".to_vec());
    assert!(broker.get(1, &"hello".to_owned()).unwrap().is_none());
}

#[test]
fn redeclare_with_same_flags_returns_counts() {
    let mut broker = Broker::new();
    broker.declare(1, declare_args("q", false, false)).unwrap();
    broker.publish(&String::new(), &"q".to_owned(), false, false, message("q", b"a")).unwrap();
    let ok = broker.declare(1, declare_args("q", false, false)).unwrap();
    assert_eq!((ok.message_count, ok.consumer_count), (1, 0));
    assert_eq!(broker.queues.len(), 1);
}

#[test]
fn redeclare_with_other_flags_is_a_precondition_failure() {
    let mut broker = Broker::new();
    broker.declare(1, declare_args("q", false, false)).unwrap();
    let err = broker.declare(1, declare_args("q", false, true)).err().unwrap();
    assert_eq!(err, ProtocolError::ChannelException(ChannelException::PreconditionFailed));
    assert_eq!(ChannelException::PreconditionFailed.code(), 406);
}

#[test]
fn exclusive_conflict_is_resource_locked() {
    let mut broker = Broker::new();
    broker.declare(1, declare_args("x", true, false)).unwrap();
    let err = broker.declare(2, declare_args("x", true, false)).err().unwrap();
    assert_eq!(err, ProtocolError::ChannelException(ChannelException::ResourceLocked));
    assert_eq!(ChannelException::ResourceLocked.code(), 405);
}

#[test]
fn closing_the_owner_deletes_an_exclusive_queue() {
    let mut broker = Broker::new();
    broker.declare(1, declare_args("x", true, false)).unwrap();
    broker.declare(2, declare_args("keep", false, false)).unwrap();
    broker.close_channel(1);
    let mut passive = declare_args("x", false, false);
    passive.passive = true;
    let err = broker.declare(2, passive).err().unwrap();
    assert_eq!(err, ProtocolError::ChannelException(ChannelException::NotFound));
    assert!(broker.position(&"keep".to_owned()).is_some());
}

#[test]
fn auto_delete_queue_goes_with_its_last_consumer() {
    let mut broker = Broker::new();
    broker.declare(1, declare_args("auto", false, true)).unwrap();
    let q = "auto".to_owned();
    broker.consume(1, &q, "a".to_owned(), false, false).unwrap();
    broker.consume(1, &q, "b".to_owned(), false, false).unwrap();
    assert!(broker.cancel(1, &"a".to_owned()));
    assert!(broker.position(&q).is_some());
    assert!(broker.cancel(1, &"b".to_owned()));
    assert!(broker.position(&q).is_none());
    assert!(!broker.cancel(1, &"b".to_owned()));
}

#[test]
fn round_robin_between_two_consumers() {
    let mut broker = Broker::new();
    broker.declare(1, declare_args("rr", false, false)).unwrap();
    let q = "rr".to_owned();
    broker.consume(1, &q, "a".to_owned(), true, false).unwrap();
    broker.consume(1, &q, "b".to_owned(), true, false).unwrap();
    for i in 0..5u8 {
        broker.publish(&String::new(), &q, false, false, message("rr", &[i])).unwrap();
    }
    let mut tags = Vec::new();
    while let Some((tag, _, m)) = broker.deliver(&q) {
        tags.push((tag, m.body[0]));
    }
    let expected: Vec<(String, u8)> = vec![
        ("a".to_owned(), 0),
        ("b".to_owned(), 1),
        ("a".to_owned(), 2),
        ("b".to_owned(), 3),
        ("a".to_owned(), 4),
    ];
    assert_eq!(tags, expected);
}

#[test]
fn exclusive_consumer_must_be_alone() {
    let mut broker = Broker::new();
    broker.declare(1, declare_args("q", false, false)).unwrap();
    let q = "q".to_owned();
    broker.consume(1, &q, "a".to_owned(), false, false).unwrap();
    let err = broker.consume(2, &q, "b".to_owned(), false, true).err().unwrap();
    assert_eq!(err, ProtocolError::ChannelException(ChannelException::AccessRefused));
    let tag = broker.consume(2, &q, String::new(), false, false).unwrap();
    assert!(tag.starts_with("amq.ctag-"));
}

#[test]
fn unroutable_messages_are_returned_or_dropped() {
    let mut broker = Broker::new();
    let key = "nowhere".to_owned();
    let e = String::new();
    assert_eq!(broker.publish(&e, &key, true, false, message("nowhere", b"")), Ok(PublishOutcome::Returned));
    assert_eq!(broker.publish(&e, &key, false, false, message("nowhere", b"")), Ok(PublishOutcome::Dropped));
    assert_eq!(
        broker.publish(&e, &key, false, true, message("nowhere", b"")),
        Err(ProtocolError::ConException(ConException::NotImplemented))
    );
}

#[test]
fn unnamed_queue_gets_a_generated_name() {
    let mut broker = Broker::new();
    let ok = broker.declare(1, declare_args("", false, false)).unwrap();
    assert!(ok.queue.starts_with("amq.gen-"));
    let other = broker.declare(1, declare_args("", false, false)).unwrap();
    assert_ne!(ok.queue, other.queue);
}

#[test]
fn consumer_tags_are_unique_within_a_channel() {
    let mut broker = Broker::new();
    broker.declare(1, declare_args("q", false, false)).unwrap();
    broker.declare(1, declare_args("r", false, false)).unwrap();
    broker.consume(1, &"q".to_owned(), "t".to_owned(), false, false).unwrap();
    let err = broker.consume(1, &"r".to_owned(), "t".to_owned(), false, false).err().unwrap();
    assert_eq!(err, ProtocolError::ConException(ConException::NotAllowed));
    assert_eq!(broker.consume(2, &"r".to_owned(), "t".to_owned(), false, false), Ok("t".to_owned()));
}

#[test]
fn only_the_default_binding_exists() {
    let mut broker = Broker::new();
    broker.declare(1, declare_args("q", false, false)).unwrap();
    let q = "q".to_owned();
    assert_eq!(broker.bind(&q, &String::new(), &q), Ok(()));
    assert_eq!(
        broker.bind(&q, &"amq.direct".to_owned(), &q),
        Err(ProtocolError::ConException(ConException::NotImplemented))
    );
    assert_eq!(
        broker.bind(&"none".to_owned(), &String::new(), &q),
        Err(ProtocolError::ChannelException(ChannelException::NotFound))
    );
}

#[test]
fn closing_a_channel_keeps_other_consumers_and_messages() {
    let mut broker = Broker::new();
    broker.declare(1, declare_args("q", false, false)).unwrap();
    let q = "q".to_owned();
    broker.consume(1, &q, "mine".to_owned(), false, false).unwrap();
    broker.consume(2, &q, "theirs".to_owned(), false, false).unwrap();
    broker.publish(&String::new(), &q, false, false, message("q", b"m")).unwrap();
    broker.close_channel(1);
    let queue = &broker.queues[0];
    assert_eq!(queue.consumers.len(), 1);
    assert_eq!(queue.consumers[0].tag, "theirs");
    assert_eq!(queue.messages.len(), 1);
    assert!(!broker.cancel(1, &"mine".to_owned()));
    assert!(broker.deliver(&"absent".to_owned()).is_none());
}
