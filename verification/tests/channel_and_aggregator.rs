use sqs_drain::aggregator::{AggregationMode, Aggregator};
use sqs_drain::channel::{Channel, RecvError, SendError};

#[test]
fn channel_is_first_in_first_out() {
    let mut channel: Channel<&str> = Channel::new(3);
    assert_eq!(channel.capacity(), 3);
    assert_eq!(channel.senders(), 1);
    assert_eq!(channel.len(), 0);
    assert!(channel.try_send("a").is_ok());
    assert!(channel.try_send("b").is_ok());
    assert_eq!(channel.len(), 2);
    assert_eq!(channel.try_recv(), Ok("a"));
    assert!(channel.try_send("c").is_ok());
    assert_eq!(channel.try_recv(), Ok("b"));
    assert_eq!(channel.try_recv(), Ok("c"));
    assert_eq!(channel.try_recv(), Err(RecvError::Empty));
}

#[test]
fn channel_full_hands_the_message_back() {
    let mut channel: Channel<u8> = Channel::new(1);
    assert!(channel.try_send(1).is_ok());
    assert!(matches!(channel.try_send(2), Err(SendError::Full(2))));
    assert_eq!(channel.len(), 1);
    assert_eq!(channel.try_recv(), Ok(1));
    assert!(channel.try_send(2).is_ok());
}

#[test]
fn channel_closes_with_the_last_sender() {
    let mut channel: Channel<u8> = Channel::new(2);
    assert!(channel.add_sender());
    assert!(channel.add_sender());
    assert_eq!(channel.senders(), 3);
    assert!(channel.try_send(7).is_ok());
    assert!(!channel.drop_sender());
    assert!(!channel.drop_sender());
    assert!(!channel.is_closed());
    assert!(channel.drop_sender());
    assert!(channel.is_closed());
    assert_eq!(channel.senders(), 0);
    // closed for good
    assert!(!channel.add_sender());
    assert!(!channel.drop_sender());
    assert!(matches!(channel.try_send(8), Err(SendError::Closed(8))));
    // what was enqueued before is still handed out
    assert_eq!(channel.try_recv(), Ok(7));
    assert_eq!(channel.try_recv(), Err(RecvError::Closed));
}

#[test]
fn aggregator_materialises() {
    let mut aggregator: Aggregator<u32> = Aggregator::new(AggregationMode::Materialize);
    assert_eq!(aggregator.mode(), AggregationMode::Materialize);
    assert_eq!(aggregator.count(), 0);
    aggregator.collect(4);
    aggregator.collect(2);
    aggregator.collect(4);
    assert_eq!(aggregator.count(), 3);
    assert_eq!(aggregator.hand_over(), vec![4, 2, 4]);
    assert_eq!(aggregator.count(), 3);
    // the collection is handed over once
    assert_eq!(aggregator.hand_over(), Vec::<u32>::new());
    aggregator.collect(9);
    assert_eq!(aggregator.count(), 4);
    assert_eq!(aggregator.hand_over(), Vec::<u32>::new());
}

#[test]
fn aggregator_counts_only() {
    let mut aggregator: Aggregator<u32> = Aggregator::new(AggregationMode::CountOnly);
    aggregator.collect(4);
    aggregator.collect(2);
    assert_eq!(aggregator.count(), 2);
    assert_eq!(aggregator.hand_over(), Vec::<u32>::new());
    assert_eq!(aggregator.count(), 2);
}

#[test]
fn aggregator_hands_over_nothing_when_empty() {
    let mut aggregator: Aggregator<u32> = Aggregator::new(AggregationMode::Materialize);
    assert_eq!(aggregator.hand_over(), Vec::<u32>::new());
    assert_eq!(aggregator.count(), 0);
}
