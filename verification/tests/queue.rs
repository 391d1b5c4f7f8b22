use ws_rpc::queue::{Channel, TrySendError, CHANNEL_CAPACITY};

#[test]
fn channel_capacity_is_two() {
    assert_eq!(CHANNEL_CAPACITY, 2);
}

#[test]
fn new_channel_is_empty_and_open() {
    let mut ch = Channel::new();
    assert_eq!(ch.len(), 0);
    assert!(ch.is_empty());
    assert!(!ch.is_full());
    assert!(!ch.is_closed());
    assert_eq!(ch.try_recv(), None);
}

#[test]
fn channel_is_first_in_first_out() {
    let mut ch = Channel::new();
    assert!(ch.try_send(vec![1]).is_ok());
    assert!(ch.try_send(vec![2]).is_ok());
    assert_eq!(ch.try_recv(), Some(vec![1]));
    assert!(ch.try_send(vec![3]).is_ok());
    assert_eq!(ch.try_recv(), Some(vec![2]));
    assert_eq!(ch.try_recv(), Some(vec![3]));
    assert_eq!(ch.try_recv(), None);
}

#[test]
fn third_send_waits_until_a_drain() {
    let mut ch = Channel::new();
    assert!(ch.try_send(vec![1]).is_ok());
    assert!(ch.try_send(vec![2]).is_ok());
    assert!(ch.is_full());
    let third = match ch.try_send(vec![3]) {
        Err(TrySendError::Full(frame)) => frame,
        other => panic!("the third send was not held back: {:?}", other),
    };
    assert_eq!(third, vec![3]);
    assert_eq!(ch.len(), 2);
    // still held back, as often as it is tried
    let third = match ch.try_send(third) {
        Err(TrySendError::Full(frame)) => frame,
        other => panic!("the third send was not held back: {:?}", other),
    };
    assert_eq!(ch.try_recv(), Some(vec![1]));
    assert_eq!(ch.len(), 1);
    assert!(ch.try_send(third).is_ok());
    assert_eq!(ch.len(), 2);
    assert!(ch.len() <= CHANNEL_CAPACITY);
    assert_eq!(ch.try_recv(), Some(vec![2]));
    assert_eq!(ch.try_recv(), Some(vec![3]));
}

#[test]
fn closed_channel_refuses_and_can_be_drained() {
    let mut ch = Channel::new();
    assert!(ch.try_send(vec![1]).is_ok());
    ch.close();
    assert!(ch.is_closed());
    assert!(matches!(ch.try_send(vec![2]), Err(TrySendError::Closed(f)) if f == vec![2]));
    assert_eq!(ch.len(), 1);
    assert_eq!(ch.try_recv(), Some(vec![1]));
    assert_eq!(ch.try_recv(), None);
    assert!(matches!(ch.try_send(vec![3]), Err(TrySendError::Closed(_))));
}

#[test]
fn closed_wins_over_full() {
    let mut ch = Channel::new();
    assert!(ch.try_send(vec![1]).is_ok());
    assert!(ch.try_send(vec![2]).is_ok());
    ch.close();
    assert!(matches!(ch.try_send(vec![3]), Err(TrySendError::Closed(_))));
}
