use au::channel::Channel;
use au::error::AuError;

#[test]
fn channel_fifo_order() {
    let mut c: Channel<u32> = Channel::new(4);
    assert_eq!(c.len(), 0);
    assert_eq!(c.capacity(), 4);
    assert!(c.send(10).is_ok());
    assert!(c.send(20).is_ok());
    assert!(c.send(30).is_ok());
    assert_eq!(c.len(), 3);
    c.close();
    assert_eq!(c.recv(), Some(10));
    assert_eq!(c.recv(), Some(20));
    assert_eq!(c.recv(), Some(30));
    assert_eq!(c.recv(), None);
    assert_eq!(c.recv(), None);
}

#[test]
fn channel_send_after_close_fails() {
    let mut c: Channel<u8> = Channel::new(2);
    assert!(c.send(1).is_ok());
    c.close();
    assert_eq!(c.send(2), Err(AuError::ChannelClosed));
    assert_eq!(c.recv(), Some(1));
    assert_eq!(c.recv(), None);
}

#[test]
fn channel_never_holds_more_than_capacity() {
    // Backpressure at the boundary the sequential model can show: a
    // producer that waits for space keeps the queue within its bound.
    let mut c: Channel<u64> = Channel::new(3);
    let mut received = 0u64;
    for i in 0..10u64 {
        if c.len() == c.capacity() {
            // The producer would block here; the consumer catches up.
            assert_eq!(c.recv(), Some(received));
            received += 1;
        }
        assert!(c.send(i).is_ok());
        assert!(c.len() <= c.capacity());
    }
    c.close();
    while let Some(v) = c.recv() {
        assert_eq!(v, received);
        received += 1;
    }
    assert_eq!(received, 10);
}

#[test]
fn channel_recv_empty_closed_is_end_of_stream() {
    let mut c: Channel<u8> = Channel::new(1);
    c.close();
    assert_eq!(c.recv(), None);
}
