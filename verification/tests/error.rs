use selectables::{RecvError, SendError, TryRecvError};

#[test]
fn recv_error_display() {
    assert_eq!(
        RecvError::Disconnected.message(),
        "receive on a disconnected channel"
    );
    assert_eq!(
        RecvError::Lagged { skipped: 3 }.message(),
        "receiver lagged and missed 3 messages"
    );
}

#[test]
fn try_recv_error_display() {
    assert_eq!(TryRecvError::Empty.message(), "channel is empty");
    assert_eq!(
        TryRecvError::Disconnected.message(),
        "receive on a disconnected channel"
    );
    assert_eq!(
        TryRecvError::Lagged { skipped: 5 }.message(),
        "receiver lagged and missed 5 messages"
    );
}

#[test]
fn send_error_display() {
    let err = SendError(42i32);
    assert_eq!(err.message(), "send on a disconnected channel: 42");
}

#[test]
fn numbers_are_written_in_full() {
    for skipped in [0usize, 9, 10, 99, 100, 1_234_567_890, usize::MAX] {
        assert_eq!(
            RecvError::Lagged { skipped }.message(),
            format!("receiver lagged and missed {} messages", skipped)
        );
    }
}

#[test]
fn send_error_message_shows_the_debug_text() {
    assert_eq!(
        SendError("a\"b").message(),
        "send on a disconnected channel: \"a\\\"b\""
    );
    assert_eq!(
        SendError(()).message_with("nothing"),
        "send on a disconnected channel: nothing"
    );
}
