use std::cell::Cell;
use std::rc::Rc;

use selectables::bounded_mpsc::{after, channel, never, Chan, Receiver, Sender};
use selectables::ports::Step;
use selectables::select::{Select, SelectStep};
use selectables::waiter::{Board, UNSELECTED};
use selectables::{
    ArmOpTrait, RecvError, SelectableReceiver, SelectableSender, SendError, TryRecvError,
};

const ME: u64 = 1;
const OTHER: u64 = 2;

fn done<R, W>(step: Step<R, W>) -> R {
    match step {
        Step::Done(r) => r,
        Step::Wait(_) => panic!("has to wait"),
    }
}

fn wait<R, W>(step: Step<R, W>) -> W {
    match step {
        Step::Done(_) => panic!("does not wait"),
        Step::Wait(w) => w,
    }
}

fn recv<T>(rx: &Receiver<T>, chan: &mut Chan<T>, board: &mut Board) -> Result<T, RecvError> {
    done(rx.recv(chan, board, ME))
}

#[test]
fn test_basic_send_recv() {
    let mut board = Board::new();
    let (mut chan, tx, rx) = channel(10);
    tx.send(&mut chan, &mut board, 42).unwrap();
    assert_eq!(recv(&rx, &mut chan, &mut board).unwrap(), 42);
}

#[test]
fn test_try_recv() {
    let mut board = Board::new();
    let (mut chan, tx, rx) = channel(10);
    assert!(rx.try_recv(&mut chan, &mut board).is_err()); // Empty
    tx.send(&mut chan, &mut board, 123).unwrap();
    assert_eq!(rx.try_recv(&mut chan, &mut board).unwrap(), 123);
}

#[test]
fn test_bounded_capacity() {
    let mut board = Board::new();
    let (mut chan, tx, rx) = channel(2);
    tx.send(&mut chan, &mut board, 1).unwrap();
    tx.send(&mut chan, &mut board, 2).unwrap();
    assert!(tx.send(&mut chan, &mut board, 3).is_err()); // Full
    assert_eq!(recv(&rx, &mut chan, &mut board).unwrap(), 1);
    tx.send(&mut chan, &mut board, 3).unwrap(); // Now space
    assert_eq!(recv(&rx, &mut chan, &mut board).unwrap(), 2);
    assert_eq!(recv(&rx, &mut chan, &mut board).unwrap(), 3);
}

#[test]
fn test_multiple_senders() {
    let mut board = Board::new();
    let (mut chan, tx1, rx) = channel(10);
    let tx2 = tx1.clone(&mut chan);
    let tx3 = tx1.clone(&mut chan);

    tx1.send(&mut chan, &mut board, "a").unwrap();
    tx2.send(&mut chan, &mut board, "b").unwrap();
    tx3.send(&mut chan, &mut board, "c").unwrap();

    // Order not guaranteed, but all should be received
    let mut received = vec![];
    for _ in 0..3 {
        received.push(recv(&rx, &mut chan, &mut board).unwrap());
    }
    received.sort();
    assert_eq!(received, vec!["a", "b", "c"]);
}

#[test]
fn test_sender_cloneable() {
    let mut board = Board::new();
    let (mut chan, tx1, _rx) = channel::<i32>(10);
    let tx2 = tx1.clone(&mut chan);
    let tx3 = tx2.clone(&mut chan);
    // All should be able to send
    tx1.send(&mut chan, &mut board, 1).unwrap();
    tx2.send(&mut chan, &mut board, 2).unwrap();
    tx3.send(&mut chan, &mut board, 3).unwrap();
}

#[test]
fn test_receiver_drop_causes_send_error() {
    let mut board = Board::new();
    let (mut chan, tx, rx) = channel(10);
    rx.close(&mut chan, &mut board);
    assert!(tx.send(&mut chan, &mut board, 42).is_err());
}

#[test]
fn test_sender_drop_causes_recv_disconnect() {
    let mut board = Board::new();
    let (mut chan, tx, rx) = channel::<i32>(10);
    tx.close(&mut chan, &mut board);
    assert!(recv(&rx, &mut chan, &mut board).is_err()); // Disconnected
}

#[test]
fn test_select_hooks() {
    let mut board = Board::new();
    let (mut chan, tx, mut rx) = channel(10);

    // Initially not ready
    assert!(!rx.is_ready(&chan));

    // Send something
    tx.send(&mut chan, &mut board, 42).unwrap();
    assert!(rx.is_ready(&chan));

    // Complete recv
    assert_eq!(done(rx.complete_recv(&mut chan, &mut board, ME)).unwrap(), 42);
    assert!(!rx.is_ready(&chan));
}

#[test]
fn test_zero_capacity() {
    let mut board = Board::new();
    let (mut chan, tx, mut rx) = channel::<i32>(0);
    assert!(tx.send(&mut chan, &mut board, 42).is_err()); // Can't send to zero capacity
    // Receiver not ready until sender drops
    assert!(!rx.is_ready(&chan));
    tx.close(&mut chan, &mut board);
    assert!(rx.is_ready(&chan));
    assert!(recv(&rx, &mut chan, &mut board).is_err()); // Disconnected
}

#[test]
fn test_never_channel_is_alive_but_empty() {
    let mut board = Board::new();
    let (mut chan, rx): (Chan<i32>, Receiver<i32>) = never();
    assert_eq!(rx.try_recv(&mut chan, &mut board), Err(TryRecvError::Empty));

    let mut sel: Select<Receiver<i32>, Sender<i32>> = Select::new();
    sel.recv(rx.clone(&mut chan));
    assert!(sel.try_select(&mut chan, &mut board).is_none());
}

#[test]
fn test_after_fires_once() {
    let mut board = Board::new();
    let (mut chan, rx, timer) = after(1_000, 30_000_000);
    let mut clock = 1_000;
    let guard = wait(rx.recv(&mut chan, &mut board, ME));
    assert_eq!(timer.delay(clock), 30_000_000);
    clock += timer.delay(clock);
    assert!(timer.fire(&mut chan, &mut board, clock).is_none());
    assert_eq!(board.take_unparked(), vec![ME]);
    let t = done(rx.resume(&mut chan, &mut board, ME, guard)).unwrap();
    assert_eq!(t, 30_001_000);
    assert_eq!(rx.try_recv(&mut chan, &mut board), Err(TryRecvError::Empty));
}

#[test]
fn bounded_mpsc_timer_is_never_early() {
    let mut board = Board::new();
    let (mut chan, rx, timer) = after(100, 50);
    let timer = timer.fire(&mut chan, &mut board, 149).expect("not due yet");
    assert_eq!(rx.try_recv(&mut chan, &mut board), Err(TryRecvError::Empty));
    assert_eq!(timer.delay(149), 1);
    assert_eq!(timer.delay(200), 0);
    assert!(timer.fire(&mut chan, &mut board, 160).is_none());
    assert_eq!(rx.try_recv(&mut chan, &mut board), Ok(160));

    // A timer that is due after the end of time never fires.
    let (mut chan, _rx, timer) = after(u64::MAX, u64::MAX);
    assert_eq!(timer.delay(0), u64::MAX);
    assert!(timer.fire(&mut chan, &mut board, u64::MAX).is_some());
}

#[test]
fn test_concurrent_send_recv() {
    let mut board = Board::new();
    let (mut chan, tx, rx) = channel(100);
    for i in 0..50 {
        tx.send(&mut chan, &mut board, i).unwrap();
    }
    for i in 0..50 {
        assert_eq!(recv(&rx, &mut chan, &mut board).unwrap(), i);
    }
}

#[test]
fn test_fifo_ordering() {
    let mut board = Board::new();
    let (mut chan, tx, rx) = channel(16);
    for i in 0..8u32 {
        tx.send(&mut chan, &mut board, i).unwrap();
    }
    for i in 0..8u32 {
        assert_eq!(recv(&rx, &mut chan, &mut board).unwrap(), i);
    }
}

#[test]
fn test_blocking_recv_woken_by_disconnect() {
    let mut board = Board::new();
    let (mut chan, tx, rx) = channel::<i32>(4);
    let guard = wait(rx.recv(&mut chan, &mut board, ME));
    let guard = wait(rx.recheck(&mut chan, &mut board, ME, guard));
    tx.close(&mut chan, &mut board);
    assert_eq!(board.take_unparked(), vec![ME]);
    assert_eq!(
        done(rx.resume(&mut chan, &mut board, ME, guard)),
        Err(RecvError::Disconnected)
    );
}

#[test]
fn test_blocking_recv_drains_before_disconnect() {
    let mut board = Board::new();
    let (mut chan, tx, rx) = channel(4);
    tx.send(&mut chan, &mut board, 1).unwrap();
    tx.send(&mut chan, &mut board, 2).unwrap();
    tx.close(&mut chan, &mut board);
    // Items buffered before sender drop are still returned.
    assert_eq!(recv(&rx, &mut chan, &mut board).unwrap(), 1);
    assert_eq!(recv(&rx, &mut chan, &mut board).unwrap(), 2);
    assert!(recv(&rx, &mut chan, &mut board).is_err());
}

#[test]
fn test_drop_values_in_buffer() {
    struct Guard(Rc<Cell<usize>>);
    impl Drop for Guard {
        fn drop(&mut self) {
            self.0.set(self.0.get() + 1);
        }
    }

    let counter = Rc::new(Cell::new(0));
    let mut board = Board::new();
    let (mut chan, tx, rx) = channel(4);
    assert!(tx.send(&mut chan, &mut board, Guard(Rc::clone(&counter))).is_ok());
    assert!(tx.send(&mut chan, &mut board, Guard(Rc::clone(&counter))).is_ok());
    tx.close(&mut chan, &mut board);
    rx.close(&mut chan, &mut board);
    drop(chan);
    assert_eq!(counter.get(), 2);
}

#[test]
fn test_send_select_wakes_when_receiver_pops() {
    // Fill the buffer so is_ready() returns false for the sender.
    let mut board = Board::new();
    let (mut chan, tx, rx) = channel::<i32>(1);
    tx.send(&mut chan, &mut board, 1).unwrap(); // full

    let tx2 = tx.clone(&mut chan);
    let mut sel: Select<Receiver<i32>, Sender<i32>> = Select::new();
    let arm = tx2.clone(&mut chan);
    sel.send(arm);
    let call = match sel.select(&mut chan, &mut board, OTHER) {
        SelectStep::Registered(call) => call,
        _ => panic!("the buffer is full"),
    };

    // Pop from buffer to create space, which wakes the send-select arm.
    assert_eq!(recv(&rx, &mut chan, &mut board).unwrap(), 1);
    assert_eq!(board.take_unparked(), vec![OTHER]);
    match sel.recheck(&mut chan, &mut board, call) {
        SelectStep::Selected(op) => assert_eq!(op.index, 0),
        _ => panic!("the arm was woken"),
    }
    assert!(done(tx2.complete_send(&mut chan, &mut board, OTHER, 99)).is_ok());
    assert_eq!(recv(&rx, &mut chan, &mut board).unwrap(), 99);
}

#[test]
fn bounded_mpsc_send_nudges_every_blocked_receive() {
    let mut board = Board::new();
    let (mut chan, tx, rx) = channel::<i32>(4);
    let first = wait(rx.recv(&mut chan, &mut board, ME));
    let second = wait(rx.recv(&mut chan, &mut board, OTHER));
    tx.send(&mut chan, &mut board, 1).unwrap();
    assert_eq!(board.take_unparked(), vec![ME, OTHER]);
    assert_eq!(done(rx.recheck(&mut chan, &mut board, OTHER, second)), Ok(1));
    let first = wait(rx.resume(&mut chan, &mut board, ME, first));
    let _ = wait(rx.recheck(&mut chan, &mut board, ME, first));
}

#[test]
fn bounded_mpsc_claimed_registration_is_renewed() {
    let mut board = Board::new();
    let (mut chan, tx, rx) = channel::<i32>(4);
    let guard = wait(rx.recv(&mut chan, &mut board, ME));
    let claimed = guard.marker();
    assert!(board.claim(claimed, 5));
    let guard = wait(rx.recheck(&mut chan, &mut board, ME, guard));
    assert_eq!(board.load(guard.marker()), Some(UNSELECTED));
    // Now a send wakes the receive, once.
    tx.send(&mut chan, &mut board, 1).unwrap();
    assert_eq!(board.take_unparked(), vec![ME]);
    assert_eq!(done(rx.recheck(&mut chan, &mut board, ME, guard)), Ok(1));
}

#[test]
fn bounded_mpsc_completion_waits_while_a_sender_is_alive() {
    let mut board = Board::new();
    let (mut chan, tx, mut rx) = channel::<i32>(4);
    tx.send(&mut chan, &mut board, 1).unwrap();
    assert_eq!(done(rx.complete(&mut chan, &mut board, ME)), Ok(1));
    let guard = wait(rx.complete(&mut chan, &mut board, ME));
    tx.send(&mut chan, &mut board, 2).unwrap();
    assert_eq!(done(rx.resume(&mut chan, &mut board, ME, guard)), Ok(2));
    tx.close(&mut chan, &mut board);
    assert_eq!(
        done(rx.complete_recv(&mut chan, &mut board, ME)),
        Err(RecvError::Disconnected)
    );
}

#[test]
fn bounded_mpsc_failed_send_returns_the_value() {
    let mut board = Board::new();
    let (mut chan, tx, rx) = channel::<i32>(1);
    tx.send(&mut chan, &mut board, 7).unwrap();
    assert_eq!(tx.send(&mut chan, &mut board, 8), Err(SendError(8)));
    rx.close(&mut chan, &mut board);
    assert_eq!(tx.send(&mut chan, &mut board, 9), Err(SendError(9)));
}

#[test]
fn bounded_mpsc_never_stays_empty() {
    let mut board = Board::new();
    let (mut chan, rx): (Chan<i32>, Receiver<i32>) = never();
    let guard = wait(rx.recv(&mut chan, &mut board, ME));
    let guard = wait(rx.resume(&mut chan, &mut board, ME, guard));
    let rx2 = rx.clone(&mut chan);
    rx.close(&mut chan, &mut board);
    let _ = wait(rx2.recheck(&mut chan, &mut board, ME, guard));
    assert_eq!(rx2.try_recv(&mut chan, &mut board), Err(TryRecvError::Empty));
}
