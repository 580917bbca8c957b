use std::cell::Cell;
use std::rc::Rc;

use selectables::bounded_mpmc::{channel, Chan, Receiver, Sender};
use selectables::ports::Step;
use selectables::select::{Select, SelectStep};
use selectables::waiter::Board;
use selectables::{
    ArmOpTrait, RecvError, SelectableReceiver, SelectableSender, SendError, TryRecvError,
};

const ME: u64 = 1;
const OTHER: u64 = 2;

fn done<R, W>(step: Step<R, W>) -> R {
    match step {
        Step::Done(r) => r,
        Step::Wait(_) => panic!("has to wait"),
    }
}

fn wait<R, W>(step: Step<R, W>) -> W {
    match step {
        Step::Done(_) => panic!("does not wait"),
        Step::Wait(w) => w,
    }
}

fn recv<T>(rx: &Receiver<T>, chan: &mut Chan<T>, board: &mut Board) -> Result<T, RecvError> {
    done(rx.recv(chan, board, ME))
}

#[test]
fn bounded_mpmc_basic_send_recv() {
    let mut board = Board::new();
    let (mut chan, tx, rx) = channel(4);
    tx.send(&mut chan, &mut board, 1).unwrap();
    tx.send(&mut chan, &mut board, 2).unwrap();
    assert_eq!(recv(&rx, &mut chan, &mut board).unwrap(), 1);
    assert_eq!(recv(&rx, &mut chan, &mut board).unwrap(), 2);
}

#[test]
fn try_recv_empty_and_full() {
    let mut board = Board::new();
    let (mut chan, tx, rx) = channel(2);
    assert_eq!(rx.try_recv(&mut chan, &mut board), Err(TryRecvError::Empty));
    tx.send(&mut chan, &mut board, 1).unwrap();
    tx.send(&mut chan, &mut board, 2).unwrap();
    assert!(tx.send(&mut chan, &mut board, 3).is_err(), "buffer full");
    assert_eq!(rx.try_recv(&mut chan, &mut board), Ok(1));
    tx.send(&mut chan, &mut board, 3).unwrap();
    assert_eq!(rx.try_recv(&mut chan, &mut board), Ok(2));
    assert_eq!(rx.try_recv(&mut chan, &mut board), Ok(3));
}

#[test]
fn zero_capacity_always_full() {
    let mut board = Board::new();
    let (mut chan, tx, _rx) = channel::<i32>(0);
    assert!(tx.send(&mut chan, &mut board, 42).is_err());
}

#[test]
fn sender_drop_disconnects() {
    let mut board = Board::new();
    let (mut chan, tx, rx) = channel::<i32>(4);
    tx.send(&mut chan, &mut board, 1).unwrap();
    tx.close(&mut chan, &mut board);
    assert_eq!(rx.try_recv(&mut chan, &mut board), Ok(1));
    assert_eq!(rx.try_recv(&mut chan, &mut board), Err(TryRecvError::Disconnected));
    assert!(recv(&rx, &mut chan, &mut board).is_err());
}

#[test]
fn clone_sender_keeps_alive() {
    let mut board = Board::new();
    let (mut chan, tx1, rx) = channel(4);
    let tx2 = tx1.clone(&mut chan);
    tx1.close(&mut chan, &mut board);
    tx2.send(&mut chan, &mut board, 42).unwrap();
    tx2.close(&mut chan, &mut board);
    assert_eq!(recv(&rx, &mut chan, &mut board).unwrap(), 42);
    assert!(recv(&rx, &mut chan, &mut board).is_err());
}

#[test]
fn bounded_mpmc_multiple_senders() {
    let mut board = Board::new();
    let (mut chan, tx1, rx) = channel(16);
    let tx2 = tx1.clone(&mut chan);
    let tx3 = tx1.clone(&mut chan);
    tx1.send(&mut chan, &mut board, 1).unwrap();
    tx2.send(&mut chan, &mut board, 2).unwrap();
    tx3.send(&mut chan, &mut board, 3).unwrap();
    let mut vals: Vec<i32> = (0..3).map(|_| recv(&rx, &mut chan, &mut board).unwrap()).collect();
    vals.sort();
    assert_eq!(vals, vec![1, 2, 3]);
}

#[test]
fn multiple_receivers() {
    let mut board = Board::new();
    let (mut chan, tx, rx1) = channel(16);
    let rx2 = rx1.clone(&mut chan);
    tx.send(&mut chan, &mut board, 10).unwrap();
    tx.send(&mut chan, &mut board, 20).unwrap();
    let a = match rx1.try_recv(&mut chan, &mut board) {
        Ok(v) => v,
        Err(_) => rx2.try_recv(&mut chan, &mut board).unwrap(),
    };
    let b = match rx1.try_recv(&mut chan, &mut board) {
        Ok(v) => v,
        Err(_) => rx2.try_recv(&mut chan, &mut board).unwrap(),
    };
    let mut vals = vec![a, b];
    vals.sort();
    assert_eq!(vals, vec![10, 20]);
}

#[test]
fn bounded_mpmc_blocking_recv_woken_by_send() {
    let mut board = Board::new();
    let (mut chan, tx, rx) = channel(4);
    let guard = wait(rx.recv(&mut chan, &mut board, ME));
    let guard = wait(rx.recheck(&mut chan, &mut board, guard));
    assert_eq!(board.take_unparked(), vec![]);
    tx.send(&mut chan, &mut board, 42).unwrap();
    assert_eq!(board.take_unparked(), vec![ME]);
    assert_eq!(done(rx.resume(&mut chan, &mut board, ME, guard)).unwrap(), 42);
    // The registration is gone: a second send wakes nobody.
    tx.send(&mut chan, &mut board, 43).unwrap();
    assert_eq!(board.take_unparked(), vec![]);
}

#[test]
fn blocking_recv_woken_by_disconnect() {
    let mut board = Board::new();
    let (mut chan, tx, rx) = channel::<i32>(4);
    let guard = wait(rx.recv(&mut chan, &mut board, ME));
    tx.close(&mut chan, &mut board);
    assert_eq!(board.take_unparked(), vec![ME]);
    assert!(done(rx.resume(&mut chan, &mut board, ME, guard)).is_err());
}

#[test]
fn is_ready() {
    let mut board = Board::new();
    let (mut chan, tx, mut rx) = channel(4);
    assert!(!rx.is_ready(&chan));
    tx.send(&mut chan, &mut board, 1).unwrap();
    assert!(rx.is_ready(&chan));
    rx.try_recv(&mut chan, &mut board).unwrap();
    assert!(!rx.is_ready(&chan));
    tx.close(&mut chan, &mut board);
    assert!(rx.is_ready(&chan)); // disconnected counts as ready
}

#[test]
fn concurrent_producers_consumers() {
    const PRODUCERS: usize = 4;
    const PER_PRODUCER: usize = 256;
    const TOTAL: usize = PRODUCERS * PER_PRODUCER;

    // Small buffer relative to total items; producers retry on full.
    let mut board = Board::new();
    let (mut chan, tx, rx) = channel(32);
    let senders: Vec<Sender<usize>> = (0..PRODUCERS).map(|_| tx.clone(&mut chan)).collect();
    let receivers: Vec<Receiver<usize>> = (0..PRODUCERS).map(|_| rx.clone(&mut chan)).collect();
    tx.close(&mut chan, &mut board);
    let mut received = 0;
    for sender in senders {
        for i in 0..PER_PRODUCER {
            while sender.send(&mut chan, &mut board, i).is_err() {
                for receiver in &receivers {
                    if receiver.try_recv(&mut chan, &mut board).is_ok() {
                        received += 1;
                    }
                }
            }
        }
        sender.close(&mut chan, &mut board);
    }
    loop {
        match receivers[received % PRODUCERS].try_recv(&mut chan, &mut board) {
            Ok(_) => received += 1,
            Err(e) => {
                assert_eq!(e, TryRecvError::Disconnected);
                break;
            }
        }
    }
    assert_eq!(received, TOTAL);
}

#[test]
fn drop_values_in_buffer() {
    struct Guard(Rc<Cell<bool>>);
    impl Drop for Guard {
        fn drop(&mut self) {
            self.0.set(true);
        }
    }

    let dropped = Rc::new(Cell::new(false));
    let mut board = Board::new();
    let (mut chan, tx, rx) = channel(4);
    assert!(tx.send(&mut chan, &mut board, Guard(Rc::clone(&dropped))).is_ok());
    tx.close(&mut chan, &mut board);
    rx.close(&mut chan, &mut board);
    drop(chan); // Guard should be dropped here
    assert!(dropped.get());
}

#[test]
fn bounded_mpmc_fifo_ordering() {
    let mut board = Board::new();
    let (mut chan, tx, rx) = channel(16);
    for i in 0..8u32 {
        tx.send(&mut chan, &mut board, i).unwrap();
    }
    for i in 0..8u32 {
        assert_eq!(recv(&rx, &mut chan, &mut board).unwrap(), i);
    }
}

#[test]
fn recv_drains_before_disconnect() {
    let mut board = Board::new();
    let (mut chan, tx, rx) = channel(4);
    tx.send(&mut chan, &mut board, 1).unwrap();
    tx.send(&mut chan, &mut board, 2).unwrap();
    tx.close(&mut chan, &mut board);
    assert_eq!(recv(&rx, &mut chan, &mut board).unwrap(), 1);
    assert_eq!(recv(&rx, &mut chan, &mut board).unwrap(), 2);
    assert!(recv(&rx, &mut chan, &mut board).is_err());
}

#[test]
fn send_select_wakes_when_receiver_pops() {
    let mut board = Board::new();
    let (mut chan, tx, rx) = channel::<i32>(1);
    tx.send(&mut chan, &mut board, 1).unwrap(); // fill the buffer

    let tx2 = tx.clone(&mut chan);
    let arm = tx2.clone(&mut chan);
    let rx2 = rx.clone(&mut chan);
    let mut sel: Select<Receiver<i32>, Sender<i32>> = Select::new();
    sel.send(arm);
    let call = match sel.select(&mut chan, &mut board, OTHER) {
        SelectStep::Registered(call) => call,
        _ => panic!("the buffer is full"),
    };
    let call = match sel.recheck(&mut chan, &mut board, call) {
        SelectStep::Park(call) => call,
        _ => panic!("the buffer is full"),
    };

    // Pop to create space, which wakes the send-select arm.
    assert_eq!(recv(&rx, &mut chan, &mut board).unwrap(), 1);
    assert_eq!(board.take_unparked(), vec![OTHER]);
    match sel.resume(&mut chan, &mut board, 0, call) {
        SelectStep::Selected(op) => assert_eq!(op.index, 0),
        _ => panic!("the arm was woken"),
    }
    assert!(done(tx2.complete_send(&mut chan, &mut board, OTHER, 99)).is_ok());
    assert_eq!(recv(&rx2, &mut chan, &mut board).unwrap(), 99);
}

#[test]
fn select_ready_when_disconnected_and_empty() {
    let mut board = Board::new();
    let (mut chan, tx, mut rx) = channel::<i32>(4);
    tx.close(&mut chan, &mut board);
    // Disconnected state counts as ready for recv arms.
    assert!(rx.is_ready(&chan));
    assert_eq!(rx.try_recv(&mut chan, &mut board), Err(TryRecvError::Disconnected));
}

#[test]
fn sender_is_closed() {
    let mut board = Board::new();
    let (mut chan, tx, rx) = channel::<i32>(4);
    assert!(!tx.is_closed(&chan));
    let rx2 = rx.clone(&mut chan);
    rx.close(&mut chan, &mut board);
    assert!(!tx.is_closed(&chan)); // rx2 still alive
    rx2.close(&mut chan, &mut board);
    assert!(tx.is_closed(&chan));
}

#[test]
fn bounded_mpmc_failed_send_returns_the_value() {
    let mut board = Board::new();
    let (mut chan, tx, rx) = channel::<i32>(1);
    tx.send(&mut chan, &mut board, 7).unwrap();
    assert_eq!(tx.send(&mut chan, &mut board, 8), Err(SendError(8)));
    assert_eq!(rx.try_recv(&mut chan, &mut board), Ok(7));
    rx.close(&mut chan, &mut board);
    assert_eq!(tx.send(&mut chan, &mut board, 9), Err(SendError(9)));
}

#[test]
fn bounded_mpmc_full_ring_of_one_keeps_its_message() {
    let mut board = Board::new();
    let (mut chan, tx, rx) = channel::<i32>(1);
    for i in 0..5 {
        tx.send(&mut chan, &mut board, i).unwrap();
        assert_eq!(tx.send(&mut chan, &mut board, 100 + i), Err(SendError(100 + i)));
        assert_eq!(rx.try_recv(&mut chan, &mut board), Ok(i));
        assert_eq!(rx.try_recv(&mut chan, &mut board), Err(TryRecvError::Empty));
    }
}

#[test]
fn bounded_mpmc_send_wakes_only_the_longest_waiting() {
    let mut board = Board::new();
    let (mut chan, tx, rx) = channel::<i32>(4);
    let first = wait(rx.recv(&mut chan, &mut board, ME));
    let second = wait(rx.recv(&mut chan, &mut board, OTHER));
    tx.send(&mut chan, &mut board, 1).unwrap();
    assert_eq!(board.take_unparked(), vec![ME]);
    assert_eq!(done(rx.resume(&mut chan, &mut board, ME, first)), Ok(1));
    tx.send(&mut chan, &mut board, 2).unwrap();
    assert_eq!(board.take_unparked(), vec![OTHER]);
    assert_eq!(done(rx.recheck(&mut chan, &mut board, second)), Ok(2));
}

#[test]
fn bounded_mpmc_stolen_message_means_waiting_again() {
    let mut board = Board::new();
    let (mut chan, tx, mut rx) = channel::<i32>(4);
    tx.send(&mut chan, &mut board, 1).unwrap();
    assert!(rx.is_ready(&chan));
    assert_eq!(rx.try_recv(&mut chan, &mut board), Ok(1)); // somebody else takes it
    let guard = wait(rx.complete(&mut chan, &mut board, ME));
    tx.send(&mut chan, &mut board, 2).unwrap();
    assert_eq!(done(rx.resume(&mut chan, &mut board, ME, guard)), Ok(2));
}

#[test]
fn bounded_mpmc_last_sender_wakes_all_receivers() {
    let mut board = Board::new();
    let (mut chan, tx, rx) = channel::<i32>(4);
    let tx2 = tx.clone(&mut chan);
    let first = wait(rx.recv(&mut chan, &mut board, ME));
    let second = wait(rx.recv(&mut chan, &mut board, OTHER));
    tx.close(&mut chan, &mut board);
    assert_eq!(board.take_unparked(), vec![]);
    tx2.close(&mut chan, &mut board);
    assert_eq!(board.take_unparked(), vec![ME, OTHER]);
    assert_eq!(done(rx.recheck(&mut chan, &mut board, first)), Err(RecvError::Disconnected));
    assert_eq!(done(rx.resume(&mut chan, &mut board, OTHER, second)), Err(RecvError::Disconnected));
}
