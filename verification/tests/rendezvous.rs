use selectables::ports::Step;
use selectables::rendezvous::{channel, Receiver, Sender};
use selectables::select::{Select, SelectStep};
use selectables::waiter::Board;
use selectables::{
    ArmOpTrait, RecvError, SelectableReceiver, SelectableSender, SendError, TryRecvError,
};

const RX: u64 = 1;
const TX: u64 = 2;

fn done<R, W>(step: Step<R, W>) -> R {
    match step {
        Step::Done(r) => r,
        Step::Wait(_) => panic!("has to wait"),
    }
}

fn wait<R, W>(step: Step<R, W>) -> W {
    match step {
        Step::Done(_) => panic!("does not wait"),
        Step::Wait(w) => w,
    }
}

#[test]
fn basic_rendezvous() {
    let mut board = Board::new();
    let (mut chan, tx, rx) = channel::<i32>();
    let guard = wait(rx.recv(&mut chan, &mut board, RX));
    // send() waits until the receiver claims the value.
    let send = wait(tx.send(&mut chan, &mut board, TX, 42));
    assert_eq!(board.take_unparked(), vec![RX]);
    let send = wait(tx.recheck(&mut chan, send));
    assert_eq!(done(rx.resume(&mut chan, &mut board, RX, guard)).unwrap(), 42);
    assert_eq!(board.take_unparked(), vec![TX]);
    done(tx.recheck(&mut chan, send)).unwrap();
}

#[test]
fn try_recv_empty() {
    let mut board = Board::new();
    let (mut chan, tx, rx) = channel::<i32>();
    // No sender parked yet.
    assert_eq!(rx.try_recv(&mut chan, &mut board), Err(TryRecvError::Empty));
    tx.close(&mut chan, &mut board);
    assert_eq!(rx.try_recv(&mut chan, &mut board), Err(TryRecvError::Disconnected));
}

#[test]
fn try_recv_wins() {
    let mut board = Board::new();
    let (mut chan, tx, rx) = channel::<i32>();
    let send = wait(tx.send(&mut chan, &mut board, TX, 99));
    assert_eq!(rx.try_recv(&mut chan, &mut board), Ok(99));
    done(tx.recheck(&mut chan, send)).unwrap();
}

#[test]
fn sender_disconnect_wakes_recv() {
    let mut board = Board::new();
    let (mut chan, tx, rx) = channel::<i32>();
    let guard = wait(rx.recv(&mut chan, &mut board, RX));
    tx.close(&mut chan, &mut board);
    assert_eq!(board.take_unparked(), vec![RX]);
    assert_eq!(
        done(rx.recheck(&mut chan, &mut board, guard)),
        Err(RecvError::Disconnected)
    );
}

#[test]
fn receiver_disconnect_wakes_sender() {
    let mut board = Board::new();
    let (mut chan, tx, rx) = channel::<i32>();
    let send = wait(tx.send(&mut chan, &mut board, TX, 7));
    rx.close(&mut chan, &mut board);
    assert_eq!(board.take_unparked(), vec![TX]);
    assert_eq!(done(tx.recheck(&mut chan, send)), Err(SendError(7)));
}

#[test]
fn spsc_stress() {
    const TOTAL: usize = 256;

    let mut board = Board::new();
    let (mut chan, tx, rx) = channel::<usize>();
    let mut counter = 0;
    for i in 0..TOTAL {
        let send = wait(tx.send(&mut chan, &mut board, TX, i));
        assert_eq!(done(rx.recv(&mut chan, &mut board, RX)), Ok(i));
        counter += 1;
        done(tx.recheck(&mut chan, send)).unwrap();
    }
    tx.close(&mut chan, &mut board);
    assert!(done(rx.recv(&mut chan, &mut board, RX)).is_err());
    assert_eq!(counter, TOTAL);
}

#[test]
fn try_recv_disconnected_immediately() {
    let mut board = Board::new();
    let (mut chan, tx, rx) = channel::<i32>();
    tx.close(&mut chan, &mut board);
    assert_eq!(rx.try_recv(&mut chan, &mut board), Err(TryRecvError::Disconnected));
}

#[test]
fn rendezvous_select() {
    let mut board = Board::new();
    let (mut chan, tx, rx) = channel::<i32>();
    let mut sel: Select<Receiver<i32>, Sender<i32>> = Select::new();
    sel.recv(rx.clone(&mut chan));
    let call = match sel.select_timeout(&mut chan, &mut board, RX, 0, 1_000_000_000) {
        SelectStep::Registered(call) => call,
        _ => panic!("no sender yet"),
    };
    let call = match sel.recheck(&mut chan, &mut board, call) {
        SelectStep::Park(call) => call,
        _ => panic!("no sender yet"),
    };
    assert_eq!(call.park_timeout(400_000_000), Some(600_000_000));
    let send = wait(tx.send(&mut chan, &mut board, TX, 123));
    assert_eq!(board.take_unparked(), vec![RX]);
    match sel.resume(&mut chan, &mut board, 100_000_000, call) {
        SelectStep::Selected(op) => assert_eq!(op.index, 0),
        _ => panic!("a sender is parked"),
    }
    assert_eq!(done(rx.complete_recv(&mut chan, &mut board, RX)).unwrap(), 123);
    done(tx.recheck(&mut chan, send)).unwrap();
}

#[test]
fn send_arm_in_select() {
    let mut board = Board::new();
    let (mut chan, tx, rx) = channel::<i32>();

    // A receiver waits, so the send arm can complete.
    let guard = wait(rx.recv(&mut chan, &mut board, RX));

    let mut sel: Select<Receiver<i32>, Sender<i32>> = Select::new();
    sel.send(tx.clone(&mut chan));
    match sel.select_timeout(&mut chan, &mut board, TX, 0, 500_000_000) {
        SelectStep::Selected(op) => assert_eq!(op.index, 0),
        _ => panic!("a receiver waits"),
    }
    let send = wait(tx.complete_send(&mut chan, &mut board, TX, 77));
    assert_eq!(done(rx.resume(&mut chan, &mut board, RX, guard)).unwrap(), 77);
    assert!(done(tx.recheck(&mut chan, send)).is_ok());
}

#[test]
fn concurrent_senders_stress() {
    const SENDERS: usize = 8;
    let mut board = Board::new();
    let (mut chan, tx, rx) = channel::<usize>();

    // Park all senders simultaneously.
    let mut sends = Vec::new();
    for i in 0..SENDERS {
        let tx_clone = tx.clone(&mut chan);
        let send = wait(tx_clone.send(&mut chan, &mut board, i as u64, i));
        sends.push((tx_clone, send));
    }
    tx.close(&mut chan, &mut board);

    // Consume all parked senders one by one.
    let mut received = Vec::new();
    for _ in 0..SENDERS {
        match done(rx.recv(&mut chan, &mut board, 100)) {
            Ok(v) => received.push(v),
            Err(_) => break,
        }
    }

    for (tx_clone, send) in sends {
        done(tx_clone.recheck(&mut chan, send)).unwrap();
        tx_clone.close(&mut chan, &mut board);
    }

    received.sort();
    assert_eq!(received, (0..SENDERS).collect::<Vec<_>>());
}

#[test]
fn complete_send_after_receiver_drops() {
    let mut board = Board::new();
    let (mut chan, tx, rx) = channel::<i32>();

    // A receiver waits, so the send arm is ready.
    let rx_first = rx.clone(&mut chan);
    let guard = wait(rx_first.recv(&mut chan, &mut board, RX));
    let mut sel: Select<Receiver<i32>, Sender<i32>> = Select::new();
    sel.send(tx.clone(&mut chan));
    match sel.select_timeout(&mut chan, &mut board, TX, 0, 500_000_000) {
        SelectStep::Selected(op) => assert_eq!(op.index, 0),
        _ => panic!("a receiver waits"),
    }

    // The first receiver gets a value from elsewhere and goes away.
    let other = tx.clone(&mut chan);
    let stray = wait(other.send(&mut chan, &mut board, 9, 1));
    assert_eq!(done(rx_first.resume(&mut chan, &mut board, RX, guard)), Ok(1));
    rx_first.close(&mut chan, &mut board);
    done(other.recheck(&mut chan, stray)).unwrap();

    // The completion waits for a second receiver and succeeds with it.
    let send = wait(tx.complete_send(&mut chan, &mut board, TX, 42));
    let send = wait(tx.recheck(&mut chan, send));
    assert_eq!(done(rx.recv(&mut chan, &mut board, RX)), Ok(42));
    assert!(done(tx.recheck(&mut chan, send)).is_ok());
}

#[test]
fn stress_concurrent_senders_and_receivers() {
    const N: usize = 100;
    let mut board = Board::new();
    let (mut chan, tx, rx) = channel::<usize>();

    let mut sends = Vec::new();
    for i in 0..N {
        let tx_c = tx.clone(&mut chan);
        let send = wait(tx_c.send(&mut chan, &mut board, i as u64, i));
        sends.push((tx_c, send));
    }
    tx.close(&mut chan, &mut board);

    let receivers: Vec<Receiver<usize>> = (0..4).map(|_| rx.clone(&mut chan)).collect();
    rx.close(&mut chan, &mut board);
    let mut vals = Vec::new();
    for i in 0..N {
        vals.push(done(receivers[i % 4].recv(&mut chan, &mut board, 1000)).unwrap());
    }
    for (tx_c, send) in sends {
        done(tx_c.recheck(&mut chan, send)).unwrap();
        tx_c.close(&mut chan, &mut board);
    }
    for rx_c in receivers {
        assert!(done(rx_c.recv(&mut chan, &mut board, 1000)).is_err());
    }

    vals.sort();
    assert_eq!(vals, (0..N).collect::<Vec<_>>());
}

#[test]
fn rendezvous_serves_the_last_parked_sender_first() {
    let mut board = Board::new();
    let (mut chan, tx, rx) = channel::<i32>();
    let a = wait(tx.send(&mut chan, &mut board, 10, 1));
    let b = wait(tx.send(&mut chan, &mut board, 20, 2));
    let c = wait(tx.send(&mut chan, &mut board, 30, 3));
    assert_eq!(rx.try_recv(&mut chan, &mut board), Ok(3));
    assert_eq!(board.take_unparked(), vec![30]);
    done(tx.recheck(&mut chan, c)).unwrap();
    // The others are parked still, and get their values back when the receiver goes.
    let a = wait(tx.recheck(&mut chan, a));
    rx.close(&mut chan, &mut board);
    assert_eq!(board.take_unparked(), vec![20, 10]);
    assert_eq!(done(tx.recheck(&mut chan, a)), Err(SendError(1)));
    assert_eq!(done(tx.recheck(&mut chan, b)), Err(SendError(2)));
    assert!(tx.is_closed(&chan));
    assert_eq!(done(tx.send(&mut chan, &mut board, 10, 4)), Err(SendError(4)));
}

#[test]
fn rendezvous_send_arm_is_woken_by_a_waiting_receiver() {
    let mut board = Board::new();
    let (mut chan, mut tx, mut rx) = channel::<i32>();
    assert!(!tx.is_ready(&chan));
    let mut sel: Select<Receiver<i32>, Sender<i32>> = Select::new();
    sel.send(tx.clone(&mut chan));
    let call = match sel.select(&mut chan, &mut board, TX) {
        SelectStep::Registered(call) => call,
        _ => panic!("no receiver yet"),
    };
    let guard = wait(rx.complete(&mut chan, &mut board, RX));
    assert_eq!(board.take_unparked(), vec![TX]);
    match sel.resume(&mut chan, &mut board, 0, call) {
        SelectStep::Selected(op) => assert_eq!(op.index, 0),
        _ => panic!("a receiver waits"),
    }
    let _ = wait(rx.recheck(&mut chan, &mut board, guard));
}
