use selectables::ports::Step;
use selectables::select::Select;
use selectables::unbounded_mpsc::{channel, Chan, Receiver, Sender};
use selectables::waiter::{Board, UNSELECTED};
use selectables::{ArmOpTrait, RecvError, SelectableReceiver, SendError, TryRecvError};

const ME: u64 = 1;

fn done<R, W>(step: Step<R, W>) -> R {
    match step {
        Step::Done(r) => r,
        Step::Wait(_) => panic!("has to wait"),
    }
}

fn wait<R, W>(step: Step<R, W>) -> W {
    match step {
        Step::Done(_) => panic!("does not wait"),
        Step::Wait(w) => w,
    }
}

fn recv<T>(rx: &Receiver<T>, chan: &mut Chan<T>, board: &mut Board) -> Result<T, RecvError> {
    done(rx.recv(chan, board, ME))
}

#[test]
fn unbounded_mpsc_basic_send_recv() {
    let mut board = Board::new();
    let (mut chan, tx, rx) = channel();
    tx.send(&mut chan, &mut board, 10).unwrap();
    tx.send(&mut chan, &mut board, 20).unwrap();
    assert_eq!(recv(&rx, &mut chan, &mut board).unwrap(), 10);
    assert_eq!(recv(&rx, &mut chan, &mut board).unwrap(), 20);
}

#[test]
fn unbounded_mpsc_receiver_drop_causes_send_error() {
    let mut board = Board::new();
    let (mut chan, tx, rx) = channel::<i32>();
    rx.close(&mut chan);
    assert_eq!(tx.send(&mut chan, &mut board, 1), Err(SendError(1)));
}

#[test]
fn unbounded_mpsc_disconnect_after_drain() {
    let mut board = Board::new();
    let (mut chan, tx, rx) = channel::<i32>();
    tx.send(&mut chan, &mut board, 1).unwrap();
    tx.close(&mut chan, &mut board);
    assert_eq!(rx.try_recv(&mut chan), Ok(1));
    assert_eq!(rx.try_recv(&mut chan), Err(TryRecvError::Disconnected));
}

#[test]
fn multiple_senders_stress_count() {
    const SENDERS: usize = 4;
    const MSGS: usize = 500;
    let mut board = Board::new();
    let (mut chan, tx, rx) = channel::<usize>();

    for s in 0..SENDERS {
        let txc = tx.clone(&mut chan);
        for i in 0..MSGS {
            txc.send(&mut chan, &mut board, s * MSGS + i).unwrap();
        }
        txc.close(&mut chan, &mut board);
    }
    tx.close(&mut chan, &mut board);

    let mut seen = 0usize;
    loop {
        match rx.try_recv(&mut chan) {
            Ok(_) => seen += 1,
            Err(e) => {
                assert_eq!(e, TryRecvError::Disconnected);
                break;
            }
        }
    }
    assert_eq!(seen, SENDERS * MSGS);
}

#[test]
fn select_ready_and_complete() {
    let mut board = Board::new();
    let (mut chan, tx, rx) = channel::<i32>();
    tx.send(&mut chan, &mut board, 77).unwrap();

    let mut sel: Select<Receiver<i32>, Sender<i32>> = Select::new();
    sel.recv(rx.clone(&mut chan));
    assert!(sel.try_select(&mut chan, &mut board).is_some());
    assert_eq!(done(rx.complete_recv(&mut chan, &mut board, ME)).unwrap(), 77);
}

#[test]
fn unbounded_mpsc_fifo_ordering() {
    let mut board = Board::new();
    let (mut chan, tx, rx) = channel::<u32>();
    for i in 0..8u32 {
        tx.send(&mut chan, &mut board, i).unwrap();
    }
    for i in 0..8u32 {
        assert_eq!(recv(&rx, &mut chan, &mut board).unwrap(), i);
    }
}

#[test]
fn unbounded_mpsc_blocking_recv_wakes_on_send() {
    let mut board = Board::new();
    let (mut chan, tx, rx) = channel::<i32>();
    let guard = wait(rx.recv(&mut chan, &mut board, ME));
    tx.send(&mut chan, &mut board, 42).unwrap();
    assert_eq!(board.take_unparked(), vec![ME]);
    assert_eq!(done(rx.resume(&mut chan, &mut board, ME, guard)).unwrap(), 42);
}

#[test]
fn unbounded_mpsc_blocking_recv_wakes_on_disconnect() {
    let mut board = Board::new();
    let (mut chan, tx, rx) = channel::<i32>();
    let guard = wait(rx.recv(&mut chan, &mut board, ME));
    tx.close(&mut chan, &mut board);
    assert_eq!(board.take_unparked(), vec![ME]);
    assert_eq!(
        done(rx.recheck(&mut chan, &mut board, ME, guard)),
        Err(RecvError::Disconnected)
    );
}

#[test]
fn try_recv_empty_then_disconnected() {
    let mut board = Board::new();
    let (mut chan, tx, rx) = channel::<i32>();
    assert_eq!(rx.try_recv(&mut chan), Err(TryRecvError::Empty));
    tx.close(&mut chan, &mut board);
    assert_eq!(rx.try_recv(&mut chan), Err(TryRecvError::Disconnected));
}

#[test]
fn sender_count_tracks_clones() {
    let mut board = Board::new();
    let (mut chan, tx1, rx) = channel::<i32>();
    let tx2 = tx1.clone(&mut chan);
    let tx3 = tx2.clone(&mut chan);
    tx1.close(&mut chan, &mut board);
    // Still alive because tx2, tx3 exist.
    tx2.send(&mut chan, &mut board, 1).unwrap();
    tx2.close(&mut chan, &mut board);
    tx3.send(&mut chan, &mut board, 2).unwrap();
    tx3.close(&mut chan, &mut board);
    // Now disconnected.
    assert_eq!(rx.try_recv(&mut chan), Ok(1));
    assert_eq!(rx.try_recv(&mut chan), Ok(2));
    assert_eq!(rx.try_recv(&mut chan), Err(TryRecvError::Disconnected));
}

#[test]
fn unbounded_mpsc_send_nudges_every_blocked_receive() {
    let mut board = Board::new();
    let (mut chan, tx, rx) = channel::<i32>();
    let _first = wait(rx.recv(&mut chan, &mut board, 1));
    let _second = wait(rx.recv(&mut chan, &mut board, 2));
    tx.send(&mut chan, &mut board, 1).unwrap();
    assert_eq!(board.take_unparked(), vec![1, 2]);
}

#[test]
fn unbounded_mpsc_claimed_registration_is_renewed() {
    let mut board = Board::new();
    let (mut chan, tx, rx) = channel::<i32>();
    let guard = wait(rx.recv(&mut chan, &mut board, ME));
    let claimed = guard.marker();
    assert!(board.claim(claimed, 5));
    let guard = wait(rx.recheck(&mut chan, &mut board, ME, guard));
    assert_eq!(board.load(guard.marker()), Some(UNSELECTED));
    // Now a send wakes the receive, once.
    tx.send(&mut chan, &mut board, 1).unwrap();
    assert_eq!(board.take_unparked(), vec![ME]);
    assert_eq!(done(rx.recheck(&mut chan, &mut board, ME, guard)), Ok(1));
}

#[test]
fn unbounded_mpsc_completion_waits_while_a_sender_is_alive() {
    let mut board = Board::new();
    let (mut chan, tx, mut rx) = channel::<i32>();
    tx.send(&mut chan, &mut board, 1).unwrap();
    assert_eq!(done(rx.complete(&mut chan, &mut board, ME)), Ok(1));
    let guard = wait(rx.complete(&mut chan, &mut board, ME));
    tx.send(&mut chan, &mut board, 2).unwrap();
    assert_eq!(done(rx.resume(&mut chan, &mut board, ME, guard)), Ok(2));
    tx.close(&mut chan, &mut board);
    assert_eq!(
        done(rx.complete_recv(&mut chan, &mut board, ME)),
        Err(RecvError::Disconnected)
    );
}

#[test]
fn unbounded_mpsc_send_arm_is_always_ready() {
    let mut board = Board::new();
    let (mut chan, mut tx, mut rx) = channel::<i32>();
    assert!(tx.is_ready(&chan));
    assert!(!rx.is_ready(&chan));
    tx.send(&mut chan, &mut board, 1).unwrap();
    assert!(tx.is_ready(&chan));
    assert!(rx.is_ready(&chan));
}
