use selectables::ports::Step;
use selectables::select::{Select, SelectStep};
use selectables::unbounded_mpmc::{channel, Chan, Receiver, Sender};
use selectables::waiter::Board;
use selectables::{ArmOpTrait, RecvError, SelectableReceiver, SendError, TryRecvError};

const ME: u64 = 1;

fn done<R, W>(step: Step<R, W>) -> R {
    match step {
        Step::Done(r) => r,
        Step::Wait(_) => panic!("has to wait"),
    }
}

fn wait<R, W>(step: Step<R, W>) -> W {
    match step {
        Step::Done(_) => panic!("does not wait"),
        Step::Wait(w) => w,
    }
}

fn recv<T>(rx: &Receiver<T>, chan: &mut Chan<T>, board: &mut Board) -> Result<T, RecvError> {
    done(rx.recv(chan, board, ME))
}

// ── Basic send / receive ──────────────────────────────────────────────

#[test]
fn unbounded_mpmc_basic_send_recv() {
    let mut board = Board::new();
    let (mut chan, tx, rx) = channel();
    tx.send(&mut chan, &mut board, 42u32).unwrap();
    assert_eq!(rx.try_recv(&mut chan), Ok(42));
}

#[test]
fn unbounded_mpmc_fifo_ordering() {
    let mut board = Board::new();
    let (mut chan, tx, rx) = channel();
    for i in 0..5u32 {
        tx.send(&mut chan, &mut board, i).unwrap();
    }
    for i in 0..5u32 {
        assert_eq!(recv(&rx, &mut chan, &mut board).unwrap(), i);
    }
}

#[test]
fn empty_then_disconnected() {
    let mut board = Board::new();
    let (mut chan, tx, rx) = channel::<i32>();
    assert_eq!(rx.try_recv(&mut chan), Err(TryRecvError::Empty));
    tx.close(&mut chan, &mut board);
    assert_eq!(rx.try_recv(&mut chan), Err(TryRecvError::Disconnected));
}

// ── Blocking recv ─────────────────────────────────────────────────────

#[test]
fn unbounded_mpmc_blocking_recv_wakes_on_send() {
    let mut board = Board::new();
    let (mut chan, tx, rx) = channel::<u32>();
    let guard = wait(rx.recv(&mut chan, &mut board, ME));
    let guard = wait(rx.recheck(&mut chan, &mut board, guard));
    tx.send(&mut chan, &mut board, 7).unwrap();
    assert_eq!(board.take_unparked(), vec![ME]);
    assert_eq!(done(rx.resume(&mut chan, &mut board, ME, guard)).unwrap(), 7);
}

#[test]
fn unbounded_mpmc_blocking_recv_wakes_on_disconnect() {
    let mut board = Board::new();
    let (mut chan, tx, rx) = channel::<i32>();
    let guard = wait(rx.recv(&mut chan, &mut board, ME));
    tx.close(&mut chan, &mut board);
    assert_eq!(board.take_unparked(), vec![ME]);
    assert_eq!(
        done(rx.recheck(&mut chan, &mut board, guard)),
        Err(RecvError::Disconnected)
    );
}

#[test]
fn all_blocked_receivers_wake_on_last_sender_drop() {
    const N: u64 = 8;
    let mut board = Board::new();
    let (mut chan, tx, rx) = channel::<i32>();
    let mut waiting = Vec::new();
    for thread in 0..N {
        let rx_clone = rx.clone(&mut chan);
        let guard = wait(rx_clone.recv(&mut chan, &mut board, thread));
        waiting.push((rx_clone, thread, guard));
    }
    tx.close(&mut chan, &mut board);
    assert_eq!(board.take_unparked(), (0..N).collect::<Vec<u64>>());
    for (rx_clone, thread, guard) in waiting {
        assert_eq!(
            done(rx_clone.resume(&mut chan, &mut board, thread, guard)),
            Err(RecvError::Disconnected)
        );
    }
}

// ── Multi-sender / multi-receiver ─────────────────────────────────────

#[test]
fn unbounded_mpmc_multiple_senders() {
    let mut board = Board::new();
    let (mut chan, tx, rx) = channel::<u32>();
    for i in 0..4u32 {
        let tx_clone = tx.clone(&mut chan);
        tx_clone.send(&mut chan, &mut board, i).unwrap();
        tx_clone.close(&mut chan, &mut board);
    }
    tx.close(&mut chan, &mut board);
    let mut collected: Vec<u32> =
        (0..4).map(|_| recv(&rx, &mut chan, &mut board).unwrap()).collect();
    collected.sort();
    assert_eq!(collected, vec![0, 1, 2, 3]);
}

#[test]
fn multiple_receivers_share_messages() {
    let mut board = Board::new();
    let (mut chan, tx, rx) = channel::<u32>();
    let rx2 = rx.clone(&mut chan);

    let g1 = wait(rx.recv(&mut chan, &mut board, 1));
    let g2 = wait(rx2.recv(&mut chan, &mut board, 2));

    tx.send(&mut chan, &mut board, 1).unwrap();
    tx.send(&mut chan, &mut board, 2).unwrap();

    let mut results = vec![
        done(rx.resume(&mut chan, &mut board, 1, g1)).unwrap(),
        done(rx2.resume(&mut chan, &mut board, 2, g2)).unwrap(),
    ];
    results.sort();
    assert_eq!(results, vec![1, 2]);
}

// ── select integration ────────────────────────────────────────────────

#[test]
fn select_recv_ready() {
    let mut board = Board::new();
    let (mut chan, tx, rx) = channel::<i32>();
    tx.send(&mut chan, &mut board, 99).unwrap();
    let mut sel: Select<Receiver<i32>, Sender<i32>> = Select::new();
    let idx = sel.recv(rx.clone(&mut chan));
    let op = sel.try_select(&mut chan, &mut board).expect("should be ready");
    assert_eq!(op.index, idx);
    let val = done(rx.complete_recv(&mut chan, &mut board, ME)).unwrap();
    assert_eq!(val, 99);
}

#[test]
fn select_not_ready_when_empty() {
    let mut board = Board::new();
    let (mut chan, _tx, rx) = channel::<i32>();
    let mut sel: Select<Receiver<i32>, Sender<i32>> = Select::new();
    sel.recv(rx.clone(&mut chan));
    assert!(sel.try_select(&mut chan, &mut board).is_none());
}

// ── complete_recv race safety ─────────────────────────────────────────

#[test]
fn complete_recv_waits_when_race_steals_message() {
    let mut board = Board::new();
    let (mut chan, tx, rx) = channel();
    let mut rx_other = rx.clone(&mut chan);
    tx.send(&mut chan, &mut board, 1).unwrap();

    let mut sel: Select<Receiver<i32>, Sender<i32>> = Select::new();
    sel.recv(rx_other.clone(&mut chan));
    match sel.select(&mut chan, &mut board, 2) {
        SelectStep::Selected(op) => assert_eq!(op.index, 0),
        _ => panic!("a message is there"),
    }

    let value = recv(&rx, &mut chan, &mut board).unwrap();
    assert_eq!(value, 1);
    let guard = wait(rx_other.complete(&mut chan, &mut board, 2));
    tx.send(&mut chan, &mut board, 2).unwrap();
    assert_eq!(board.take_unparked(), vec![2]);
    let result = done(rx_other.resume(&mut chan, &mut board, 2, guard)).unwrap();
    assert_eq!(result, 2);
}

// ── disconnect ────────────────────────────────────────────────────────

#[test]
fn send_returns_err_after_all_receivers_drop() {
    let mut board = Board::new();
    let (mut chan, tx, rx) = channel::<i32>();
    let rx2 = rx.clone(&mut chan);
    rx.close(&mut chan);
    // One receiver still alive — send succeeds.
    assert!(!tx.is_closed(&chan));
    assert!(tx.send(&mut chan, &mut board, 1).is_ok());
    rx2.close(&mut chan);
    // All receivers gone — send must return Err and not leak the value.
    assert!(tx.is_closed(&chan));
    assert_eq!(tx.send(&mut chan, &mut board, 2), Err(SendError(2)));
}

// ── stress test ───────────────────────────────────────────────────────

#[test]
fn stress_concurrent_senders_receivers() {
    const SENDERS: usize = 4;
    const RECEIVERS: usize = 4;
    const MSGS_PER_SENDER: u32 = 500;
    const TOTAL: u32 = SENDERS as u32 * MSGS_PER_SENDER;

    let mut board = Board::new();
    let (mut chan, tx, rx) = channel::<u32>();
    let senders: Vec<Sender<u32>> = (0..SENDERS).map(|_| tx.clone(&mut chan)).collect();
    let receivers: Vec<Receiver<u32>> = (0..RECEIVERS).map(|_| rx.clone(&mut chan)).collect();
    tx.close(&mut chan, &mut board);

    let mut received = Vec::new();
    for i in 0..MSGS_PER_SENDER {
        for (s, sender) in senders.iter().enumerate() {
            sender.send(&mut chan, &mut board, s as u32 * MSGS_PER_SENDER + i).unwrap();
        }
        let receiver = &receivers[i as usize % RECEIVERS];
        received.push(receiver.try_recv(&mut chan).unwrap());
    }
    for sender in senders {
        sender.close(&mut chan, &mut board);
    }
    while let Ok(v) = receivers[0].try_recv(&mut chan) {
        received.push(v);
    }
    assert_eq!(rx.try_recv(&mut chan), Err(TryRecvError::Disconnected));
    received.sort();
    assert_eq!(received, (0..TOTAL).collect::<Vec<u32>>());
}

#[test]
fn unbounded_mpmc_tickets_are_reused_without_mixing_messages() {
    let mut board = Board::new();
    let (mut chan, tx, rx) = channel::<String>();
    for round in 0..10 {
        for i in 0..3 {
            tx.send(&mut chan, &mut board, format!("{}-{}", round, i)).unwrap();
        }
        assert_eq!(rx.try_recv(&mut chan), Ok(format!("{}-{}", round, 0)));
        tx.send(&mut chan, &mut board, format!("{}-{}", round, 3)).unwrap();
        for i in 1..4 {
            assert_eq!(rx.try_recv(&mut chan), Ok(format!("{}-{}", round, i)));
        }
        assert_eq!(rx.try_recv(&mut chan), Err(TryRecvError::Empty));
    }
}

#[test]
fn unbounded_mpmc_send_arm_is_always_ready() {
    let mut board = Board::new();
    let (mut chan, mut tx, rx) = channel::<i32>();
    assert!(tx.is_ready(&chan));
    for i in 0..100 {
        tx.send(&mut chan, &mut board, i).unwrap();
    }
    assert!(tx.is_ready(&chan));
    rx.close(&mut chan);
    assert!(tx.is_ready(&chan));
}
