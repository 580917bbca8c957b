use std::sync::Arc;

use selectables::ports::Step;
use selectables::select::{Select, SelectStep};
use selectables::waiter::Board;
use selectables::watch::{channel, Receiver, Sender};
use selectables::{ArmOpTrait, RecvError, SelectableReceiver, SendError};

const ME: u64 = 1;

fn done<R, W>(step: Step<R, W>) -> R {
    match step {
        Step::Done(r) => r,
        Step::Wait(_) => panic!("has to wait"),
    }
}

fn wait<R, W>(step: Step<R, W>) -> W {
    match step {
        Step::Done(_) => panic!("does not wait"),
        Step::Wait(w) => w,
    }
}

#[test]
fn watch_channel_broadcasts_changes() {
    let mut board = Board::new();
    let (mut chan, tx, rx) = channel::<i32>();
    assert!(rx.borrow(&chan).is_none());

    tx.send(&mut chan, &mut board, 42).unwrap();
    assert_eq!(rx.borrow(&chan), Some(42));

    let rx2 = rx.clone(&mut chan);
    tx.send(&mut chan, &mut board, 100).unwrap();
    assert_eq!(rx.borrow(&chan), Some(100));
    assert_eq!(rx2.borrow(&chan), Some(100));
}

#[test]
fn watch_changed_waits_for_update() {
    let mut board = Board::new();
    let (mut chan, tx, mut rx) = channel::<i32>();
    tx.send(&mut chan, &mut board, 1).unwrap();

    let change = wait(rx.changed(&mut chan, &mut board, ME));
    let change = wait(rx.recheck(&mut chan, &mut board, ME, change));
    tx.send(&mut chan, &mut board, 2).unwrap();
    assert_eq!(board.take_unparked(), vec![ME]);

    done(rx.resume(&mut chan, &mut board, ME, change)).unwrap();
    assert_eq!(rx.borrow(&chan).unwrap(), 2);
}

#[test]
fn clones_have_independent_cursors() {
    let mut board = Board::new();
    let (mut chan, tx, mut rx) = channel::<i32>();
    tx.send(&mut chan, &mut board, 1).unwrap(); // version = 1

    let mut clone = rx.clone(&mut chan);

    // is_ready() arms each receiver at the current version (establishes
    // baseline); returns false because no new change has occurred since
    // arming. The two cursors are independent.
    assert!(!rx.is_ready(&chan)); // arms rx at version 1
    assert!(!clone.is_ready(&chan)); // arms clone at version 1, independently

    tx.send(&mut chan, &mut board, 2).unwrap(); // version = 2

    // Both see version 2 > their cursor of 1.
    assert!(rx.is_ready(&chan));
    assert!(clone.is_ready(&chan));

    // Completing via rx advances only rx's cursor, not clone's.
    assert_eq!(done(rx.complete_recv(&mut chan, &mut board, ME)), Ok(()));
    assert!(!rx.is_ready(&chan)); // rx cursor now at 2
    assert!(clone.is_ready(&chan)); // clone cursor still at 1 < 2

    tx.send(&mut chan, &mut board, 3).unwrap();
    assert!(rx.is_ready(&chan));
    assert_eq!(done(rx.complete_recv(&mut chan, &mut board, ME)), Ok(()));
}

#[test]
fn send_returns_err_when_no_receivers() {
    let mut board = Board::new();
    let (mut chan, tx, rx) = channel::<i32>();
    assert!(!tx.is_closed(&chan));
    rx.close(&mut chan);
    assert!(tx.is_closed(&chan));
    assert_eq!(tx.send(&mut chan, &mut board, 42), Err(SendError(42)));
}

#[test]
fn mark_changed_returns_err_when_no_receivers_no_value() {
    // Verify mark_changed() returns Err even when no value has ever been
    // stored — guards against any future code assuming a value exists.
    let mut board = Board::new();
    let (mut chan, tx, rx) = channel::<i32>();
    rx.close(&mut chan);
    assert_eq!(tx.mark_changed(&mut chan, &mut board), Err(SendError(())));
}

#[test]
fn mark_changed_wakes_without_updating_value() {
    let mut board = Board::new();
    let (mut chan, tx, rx) = channel::<&str>();
    tx.send(&mut chan, &mut board, "initial").unwrap();

    let mut rx2 = rx.clone(&mut chan);
    let change = wait(rx2.changed(&mut chan, &mut board, ME));
    tx.mark_changed(&mut chan, &mut board).unwrap();
    assert_eq!(board.take_unparked(), vec![ME]);
    done(rx2.resume(&mut chan, &mut board, ME, change)).unwrap();

    // The value is still "initial" — not updated
    assert_eq!(rx2.borrow_arc(&chan).map(|a| *a), Some("initial"));
    assert_eq!(rx.borrow(&chan), Some("initial"));

    // Returns Err when all receivers dropped
    rx2.close(&mut chan);
    rx.close(&mut chan);
    assert_eq!(tx.mark_changed(&mut chan, &mut board), Err(SendError(())));
}

#[test]
fn multiple_receivers_all_wake_on_change() {
    let mut board = Board::new();
    let (mut chan, tx, mut rx1) = channel::<i32>();
    tx.send(&mut chan, &mut board, 0).unwrap(); // establish baseline

    let mut rx2 = rx1.clone(&mut chan);
    let mut rx3 = rx1.clone(&mut chan);

    let c1 = wait(rx1.changed(&mut chan, &mut board, 1));
    let c2 = wait(rx2.changed(&mut chan, &mut board, 2));
    let c3 = wait(rx3.changed(&mut chan, &mut board, 3));

    tx.send(&mut chan, &mut board, 1).unwrap();
    assert_eq!(board.take_unparked(), vec![1, 2, 3]);

    // All three should wake with Ok(()).
    assert_eq!(done(rx1.resume(&mut chan, &mut board, 1, c1)), Ok(()));
    assert_eq!(done(rx2.resume(&mut chan, &mut board, 2, c2)), Ok(()));
    assert_eq!(done(rx3.resume(&mut chan, &mut board, 3, c3)), Ok(()));
}

#[test]
fn changed_returns_err_when_sender_drops() {
    let mut board = Board::new();
    let (mut chan, tx, mut rx) = channel::<i32>();
    tx.send(&mut chan, &mut board, 1).unwrap();

    let change = wait(rx.changed(&mut chan, &mut board, ME));
    tx.close(&mut chan, &mut board);
    assert_eq!(board.take_unparked(), vec![ME]);
    assert_eq!(
        done(rx.recheck(&mut chan, &mut board, ME, change)),
        Err(RecvError::Disconnected)
    );
}

#[test]
fn multi_receiver_all_detect_sender_disconnect() {
    const N: u64 = 4;
    let mut board = Board::new();
    let (mut chan, tx, rx) = channel::<i32>();
    tx.send(&mut chan, &mut board, 0).unwrap(); // establish a baseline version

    let mut waiting = Vec::new();
    for thread in 0..N {
        let mut rx_clone = rx.clone(&mut chan);
        let change = wait(rx_clone.changed(&mut chan, &mut board, thread));
        waiting.push((rx_clone, thread, change));
    }

    tx.close(&mut chan, &mut board);
    assert_eq!(board.take_unparked(), vec![0, 1, 2, 3]);

    for (mut rx_clone, thread, change) in waiting {
        assert_eq!(
            done(rx_clone.resume(&mut chan, &mut board, thread, change)),
            Err(RecvError::Disconnected)
        );
    }
}

#[test]
fn borrow_reflects_latest_send_immediately() {
    let mut board = Board::new();
    let (mut chan, tx, rx) = channel::<i32>();
    assert!(rx.borrow(&chan).is_none());

    tx.send(&mut chan, &mut board, 7).unwrap();
    assert_eq!(rx.borrow(&chan), Some(7));

    tx.send(&mut chan, &mut board, 8).unwrap();
    assert_eq!(rx.borrow(&chan), Some(8));
}

#[test]
fn borrow_arc_reflects_latest_send_immediately() {
    let mut board = Board::new();
    let (mut chan, tx, rx) = channel::<i32>();
    assert!(rx.borrow_arc(&chan).is_none());

    tx.send(&mut chan, &mut board, 7).unwrap();
    assert_eq!(*rx.borrow_arc(&chan).unwrap(), 7);

    tx.send(&mut chan, &mut board, 8).unwrap();
    assert_eq!(*rx.borrow_arc(&chan).unwrap(), 8);
}

#[test]
fn is_closed_reflects_sender_liveness() {
    let mut board = Board::new();
    let (mut chan, tx, rx) = channel::<i32>();
    assert!(!rx.is_closed(&chan));
    let tx2 = tx.clone(&mut chan);
    tx.close(&mut chan, &mut board);
    assert!(!rx.is_closed(&chan)); // tx2 still alive
    tx2.close(&mut chan, &mut board);
    assert!(rx.is_closed(&chan));
}

#[test]
fn rapid_sends_borrow_shows_latest() {
    let mut board = Board::new();
    let (mut chan, tx, rx) = channel::<u32>();
    for i in 0..100u32 {
        tx.send(&mut chan, &mut board, i).unwrap();
    }
    // borrow() returns the most recently sent value.
    assert_eq!(rx.borrow(&chan), Some(99));
}

#[test]
fn select_recv_arm_fires_on_change() {
    let mut board = Board::new();
    let (mut chan, tx, mut rx) = channel::<i32>();
    tx.send(&mut chan, &mut board, 1).unwrap(); // prime the baseline

    let mut sel: Select<Receiver<i32>, Sender<i32>> = Select::new();
    sel.recv(rx.clone(&mut chan));
    let call = match sel.select_timeout(&mut chan, &mut board, ME, 0, 200_000_000) {
        SelectStep::Registered(call) => call,
        _ => panic!("no change yet"),
    };
    tx.send(&mut chan, &mut board, 2).unwrap();
    assert_eq!(board.take_unparked(), vec![ME]);
    // Fires when the watch version changes.
    match sel.resume(&mut chan, &mut board, 15_000_000, call) {
        SelectStep::Selected(op) => assert_eq!(op.index, 0),
        _ => panic!("timeout"),
    }
    assert_eq!(done(rx.complete_recv(&mut chan, &mut board, ME)), Ok(()));
}

#[test]
fn multiple_senders_last_write_wins() {
    let mut board = Board::new();
    let (mut chan, tx1, rx) = channel::<i32>();
    let tx2 = tx1.clone(&mut chan);

    tx1.send(&mut chan, &mut board, 10).unwrap();
    tx2.send(&mut chan, &mut board, 20).unwrap();

    // Last write wins; only 20 is visible.
    assert_eq!(rx.borrow(&chan), Some(20));
}

#[test]
fn sender_clone_extends_liveness() {
    let mut board = Board::new();
    let (mut chan, tx1, mut rx) = channel::<i32>();
    let tx2 = tx1.clone(&mut chan);

    tx1.close(&mut chan, &mut board);
    // rx should not observe disconnect yet — tx2 is still alive.
    assert!(!rx.is_closed(&chan));
    assert!(!tx2.is_closed(&chan));

    tx2.send(&mut chan, &mut board, 42).unwrap();
    assert_eq!(rx.borrow(&chan), Some(42));

    tx2.close(&mut chan, &mut board);
    assert!(rx.is_closed(&chan));
    assert_eq!(
        done(rx.changed(&mut chan, &mut board, ME)),
        Err(RecvError::Disconnected)
    );
}

#[test]
fn watch_snapshots_are_shared_and_survive_later_sends() {
    let mut board = Board::new();
    let (mut chan, tx, rx) = channel::<String>();
    tx.send(&mut chan, &mut board, "one".to_string()).unwrap();
    let a = rx.borrow_arc(&chan).unwrap();
    let b = rx.borrow_arc(&chan).unwrap();
    assert!(Arc::ptr_eq(&a, &b));
    tx.send(&mut chan, &mut board, "two".to_string()).unwrap();
    assert_eq!(*a, "one");
    assert_eq!(rx.borrow(&chan), Some("two".to_string()));
}

#[test]
fn watch_changed_skips_changes_before_the_call() {
    let mut board = Board::new();
    let (mut chan, tx, mut rx) = channel::<i32>();
    assert!(!rx.is_ready(&chan)); // the cursor stands at the current version
    tx.send(&mut chan, &mut board, 1).unwrap();
    assert!(rx.is_ready(&chan));
    let change = wait(rx.changed(&mut chan, &mut board, ME));
    tx.mark_changed(&mut chan, &mut board).unwrap();
    assert_eq!(done(rx.recheck(&mut chan, &mut board, ME, change)), Ok(()));
    assert!(!rx.is_ready(&chan));
}

#[test]
fn watch_reports_a_change_before_the_disconnection() {
    let mut board = Board::new();
    let (mut chan, tx, mut rx) = channel::<i32>();
    let change = wait(rx.changed(&mut chan, &mut board, ME));
    tx.send(&mut chan, &mut board, 1).unwrap();
    tx.close(&mut chan, &mut board);
    assert_eq!(done(rx.resume(&mut chan, &mut board, ME, change)), Ok(()));
    assert!(rx.is_ready(&chan));
    assert_eq!(
        done(rx.complete(&mut chan, &mut board, ME)),
        Err(RecvError::Disconnected)
    );
}

#[test]
fn watch_hands_out_what_was_replaced() {
    let mut board = Board::new();
    let (mut chan, tx, rx) = channel::<i32>();
    assert_eq!(tx.send_replacing(&mut chan, &mut board, 1), Ok(None));
    assert_eq!(tx.send_replacing(&mut chan, &mut board, 2), Ok(Some(Arc::new(1))));
    assert_eq!(rx.borrow(&chan), Some(2));
    rx.close(&mut chan);
    assert_eq!(tx.send_replacing(&mut chan, &mut board, 3), Err(SendError(3)));
}
