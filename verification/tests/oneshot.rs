use selectables::oneshot::{channel, Chan, Receiver};
use selectables::ports::Step;
use selectables::select::{Select, SelectStep};
use selectables::unbounded_mpmc;
use selectables::waiter::Board;
use selectables::worlds::Side;
use selectables::{ArmOpTrait, RecvError, SelectableReceiver, SendError, TryRecvError};

const ME: u64 = 1;

fn done<R, W>(step: Step<R, W>) -> R {
    match step {
        Step::Done(r) => r,
        Step::Wait(_) => panic!("has to wait"),
    }
}

fn wait<R, W>(step: Step<R, W>) -> W {
    match step {
        Step::Done(_) => panic!("does not wait"),
        Step::Wait(w) => w,
    }
}

fn recv<T>(rx: &Receiver<T>, chan: &mut Chan<T>, board: &mut Board) -> Result<T, RecvError> {
    done(rx.recv(chan, board, ME))
}

#[test]
fn oneshot_basic_send_recv() {
    let mut board = Board::new();
    let (mut chan, tx, rx) = channel();
    tx.send(&mut chan, &mut board, 42).unwrap();
    assert_eq!(recv(&rx, &mut chan, &mut board), Ok(42));
}

#[test]
fn try_recv_empty_then_value() {
    let mut board = Board::new();
    let (mut chan, tx, rx) = channel();
    assert_eq!(rx.try_recv(&mut chan), Err(TryRecvError::Empty));
    tx.send(&mut chan, &mut board, 7).unwrap();
    assert_eq!(rx.try_recv(&mut chan), Ok(7));
}

#[test]
fn sender_drop_disconnects_receiver() {
    let mut board = Board::new();
    let (mut chan, tx, rx) = channel::<i32>();
    tx.close(&mut chan, &mut board);
    assert_eq!(recv(&rx, &mut chan, &mut board), Err(RecvError::Disconnected));
}

#[test]
fn oneshot_receiver_drop_causes_send_error() {
    let mut board = Board::new();
    let (mut chan, tx, rx) = channel::<i32>();
    assert!(!tx.is_closed(&chan));
    rx.close(&mut chan);
    assert!(tx.is_closed(&chan));
    assert_eq!(tx.send(&mut chan, &mut board, 10), Err(SendError(10)));
}

#[test]
fn single_delivery_across_clones() {
    let mut board = Board::new();
    let (mut chan, tx, rx) = channel();
    let rx2 = rx.clone(&mut chan);
    tx.send(&mut chan, &mut board, 11).unwrap();

    let a = rx.try_recv(&mut chan);
    let b = rx2.try_recv(&mut chan);

    assert!(matches!(a, Ok(11)) || matches!(b, Ok(11)));
    assert!(
        matches!(a, Err(TryRecvError::Disconnected))
            || matches!(b, Err(TryRecvError::Disconnected))
    );
}

#[test]
fn select_with_default_timeout_and_mixed_arms() {
    let mut board = Board::new();
    let (mut ochan, otx, orx) = channel::<&str>();
    let (mut chan, tx, rx) = unbounded_mpmc::channel::<i32>();

    type Arm = Side<Receiver<&'static str>, unbounded_mpmc::Receiver<i32>>;
    let mut sel: Select<Arm, Arm> = Select::new();
    let o = sel.recv(Side::First(orx.clone(&mut ochan)));
    sel.recv(Side::Second(rx.clone(&mut chan)));
    let mut world = (ochan, chan);
    assert!(sel.try_select(&mut world, &mut board).is_none());

    let call = match sel.select(&mut world, &mut board, ME) {
        SelectStep::Registered(call) => call,
        _ => panic!("nothing is ready yet"),
    };
    otx.send(&mut world.0, &mut board, "done").unwrap();
    let _ = tx.send(&mut world.1, &mut board, 1);
    assert_eq!(board.take_unparked(), vec![ME]);
    match sel.resume(&mut world, &mut board, 0, call) {
        SelectStep::Selected(op) => assert_eq!(op.index, o),
        _ => panic!("oneshot should win this race"),
    }
    assert_eq!(done(orx.complete_recv(&mut world.0, &mut board, ME)), Ok("done"));
}

#[test]
fn blocking_recv_waits_for_send() {
    let mut board = Board::new();
    let (mut chan, tx, rx) = channel::<i32>();
    let guard = wait(rx.recv(&mut chan, &mut board, ME));
    let guard = wait(rx.recheck(&mut chan, &mut board, guard));
    tx.send(&mut chan, &mut board, 77).unwrap();
    assert_eq!(board.take_unparked(), vec![ME]);
    assert_eq!(done(rx.resume(&mut chan, &mut board, ME, guard)).unwrap(), 77);
}

#[test]
fn try_recv_disconnected_after_delivery() {
    let mut board = Board::new();
    let (mut chan, tx, rx) = channel::<i32>();
    tx.send(&mut chan, &mut board, 42).unwrap();
    assert_eq!(rx.try_recv(&mut chan), Ok(42));
    // After the value was taken the sender end is gone too; Disconnected.
    assert_eq!(rx.try_recv(&mut chan), Err(TryRecvError::Disconnected));
}

#[test]
fn is_ready_reflects_state() {
    let mut board = Board::new();
    let (mut chan, tx, mut rx) = channel::<i32>();
    assert!(!rx.is_ready(&chan));
    tx.send(&mut chan, &mut board, 1).unwrap();
    assert!(rx.is_ready(&chan));
    done(rx.complete_recv(&mut chan, &mut board, ME)).unwrap();
    // After delivery the value is gone and sender is consumed: disconnected, so ready.
    assert!(rx.is_ready(&chan));
}

#[test]
fn complete_recv_blocks_if_not_yet_sent() {
    let mut board = Board::new();
    let (mut chan, tx, mut rx) = channel::<i32>();
    let guard = wait(rx.complete(&mut chan, &mut board, ME));
    tx.send(&mut chan, &mut board, 5).unwrap();
    assert_eq!(done(rx.recheck(&mut chan, &mut board, guard)).unwrap(), 5);
}

#[test]
fn oneshot_blocked_clones_are_all_woken() {
    let mut board = Board::new();
    let (mut chan, tx, rx) = channel::<i32>();
    let rx2 = rx.clone(&mut chan);
    let g1 = wait(rx.recv(&mut chan, &mut board, 1));
    let g2 = wait(rx2.recv(&mut chan, &mut board, 2));
    tx.send(&mut chan, &mut board, 5).unwrap();
    assert_eq!(board.take_unparked(), vec![1, 2]);
    assert_eq!(done(rx2.resume(&mut chan, &mut board, 2, g2)), Ok(5));
    assert_eq!(
        done(rx.resume(&mut chan, &mut board, 1, g1)),
        Err(RecvError::Disconnected)
    );
}

#[test]
fn oneshot_failed_send_disconnects_for_good() {
    let mut board = Board::new();
    let (mut chan, tx, rx) = channel::<i32>();
    let guard = wait(rx.recv(&mut chan, &mut board, ME));
    rx.close(&mut chan);
    assert_eq!(tx.send(&mut chan, &mut board, 3), Err(SendError(3)));
    assert_eq!(board.take_unparked(), vec![ME]);
    // Waking a plain receive leaves its cell unclaimed.
    assert_eq!(board.load(guard.marker()), Some(selectables::waiter::UNSELECTED));
}
