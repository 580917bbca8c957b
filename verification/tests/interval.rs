use selectables::bounded_mpmc::Chan;
use selectables::interval::{interval, interval_at, Interval, Ticker};
use selectables::ports::Step;
use selectables::select::{Select, SelectStep};
use selectables::waiter::Board;
use selectables::{RecvError, SelectableReceiver};

const ME: u64 = 1;
const MS: u64 = 1_000_000;

fn done<R, W>(step: Step<R, W>) -> R {
    match step {
        Step::Done(r) => r,
        Step::Wait(_) => panic!("has to wait"),
    }
}

fn wait<R, W>(step: Step<R, W>) -> W {
    match step {
        Step::Done(_) => panic!("does not wait"),
        Step::Wait(w) => w,
    }
}

/// Sleeps until the ticker is due, lets it fire and reads the tick.
fn next_tick(
    iv: &Interval,
    ticker: Ticker,
    chan: &mut Chan<u64>,
    board: &mut Board,
    clock: &mut u64,
) -> (u64, Ticker) {
    let guard = wait(iv.tick(chan, board, ME));
    let guard = wait(iv.recheck(chan, board, guard));
    *clock += ticker.delay(*clock);
    let ticker = ticker.fire(chan, board, *clock).expect("the interval goes on");
    assert_eq!(board.take_unparked(), vec![ME]);
    (done(iv.resume(chan, board, ME, guard)).unwrap(), ticker)
}

/// The interval fires at least `n` ticks and the gaps between them are at least the period.
#[test]
fn interval_fires_multiple_ticks() {
    let mut board = Board::new();
    let period = 20 * MS;
    let mut clock = 5 * MS;
    let (mut chan, iv, ticker) = interval(clock, period);

    let (t0, ticker) = next_tick(&iv, ticker, &mut chan, &mut board, &mut clock);
    let (t1, ticker) = next_tick(&iv, ticker, &mut chan, &mut board, &mut clock);
    let (t2, _) = next_tick(&iv, ticker, &mut chan, &mut board, &mut clock);

    assert!(t1 >= t0, "ticks should be non-decreasing");
    assert!(t2 >= t1, "ticks should be non-decreasing");
    assert!(
        t2 - t0 >= period,
        "at least one full period should have elapsed between first and third tick"
    );
    assert_eq!((t0, t1, t2), (5 * MS, 25 * MS, 45 * MS));
}

/// The interval participates in a select: the recv arm fires before the deadline.
#[test]
fn interval_selectable() {
    let mut board = Board::new();
    let (mut chan, iv, ticker) = interval(0, 10 * MS);
    let deadline = 500 * MS;

    let mut sel: Select<Interval, Interval> = Select::new();
    let arm = iv.clone(&mut chan);
    sel.recv(arm);
    let call = match sel.select_timeout(&mut chan, &mut board, ME, 0, deadline) {
        SelectStep::Registered(call) => call,
        _ => panic!("no tick yet"),
    };
    let clock = ticker.delay(0);
    ticker.fire(&mut chan, &mut board, clock);
    assert_eq!(board.take_unparked(), vec![ME]);
    match sel.resume(&mut chan, &mut board, clock, call) {
        SelectStep::Selected(op) => assert_eq!(op.index, 0),
        _ => panic!("interval did not fire within deadline"),
    }
    let mut iv = iv;
    let tick = done(iv.complete(&mut chan, &mut board, ME));
    assert!(tick.is_ok(), "tick should be Ok");
}

/// interval_at defers the first tick until the given point in time.
#[test]
fn interval_at_defers_first_tick() {
    let mut board = Board::new();
    let delay = 30 * MS;
    let mut clock = 0;
    let start = clock + delay;
    let (mut chan, iv, ticker) = interval_at(start, 100 * MS);

    let before = clock;
    let (tick, _) = next_tick(&iv, ticker, &mut chan, &mut board, &mut clock);
    let elapsed = clock - before;

    assert!(elapsed >= delay, "first tick arrived too early");
    assert!(tick >= start, "tick should be near start");
}

/// Dropping all interval handles ends the ticker.
#[test]
fn interval_drop_stops_thread() {
    let mut board = Board::new();
    let (mut chan, iv, ticker) = interval(0, 10 * MS);
    let iv2 = iv.clone(&mut chan);
    iv.close(&mut chan, &mut board);
    let ticker = ticker.fire(&mut chan, &mut board, 0).expect("one handle is left");
    iv2.close(&mut chan, &mut board);
    assert!(ticker.fire(&mut chan, &mut board, 10 * MS).is_none());
}

/// interval_at with a materially deferred start fires ticks at the correct
/// cadence and respects the missed-tick skip policy.
#[test]
fn interval_at_full_deferred_schedule() {
    let mut board = Board::new();
    let delay = 60 * MS;
    let period = 30 * MS;
    let mut clock = 0;
    let start = clock + delay;
    let (mut chan, iv, ticker) = interval_at(start, period);

    // First tick must not arrive before `start`.
    let (t0, ticker) = next_tick(&iv, ticker, &mut chan, &mut board, &mut clock);
    assert!(t0 >= start, "first tick arrived before deferred start");

    // Subsequent ticks must each arrive at least `period` apart.
    let (t1, _) = next_tick(&iv, ticker, &mut chan, &mut board, &mut clock);
    assert!(t1 - t0 >= period, "second tick arrived too early");
}

#[test]
fn interval_discards_missed_ticks_and_keeps_its_schedule() {
    let mut board = Board::new();
    let (mut chan, iv, ticker) = interval_at(100, 10);
    assert_eq!(ticker.delay(40), 60);
    let ticker = ticker.fire(&mut chan, &mut board, 100).unwrap();
    let ticker = ticker.fire(&mut chan, &mut board, 111).unwrap(); // nobody has read the first one
    let ticker = ticker.fire(&mut chan, &mut board, 139).unwrap(); // late
    assert_eq!(ticker.delay(139), 0);
    assert_eq!(ticker.delay(125), 5); // the fourth tick is due at 130
    assert_eq!(done(iv.tick(&mut chan, &mut board, ME)), Ok(100));
    wait(iv.tick(&mut chan, &mut board, ME));
}

#[test]
fn interval_ends_at_the_end_of_time() {
    let mut board = Board::new();
    let (mut chan, iv, ticker) = interval_at(u64::MAX - 5, 10);
    assert!(ticker.fire(&mut chan, &mut board, u64::MAX - 5).is_none());
    // The tick itself was delivered; after it the interval is disconnected.
    assert_eq!(done(iv.tick(&mut chan, &mut board, ME)), Ok(u64::MAX - 5));
    assert_eq!(
        done(iv.tick(&mut chan, &mut board, ME)),
        Err(RecvError::Disconnected)
    );
}

#[test]
fn interval_ignores_early_firing() {
    let mut board = Board::new();
    let (mut chan, iv, ticker) = interval_at(100, 10);
    let ticker = ticker.fire(&mut chan, &mut board, 99).unwrap();
    assert_eq!(ticker.delay(99), 1);
    let guard = wait(iv.tick(&mut chan, &mut board, ME));
    let ticker = ticker.fire(&mut chan, &mut board, 100).unwrap();
    assert_eq!(done(iv.resume(&mut chan, &mut board, ME, guard)), Ok(100));
    assert_eq!(ticker.delay(100), 10);
}

#[test]
fn interval_with_a_start_in_the_past_fires_at_once() {
    let mut board = Board::new();
    let (mut chan, iv, ticker) = interval_at(100, 10);
    assert_eq!(ticker.delay(500), 0);
    ticker.fire(&mut chan, &mut board, 500).unwrap();
    assert_eq!(done(iv.tick(&mut chan, &mut board, ME)), Ok(500));
}
