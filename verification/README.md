# selectables

Channels with a unified selection model, verified with [Verus](https://github.com/verus-lang/verus).

| Module | Channel |
|---|---|
| `unbounded_mpmc` | unbounded, multi-producer, multi-consumer |
| `bounded_mpmc` | bounded, multi-producer, multi-consumer |
| `unbounded_mpsc` | unbounded, multi-producer, single-consumer |
| `bounded_mpsc` | bounded, multi-producer, single-consumer; one-time timers |
| `rendezvous` | synchronous handoff without a buffer |
| `bounded_broadcast` | every receiver gets every message, with lag detection |
| `watch` | the latest value, with change notifications |
| `oneshot` | a single message |
| `interval` | a repeating timer as a receiver |

`select` chooses among receives and sends on any of them.

## Layout

- `src/` is the verified library. Channels are plain values; blocking operations are sequences of
  steps, and wake-ups are entries in the log of a `waiter::Board`. Every operation has a contract
  over the contents of the channel (`BufferView` and its like) and of the board (`BoardView`). The
  functions whose name begins with `law_` state what holds of several operations together.
- `app/` is the threaded face of the library: handles that can be shared, blocking calls, timers
  and the `select!` macro. It locks, takes the library's steps, parks and unparks threads, and
  reads the clock.
- `tests/` runs the library on concrete values.

The containers from outside are `crossbeam_queue::SegQueue`, which carries the tickets of the
messages in unbounded channels, and `arc_swap::ArcSwapOption`, which holds the ticket of a single
message. What is relied upon of them stands in `src/tickets.rs`.
