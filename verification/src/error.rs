//! Error types.
use vstd::prelude::*;
use vstd::string::StringExecFns;

verus! {

/// Why a blocking receive failed.
#[derive(Debug, Clone, Copy, PartialEq, Eq, Structural)]
pub enum RecvError {
    /// All senders are gone and nothing is left to receive.
    Disconnected,
    /// Only for broadcast channels: the receiver fell behind and missed `skipped` messages. Its
    /// cursor has moved to the oldest message that is still available.
    Lagged { skipped: usize },
}

/// Why a non-blocking receive returned no message.
#[derive(Debug, Clone, Copy, PartialEq, Eq, Structural)]
pub enum TryRecvError {
    /// There is nothing to receive right now, but senders are still connected.
    Empty,
    /// All senders are gone and nothing is left to receive.
    Disconnected,
    /// Only for broadcast channels: the receiver fell behind and missed `skipped` messages. Its
    /// cursor has moved to the oldest message that is still available.
    Lagged { skipped: usize },
}

/// A send that failed; hands the value back.
#[derive(Debug, Clone, PartialEq, Eq)]
pub struct SendError<T>(pub T);

// ── Decimal numbers ──────────────────────────────────────────────────────────
/// The character of one decimal digit.
pub open spec fn digit(d: nat) -> char {
    "0123456789"@[d as int]
}

/// The decimal notation of `n`, without leading zeros.
pub open spec fn decimal(n: nat) -> Seq<char>
    decreases n,
{
    if n < 10 {
        seq![digit(n)]
    } else {
        decimal(n / 10).push(digit(n % 10))
    }
}

fn digit_text(d: usize) -> (r: &'static str)
    requires
        d < 10,
    ensures
        r@ == seq![digit(d as nat)],
{
    proof {
        reveal_strlit("0123456789");
        reveal_strlit("0");
        reveal_strlit("1");
        reveal_strlit("2");
        reveal_strlit("3");
        reveal_strlit("4");
        reveal_strlit("5");
        reveal_strlit("6");
        reveal_strlit("7");
        reveal_strlit("8");
        reveal_strlit("9");
    }
    let r: &'static str = match d {
        0 => "0",
        1 => "1",
        2 => "2",
        3 => "3",
        4 => "4",
        5 => "5",
        6 => "6",
        7 => "7",
        8 => "8",
        _ => "9",
    };
    assert(r@ =~= seq![digit(d as nat)]);
    r
}

fn decimal_text(n: usize) -> (r: String)
    ensures
        r@ == decimal(n as nat),
    decreases n,
{
    let mut r: String = if n < 10 {
        String::new()
    } else {
        decimal_text(n / 10)
    };
    let ghost head = r@;
    r.append(digit_text(n % 10));
    assert(r@ =~= head.push(digit((n % 10) as nat)));
    assert(seq![digit(n as nat)] =~= Seq::<char>::empty().push(digit(n as nat)));
    r
}

// ── Messages ─────────────────────────────────────────────────────────────────
/// What is said of a receiver that missed `skipped` messages.
pub open spec fn lagged_message(skipped: nat) -> Seq<char> {
    "receiver lagged and missed "@ + decimal(skipped) + " messages"@
}

fn lagged_text(skipped: usize) -> (r: String)
    ensures
        r@ == lagged_message(skipped as nat),
{
    let mut r: String = "receiver lagged and missed ".to_owned();
    r.append(decimal_text(skipped).as_str());
    r.append(" messages");
    r
}

impl RecvError {
    /// A description of the error for people.
    pub fn message(&self) -> (r: String)
        ensures
            r@ == match *self {
                RecvError::Disconnected => "receive on a disconnected channel"@,
                RecvError::Lagged { skipped } => lagged_message(skipped as nat),
            },
    {
        match *self {
            RecvError::Disconnected => "receive on a disconnected channel".to_owned(),
            RecvError::Lagged { skipped } => lagged_text(skipped),
        }
    }
}

impl TryRecvError {
    /// A description of the error for people.
    pub fn message(&self) -> (r: String)
        ensures
            r@ == match *self {
                TryRecvError::Empty => "channel is empty"@,
                TryRecvError::Disconnected => "receive on a disconnected channel"@,
                TryRecvError::Lagged { skipped } => lagged_message(skipped as nat),
            },
    {
        match *self {
            TryRecvError::Empty => "channel is empty".to_owned(),
            TryRecvError::Disconnected => "receive on a disconnected channel".to_owned(),
            TryRecvError::Lagged { skipped } => lagged_text(skipped),
        }
    }
}

/// The text that `core::fmt::Debug` gives for `value`, made by `format!`.
///
/// Nothing is claimed of the text: it is up to the value's own impl.
#[verifier::external_body]
fn debug_text<T: core::fmt::Debug>(value: &T) -> (r: String) {
    format!("{:?}", value)
}

/// The text is one that `core::fmt::Debug` may give for the value.
pub closed spec fn shown_as<T: core::fmt::Debug>(value: T, text: Seq<char>) -> bool {
    exists|shown: String|
        #[trigger] call_ensures(debug_text::<T>, (&value,), shown) && shown@ == text
}

impl<T> SendError<T> {
    /// A description of the error for people, given the text that stands for the value.
    pub fn message_with(&self, shown: &str) -> (r: String)
        ensures
            r@ == "send on a disconnected channel: "@ + shown@,
    {
        let mut r: String = "send on a disconnected channel: ".to_owned();
        r.append(shown);
        r
    }
}

impl<T: core::fmt::Debug> SendError<T> {
    /// A description of the error for people, with the value in its debug notation.
    pub fn message(&self) -> (r: String)
        ensures
            "send on a disconnected channel: "@.is_prefix_of(r@),
            shown_as(self.0, r@.skip("send on a disconnected channel: "@.len() as int)),
    {
        let show = debug_text::<T>;
        let shown = show(&self.0);
        let r = self.message_with(shown.as_str());
        assert(r@.skip("send on a disconnected channel: "@.len() as int) =~= shown@);
        assert("send on a disconnected channel: "@ =~= r@.take(
            "send on a disconnected channel: "@.len() as int,
        ));
        r
    }
}

// ── Laws ─────────────────────────────────────────────────────────────────────
/// The number that a text of decimal digits stands for.
pub open spec fn value_of(text: Seq<char>) -> int
    decreases text.len(),
{
    if text.len() == 0 {
        0
    } else {
        10 * value_of(text.drop_last()) + (text.last() as int - '0' as int)
    }
}

/// The decimal notation of a number is made of digits, has no leading zero but for zero itself, and
/// stands for that number.
pub proof fn law_decimal_reads_back(n: nat)
    ensures
        value_of(decimal(n)) == n,
        decimal(n).len() > 0,
        n > 0 ==> decimal(n)[0] != '0',
        n == 0 ==> decimal(n).len() == 1,
        forall|i: int|
            0 <= i < decimal(n).len() ==> '0' as int <= #[trigger] decimal(n)[i] as int
                <= '9' as int,
    decreases n,
{
    reveal_strlit("0123456789");
    reveal_with_fuel(value_of, 2);
    if n >= 10 {
        law_decimal_reads_back(n / 10);
        let init = decimal(n / 10);
        assert(decimal(n).drop_last() =~= init);
        assert(decimal(n)[0] == init[0]);
        assert forall|i: int| 0 <= i < decimal(n).len() implies '0' as int <= #[trigger] decimal(
            n,
        )[i] as int <= '9' as int by {
            if i < init.len() {
                assert(decimal(n)[i] == init[i]);
            }
        }
    } else {
        assert(decimal(n).drop_last() =~= Seq::<char>::empty());
    }
}

/// A text shown for a value is a whole text that formatting the value may give, not a part of one.
proof fn law_shown_text_is_whole<T: core::fmt::Debug>(value: T, text: Seq<char>)
    requires
        shown_as(value, text),
    ensures
        exists|shown: String|
            #[trigger] call_ensures(debug_text::<T>, (&value,), shown) && shown@ == text,
{
}

/// The message about a lag names the number of missed messages between its fixed words.
pub proof fn law_lag_message_names_the_count(skipped: nat)
    ensures
        ({
            let head = "receiver lagged and missed "@;
            let tail = " messages"@;
            let text = lagged_message(skipped);
            &&& text.len() == head.len() + decimal(skipped).len() + tail.len()
            &&& text.take(head.len() as int) == head
            &&& text.skip(text.len() - tail.len()) == tail
            &&& value_of(text.subrange(head.len() as int, text.len() - tail.len())) == skipped
        }),
{
    let head = "receiver lagged and missed "@;
    let tail = " messages"@;
    let text = lagged_message(skipped);
    assert(text.take(head.len() as int) =~= head);
    assert(text.skip(text.len() - tail.len()) =~= tail);
    assert(text.subrange(head.len() as int, text.len() - tail.len()) =~= decimal(skipped));
    law_decimal_reads_back(skipped);
}

} // verus!
