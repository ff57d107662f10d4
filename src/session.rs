//! One subscription's lifetime: the decisions taken on each event from the
//! event source, and the trade records that leave it.
use vstd::prelude::*;
use crate::price::{calculate_price, digits_value, is_digit_text, price_text};

verus! {

/// A decoded swap log, as plain values.
pub struct SwapEvent {
    pub tx_hash: String,
    pub sender: String,
    pub recipient: String,
    pub amount0: String,
    pub amount1: String,
    /// Decimal digits of the square-root price, an integer over 2^96.
    pub sqrt_price_x96: Vec<u8>,
    pub liquidity: String,
    pub tick: i32,
}

/// The row handed to the sink for one swap.
pub struct SwapRecord {
    /// Milliseconds since the epoch at which the swap was observed.
    pub timestamp: i64,
    pub tx_hash: String,
    pub pool_address: String,
    pub sender: String,
    pub recipient: String,
    /// Decimal text of the price of token0 in token1.
    pub price: String,
    pub liquidity: String,
    pub decimals_shift: i32,
}

/// `r` is the record for swap `e` of pool `pool`, observed at `at` with shift `shift`.
pub open spec fn is_record_for(r: SwapRecord, e: SwapEvent, pool: Seq<char>, shift: i32, at: i64) -> bool {
    &&& r.timestamp == at
    &&& r.tx_hash@ == e.tx_hash@
    &&& r.pool_address@ == pool
    &&& r.sender@ == e.sender@
    &&& r.recipient@ == e.recipient@
    &&& r.price@ == price_text(digits_value(e.sqrt_price_x96@), shift as int)
    &&& r.liquidity@ == e.liquidity@
    &&& r.decimals_shift == shift
}

/// Whether bytes spell a non-negative decimal integer.
pub fn is_decimal_integer(b: &[u8]) -> (r: bool)
    ensures
        r == is_digit_text(b@),
{
    if b.len() == 0 {
        return false;
    }
    let mut i: usize = 0;
    while i < b.len()
        invariant
            0 <= i <= b@.len(),
            forall|j: int| 0 <= j < i ==> 48 <= #[trigger] b@[j] <= 57,
        decreases b@.len() - i,
    {
        if b[i] < 48 || b[i] > 57 {
            return false;
        }
        i = i + 1;
    }
    true
}

/// Assembles the record for one decoded swap, pricing it with the pool's shift.
pub fn build_record(event: &SwapEvent, pool_address: &String, decimal_diff: i32, observed_at_ms: i64) -> (r: SwapRecord)
    requires
        is_digit_text(event.sqrt_price_x96@),
    ensures
        is_record_for(r, *event, pool_address@, decimal_diff, observed_at_ms),
{
    let price = calculate_price(event.sqrt_price_x96.as_slice(), decimal_diff);
    SwapRecord {
        timestamp: observed_at_ms,
        tx_hash: event.tx_hash.clone(),
        pool_address: pool_address.clone(),
        sender: event.sender.clone(),
        recipient: event.recipient.clone(),
        price,
        liquidity: event.liquidity.clone(),
        decimals_shift: decimal_diff,
    }
}

/// Why a session ended.
#[derive(Clone, Copy, PartialEq, Eq, Structural, Debug)]
pub enum TerminationReason {
    /// The subscription could not be established.
    ConnectFailed,
    /// The event source closed the stream.
    StreamEnded,
    /// The transport failed while streaming.
    TransportError,
    /// The hand-off's consumer is gone.
    ReceiverGone,
}

#[derive(Clone, Copy, PartialEq, Eq, Structural, Debug)]
pub enum SessionState {
    Connecting,
    Streaming,
    Terminated(TerminationReason),
}

/// What the event source, or the hand-off, reports to the session.
pub enum SessionEvent {
    Connected,
    ConnectFailed,
    /// One log: `None` when its payload could not be decoded.
    Log { decoded: Option<SwapEvent>, observed_at_ms: i64 },
    HandOffClosed,
    StreamEnded,
    TransportError,
}

/// What the driver of the session does next.
pub enum SessionAction {
    /// Nothing to do: pull the next event.
    Wait,
    /// Hand this record to the pipeline.
    Forward(SwapRecord),
    /// The log was malformed and is dropped; the session goes on.
    Skip,
    /// The session is over, for this reason.
    Stop(TerminationReason),
}

/// Whether a log carries a swap the session can price.
pub open spec fn is_valid_log(decoded: Option<SwapEvent>) -> bool {
    decoded is Some && is_digit_text(decoded->Some_0.sqrt_price_x96@)
}

/// The session's next state.
pub open spec fn next_session_state(s: SessionState, e: SessionEvent) -> SessionState {
    match s {
        SessionState::Connecting => match e {
            SessionEvent::Connected => SessionState::Streaming,
            SessionEvent::ConnectFailed => SessionState::Terminated(TerminationReason::ConnectFailed),
            SessionEvent::StreamEnded => SessionState::Terminated(TerminationReason::ConnectFailed),
            SessionEvent::TransportError => SessionState::Terminated(TerminationReason::ConnectFailed),
            _ => s,
        },
        SessionState::Streaming => match e {
            SessionEvent::HandOffClosed => SessionState::Terminated(TerminationReason::ReceiverGone),
            SessionEvent::StreamEnded => SessionState::Terminated(TerminationReason::StreamEnded),
            SessionEvent::TransportError => SessionState::Terminated(TerminationReason::TransportError),
            SessionEvent::ConnectFailed => SessionState::Terminated(TerminationReason::TransportError),
            _ => s,
        },
        SessionState::Terminated(_) => s,
    }
}

/// One subscription to a pool's swap events.
pub struct SubscriptionSession {
    state: SessionState,
    pool_address: String,
    decimal_diff: i32,
}

impl SubscriptionSession {
    pub closed spec fn spec_state(&self) -> SessionState {
        self.state
    }

    pub closed spec fn spec_pool(&self) -> Seq<char> {
        self.pool_address@
    }

    pub closed spec fn spec_shift(&self) -> i32 {
        self.decimal_diff
    }

    /// A session about to connect, for pool `pool_address` with decimal shift `decimal_diff`.
    pub fn new(pool_address: String, decimal_diff: i32) -> (r: Self)
        ensures
            r.spec_state() == SessionState::Connecting,
            r.spec_pool() == pool_address@,
            r.spec_shift() == decimal_diff,
    {
        SubscriptionSession { state: SessionState::Connecting, pool_address, decimal_diff }
    }

    pub fn state(&self) -> (r: SessionState)
        ensures
            r == self.spec_state(),
    {
        self.state
    }

    /// Takes one event and says what to do. A malformed log is skipped and the
    /// session keeps streaming; a valid one becomes a record to forward; the end
    /// of the stream, a transport failure or a closed hand-off end the session.
    pub fn on_event(&mut self, event: SessionEvent) -> (r: SessionAction)
        ensures
            final(self).spec_pool() == old(self).spec_pool(),
            final(self).spec_shift() == old(self).spec_shift(),
            final(self).spec_state() == next_session_state(old(self).spec_state(), event),
            match final(self).spec_state() {
                SessionState::Terminated(reason) => old(self).spec_state() is Terminated
                    || r == SessionAction::Stop(reason),
                _ => true,
            },
            old(self).spec_state() is Terminated ==> r is Wait,
            old(self).spec_state() == SessionState::Streaming ==> match event {
                SessionEvent::Log { decoded, observed_at_ms } => if is_valid_log(decoded) {
                    &&& r is Forward
                    &&& is_record_for(
                        r->Forward_0,
                        decoded->Some_0,
                        old(self).spec_pool(),
                        old(self).spec_shift(),
                        observed_at_ms,
                    )
                } else {
                    r is Skip
                },
                SessionEvent::Connected => r is Wait,
                _ => r is Stop,
            },
            old(self).spec_state() == SessionState::Connecting ==> match event {
                SessionEvent::Connected => r is Wait,
                SessionEvent::Log { .. } => r is Wait,
                SessionEvent::HandOffClosed => r is Wait,
                _ => r is Stop,
            },
    {
        match self.state {
            SessionState::Terminated(_) => SessionAction::Wait,
            SessionState::Connecting => match event {
                SessionEvent::Connected => {
                    self.state = SessionState::Streaming;
                    SessionAction::Wait
                },
                SessionEvent::ConnectFailed | SessionEvent::StreamEnded
                | SessionEvent::TransportError => {
                    self.state = SessionState::Terminated(TerminationReason::ConnectFailed);
                    SessionAction::Stop(TerminationReason::ConnectFailed)
                },
                _ => SessionAction::Wait,
            },
            SessionState::Streaming => match event {
                SessionEvent::Log { decoded, observed_at_ms } => match decoded {
                    Some(e) => {
                        if is_decimal_integer(e.sqrt_price_x96.as_slice()) {
                            SessionAction::Forward(
                                build_record(&e, &self.pool_address, self.decimal_diff, observed_at_ms),
                            )
                        } else {
                            SessionAction::Skip
                        }
                    },
                    None => SessionAction::Skip,
                },
                SessionEvent::Connected => SessionAction::Wait,
                SessionEvent::HandOffClosed => {
                    self.state = SessionState::Terminated(TerminationReason::ReceiverGone);
                    SessionAction::Stop(TerminationReason::ReceiverGone)
                },
                SessionEvent::StreamEnded => {
                    self.state = SessionState::Terminated(TerminationReason::StreamEnded);
                    SessionAction::Stop(TerminationReason::StreamEnded)
                },
                SessionEvent::TransportError | SessionEvent::ConnectFailed => {
                    self.state = SessionState::Terminated(TerminationReason::TransportError);
                    SessionAction::Stop(TerminationReason::TransportError)
                },
            },
        }
    }
}

} // verus!
