use swap_indexer::price::calculate_price;
use swap_indexer::session::{
    build_record, is_decimal_integer, SessionAction, SessionEvent, SessionState, SubscriptionSession, SwapEvent,
    TerminationReason,
};

const Q96: &str = "79228162514264337593543950336";

fn swap(tx: &str, sqrt: &str) -> SwapEvent {
    SwapEvent {
        tx_hash: tx.to_string(),
        sender: "0xaaaa".to_string(),
        recipient: "0xbbbb".to_string(),
        amount0: "-5".to_string(),
        amount1: "7".to_string(),
        sqrt_price_x96: sqrt.as_bytes().to_vec(),
        liquidity: "340282366920938463463374607431768211455".to_string(),
        tick: -887272,
    }
}

fn streaming(pool: &str, shift: i32) -> SubscriptionSession {
    let mut s = SubscriptionSession::new(pool.to_string(), shift);
    assert!(matches!(s.on_event(SessionEvent::Connected), SessionAction::Wait));
    assert_eq!(s.state(), SessionState::Streaming);
    s
}

#[test]
fn record_carries_the_swap_fields() {
    let r = build_record(&swap("0x01", Q96), &"0xpool".to_string(), -2, 1_700_000_000_000);
    assert_eq!(r.timestamp, 1_700_000_000_000);
    assert_eq!(r.tx_hash, "0x01");
    assert_eq!(r.pool_address, "0xpool");
    assert_eq!(r.sender, "0xaaaa");
    assert_eq!(r.recipient, "0xbbbb");
    assert_eq!(r.liquidity, "340282366920938463463374607431768211455");
    assert_eq!(r.decimals_shift, -2);
    assert_eq!(r.price, calculate_price(Q96.as_bytes(), -2));
}

#[test]
fn malformed_log_mid_stream_is_skipped() {
    let mut s = streaming("0xpool", 12);
    let a = s.on_event(SessionEvent::Log { decoded: Some(swap("0x01", Q96)), observed_at_ms: 1 });
    assert!(matches!(a, SessionAction::Forward(ref r) if r.tx_hash == "0x01"));
    let b = s.on_event(SessionEvent::Log { decoded: None, observed_at_ms: 2 });
    assert!(matches!(b, SessionAction::Skip));
    let c = s.on_event(SessionEvent::Log { decoded: Some(swap("0x02", "12x")), observed_at_ms: 3 });
    assert!(matches!(c, SessionAction::Skip));
    assert_eq!(s.state(), SessionState::Streaming);
    let d = s.on_event(SessionEvent::Log { decoded: Some(swap("0x03", Q96)), observed_at_ms: 4 });
    match d {
        SessionAction::Forward(r) => {
            assert_eq!(r.tx_hash, "0x03");
            assert_eq!(r.timestamp, 4);
            assert_eq!(r.pool_address, "0xpool");
            assert_eq!(r.decimals_shift, 12);
        }
        _ => panic!("valid log after a malformed one must be forwarded"),
    }
}

#[test]
fn stream_end_terminates() {
    let mut s = streaming("0xpool", 0);
    assert!(matches!(s.on_event(SessionEvent::StreamEnded), SessionAction::Stop(TerminationReason::StreamEnded)));
    assert_eq!(s.state(), SessionState::Terminated(TerminationReason::StreamEnded));
    let after = s.on_event(SessionEvent::Log { decoded: Some(swap("0x09", Q96)), observed_at_ms: 9 });
    assert!(matches!(after, SessionAction::Wait));
}

#[test]
fn transport_error_terminates() {
    let mut s = streaming("0xpool", 0);
    assert!(matches!(
        s.on_event(SessionEvent::TransportError),
        SessionAction::Stop(TerminationReason::TransportError)
    ));
}

#[test]
fn closed_hand_off_terminates() {
    let mut s = streaming("0xpool", 0);
    assert!(matches!(s.on_event(SessionEvent::HandOffClosed), SessionAction::Stop(TerminationReason::ReceiverGone)));
    assert_eq!(s.state(), SessionState::Terminated(TerminationReason::ReceiverGone));
}

#[test]
fn failed_connect_terminates() {
    let mut s = SubscriptionSession::new("0xpool".to_string(), 0);
    assert!(matches!(s.on_event(SessionEvent::ConnectFailed), SessionAction::Stop(TerminationReason::ConnectFailed)));
}

#[test]
fn decimal_integer_check() {
    assert!(is_decimal_integer(b"0"));
    assert!(is_decimal_integer(b"0123456789"));
    assert!(!is_decimal_integer(b""));
    assert!(!is_decimal_integer(b"-1"));
    assert!(!is_decimal_integer(b"1.5"));
}
