use prover_dashboard::ticker::{ticker_offset, ticker_text, TICKER_LEN};

const BASE: &str = " [Q] QUIT | NEXUS NETWORK PROVER | ALL SYSTEMS OPERATIONAL ";

#[test]
fn ticker_starts_at_zero() {
    assert_eq!(ticker_offset(0), 0);
    assert_eq!(ticker_text(0), BASE.repeat(3));
}

#[test]
fn ticker_wraps_after_two_lengths() {
    assert_eq!(BASE.len(), TICKER_LEN);
    assert_eq!(ticker_offset(2 * TICKER_LEN), 0);
    assert_eq!(ticker_offset(2 * TICKER_LEN + 7), ticker_offset(7));
}

#[test]
fn ticker_advances_every_two_ticks() {
    assert_eq!(ticker_offset(1), 0);
    assert_eq!(ticker_offset(2), 1);
    assert_eq!(ticker_offset(5), 2);
    assert_eq!(ticker_text(2), BASE.repeat(3)[1..].to_string());
    assert_eq!(ticker_offset(2 * TICKER_LEN - 1), TICKER_LEN - 1);
}
