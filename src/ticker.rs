//! The scrolling footer ticker, derived from the frame counter alone.
use vstd::prelude::*;
use vstd::string::*;

verus! {

/// Length of the ticker message in characters.
pub const TICKER_LEN: usize = 59;

/// The message that scrolls along the footer.
pub open spec fn ticker_message() -> Seq<char> {
    " [Q] QUIT | NEXUS NETWORK PROVER | ALL SYSTEMS OPERATIONAL "@
}

/// Where the text starts at frame `tick` for a message of `len` characters:
/// one character further every two frames.
pub open spec fn scroll_offset(tick: int, len: int) -> int
    recommends
        len > 0,
{
    (tick / 2) % len
}

/// The ticker text at frame `tick`: three copies of the message, from the
/// scroll offset on; empty should the offset pass their end.
pub open spec fn ticker_view(tick: int) -> Seq<char> {
    let full = ticker_message() + ticker_message() + ticker_message();
    let start = scroll_offset(tick, TICKER_LEN as int);
    if full.len() > start {
        full.skip(start)
    } else {
        Seq::empty()
    }
}

/// The ticker starts at its first character and comes back to it every
/// `2 * len` frames.
pub proof fn lemma_ticker_periodic(tick: int, len: int)
    requires
        tick >= 0,
        len > 0,
    ensures
        scroll_offset(0, len) == 0,
        scroll_offset(tick + 2 * len, len) == scroll_offset(tick, len),
        scroll_offset(2 * len, len) == 0,
{
    assert((tick + 2 * len) / 2 == tick / 2 + len) by (nonlinear_arith)
        requires
            tick >= 0,
            len > 0,
    ;
    vstd::arithmetic::div_mod::lemma_mod_add_multiples_vanish(tick / 2, len);
    assert((2 * len) / 2 == len) by (nonlinear_arith);
    vstd::arithmetic::div_mod::lemma_mod_self_0(len);
    vstd::arithmetic::div_mod::lemma_small_mod(0, len as nat);
}

/// The scroll offset of the ticker at frame `tick`.
pub fn ticker_offset(tick: usize) -> (r: usize)
    ensures
        r as int == scroll_offset(tick as int, TICKER_LEN as int),
{
    (tick / 2) % TICKER_LEN
}

/// The ticker text shown at frame `tick`.
pub fn ticker_text(tick: usize) -> (r: String)
    ensures
        r@ == ticker_view(tick as int),
{
    let base = " [Q] QUIT | NEXUS NETWORK PROVER | ALL SYSTEMS OPERATIONAL ";
    proof {
        reveal_strlit(" [Q] QUIT | NEXUS NETWORK PROVER | ALL SYSTEMS OPERATIONAL ");
    }
    assert(base@.len() == TICKER_LEN);
    let mut full = String::from_str(base);
    full.append(base);
    full.append(base);
    let text_len: usize = 3 * TICKER_LEN;
    let start = ticker_offset(tick);
    if text_len > start {
        let shown = full.as_str().substring_char(start, text_len);
        assert(shown@ =~= ticker_view(tick as int));
        String::from_str(shown)
    } else {
        String::new()
    }
}

} // verus!
