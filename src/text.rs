//! Byte-level text helpers and the log line clean-up rules.
use vstd::prelude::*;
use vstd::string::*;
use vstd::utf8::*;

verus! {

/// `pat` occurs in `hay` starting at byte `i`.
pub open spec fn occurs_at(hay: Seq<u8>, pat: Seq<u8>, i: int) -> bool {
    0 <= i && i + pat.len() <= hay.len() && hay.subrange(i, i + pat.len()) == pat
}

/// `pat` occurs somewhere in `hay` (the meaning of `str::contains` on UTF-8 bytes).
pub open spec fn contains_bytes(hay: Seq<u8>, pat: Seq<u8>) -> bool {
    exists|i: int| occurs_at(hay, pat, i)
}

/// The text `s` holds `marker` as a substring of its UTF-8 encoding.
pub open spec fn mentions(s: Seq<char>, marker: Seq<char>) -> bool {
    contains_bytes(encode_utf8(s), encode_utf8(marker))
}

fn occurs_at_exec(hay: &[u8], pat: &[u8], i: usize) -> (r: bool)
    requires
        i + pat@.len() <= hay@.len(),
    ensures
        r == occurs_at(hay@, pat@, i as int),
{
    let n = hay.len();
    let mut j: usize = 0;
    while j < pat.len()
        invariant
            j <= pat@.len(),
            i + pat@.len() <= hay@.len(),
            n == hay@.len(),
            forall|k: int| 0 <= k < j ==> hay@[i + k] == pat@[k],
        decreases pat@.len() - j,
    {
        if hay[i + j] != pat[j] {
            assert(hay@.subrange(i as int, i + pat@.len())[j as int] != pat@[j as int]);
            return false;
        }
        j = j + 1;
    }
    assert(hay@.subrange(i as int, i + pat@.len()) =~= pat@);
    true
}

/// Whether `pat` occurs in `hay`, compared byte by byte.
pub fn str_contains(hay: &str, pat: &str) -> (r: bool)
    ensures
        r == mentions(hay@, pat@),
{
    let h = hay.as_bytes();
    let p = pat.as_bytes();
    if p.len() == 0 {
        assert(h@.subrange(0, 0) =~= p@);
        assert(occurs_at(h@, p@, 0));
        return true;
    }
    if p.len() > h.len() {
        return false;
    }
    let hn = h.len();
    let last: usize = hn - p.len();
    let mut i: usize = 0;
    while i <= last
        invariant
            last == h@.len() - p@.len(),
            hn == h@.len(),
            h@ == encode_utf8(hay@),
            p@ == encode_utf8(pat@),
            1 <= p@.len() <= h@.len(),
            i <= last + 1,
            forall|k: int| 0 <= k < i ==> !occurs_at(h@, p@, k),
        decreases last + 1 - i,
    {
        if occurs_at_exec(h, p, i) {
            assert(occurs_at(h@, p@, i as int));
            return true;
        }
        i = i + 1;
    }
    assert forall|k: int| !occurs_at(h@, p@, k) by {
        if 0 <= k < i {
        }
    }
    false
}

/// The message shown in place of `msg` in the activity feed.
pub open spec fn cleaned_message(msg: Seq<char>) -> Seq<char> {
    if mentions(msg, "reqwest::Error"@) && mentions(msg, "ConnectTimeout"@) {
        "Connection timeout - retrying..."@
    } else if mentions(msg, "reqwest::Error"@) && mentions(msg, "TimedOut"@) {
        "Request timed out - retrying..."@
    } else if mentions(msg, "reqwest::Error"@) {
        "Network error - retrying..."@
    } else {
        msg
    }
}

/// Replaces verbose HTTP client errors by a short notice; other messages pass through.
pub fn clean_http_error_message(msg: &str) -> (r: String)
    ensures
        r@ == cleaned_message(msg@),
{
    let http = str_contains(msg, "reqwest::Error");
    if http && str_contains(msg, "ConnectTimeout") {
        return String::from_str("Connection timeout - retrying...");
    }
    if http && str_contains(msg, "TimedOut") {
        return String::from_str("Request timed out - retrying...");
    }
    if http {
        return String::from_str("Network error - retrying...");
    }
    String::from_str(msg)
}

/// The character of the decimal digit `d`.
pub open spec fn digit_char(d: int) -> char {
    if d == 0 {
        '0'
    } else if d == 1 {
        '1'
    } else if d == 2 {
        '2'
    } else if d == 3 {
        '3'
    } else if d == 4 {
        '4'
    } else if d == 5 {
        '5'
    } else if d == 6 {
        '6'
    } else if d == 7 {
        '7'
    } else if d == 8 {
        '8'
    } else {
        '9'
    }
}

/// The decimal notation of `n`, without leading zeros.
pub open spec fn decimal(n: nat) -> Seq<char>
    decreases n,
{
    if n < 10 {
        seq![digit_char(n as int)]
    } else {
        decimal(n / 10) + seq![digit_char((n % 10) as int)]
    }
}

/// `n / d` rounded to tenths, counted in tenths; a tie goes to the even tenth.
pub open spec fn rounded_tenths(n: nat, d: nat) -> nat
    recommends
        d > 0,
{
    let q = (10 * n) / d;
    let r = (10 * n) % d;
    if 2 * r > d || (2 * r == d && q % 2 == 1) {
        q + 1
    } else {
        q
    }
}

/// A count of tenths written with one decimal place (`12` is `1.2`).
pub open spec fn tenths_text(t: nat) -> Seq<char> {
    decimal(t / 10) + seq!['.', digit_char((t % 10) as int)]
}

fn digit_str(d: u64) -> (r: &'static str)
    requires
        d < 10,
    ensures
        r@ == seq![digit_char(d as int)],
{
    proof {
        reveal_strlit("0");
        reveal_strlit("1");
        reveal_strlit("2");
        reveal_strlit("3");
        reveal_strlit("4");
        reveal_strlit("5");
        reveal_strlit("6");
        reveal_strlit("7");
        reveal_strlit("8");
        reveal_strlit("9");
    }
    let r = if d == 0 {
        "0"
    } else if d == 1 {
        "1"
    } else if d == 2 {
        "2"
    } else if d == 3 {
        "3"
    } else if d == 4 {
        "4"
    } else if d == 5 {
        "5"
    } else if d == 6 {
        "6"
    } else if d == 7 {
        "7"
    } else if d == 8 {
        "8"
    } else {
        "9"
    };
    assert(r@ =~= seq![digit_char(d as int)]);
    r
}

/// Appends the decimal notation of `n` to `out`.
pub fn push_decimal(out: &mut String, n: u128)
    ensures
        final(out)@ == old(out)@ + decimal(n as nat),
    decreases n,
{
    if n >= 10 {
        push_decimal(out, n / 10);
    }
    out.append(digit_str((n % 10) as u64));
    assert(final(out)@ =~= old(out)@ + decimal(n as nat));
}

/// Appends a count of tenths with one decimal place.
pub fn push_tenths(out: &mut String, t: u128)
    ensures
        final(out)@ == old(out)@ + tenths_text(t as nat),
{
    push_decimal(out, t / 10);
    proof {
        reveal_strlit(".");
    }
    out.append(".");
    out.append(digit_str((t % 10) as u64));
    assert(final(out)@ =~= old(out)@ + tenths_text(t as nat));
}

/// `n / d` rounded to the nearest integer; a tie goes to the even one.
pub open spec fn round_half_even(n: nat, d: nat) -> nat
    recommends
        d > 0,
{
    let q = n / d;
    let r = n % d;
    if 2 * r > d || (2 * r == d && q % 2 == 1) {
        q + 1
    } else {
        q
    }
}

/// `n / d` rounded as `round_half_even` states.
pub fn round_half_even_exec(n: u128, d: u128) -> (q: u128)
    requires
        d > 0,
        n < u128::MAX,
    ensures
        q as nat == round_half_even(n as nat, d as nat),
        q as nat <= n as nat / d as nat + 1,
{
    let q = n / d;
    let r = n % d;
    assert(q <= n) by (nonlinear_arith)
        requires
            q == n / d,
            d > 0,
    ;
    if r > d - r || (r == d - r && q % 2 == 1) {
        q + 1
    } else {
        q
    }
}

/// `n / d` rounded to tenths as `rounded_tenths` states.
pub fn round_tenths(n: u64, d: u64) -> (t: u64)
    requires
        d >= 20,
    ensures
        t as nat == rounded_tenths(n as nat, d as nat),
{
    let wide: u128 = 10 * (n as u128);
    let q: u128 = wide / (d as u128);
    let r: u128 = wide % (d as u128);
    assert(2 * q <= n as u128) by (nonlinear_arith)
        requires
            q == wide / (d as u128),
            wide == 10 * (n as u128),
            d >= 20,
    ;
    let up = 2 * r > d as u128 || (2 * r == d as u128 && q % 2 == 1);
    if up {
        (q + 1) as u64
    } else {
        q as u64
    }
}

/// Index of the first space byte of `b` at or after `from`, or the length of `b`.
pub open spec fn next_space(b: Seq<u8>, from: int) -> int
    decreases b.len() - from,
{
    if from < 0 || from >= b.len() {
        b.len() as int
    } else if b[from] == 32 {
        from
    } else {
        next_space(b, from + 1)
    }
}

/// `"YYYY-MM-DD HH:MM:SS"` shortened to `"MM-DD HH:MM"`: bytes 5 to 10 of the
/// text before the first space, a space, and bytes 0 to 5 of the text after
/// it up to the next space. Where there is no space, or a range is too short
/// or does not fall on character boundaries, the text stays as it is.
pub open spec fn compact_timestamp(s: Seq<char>) -> Seq<char> {
    let b = encode_utf8(s);
    let k = next_space(b, 0);
    let date = b.subrange(0, k);
    let time = b.subrange(k + 1, next_space(b, k + 1));
    if k < b.len() && 10 <= date.len() && is_char_boundary(date, 5) && is_char_boundary(date, 10)
        && 5 <= time.len() && is_char_boundary(time, 5) {
        decode_utf8(b.subrange(5, 10)) + seq![' '] + decode_utf8(b.subrange(k + 1, k + 6))
    } else {
        s
    }
}

proof fn lemma_boundary_at(b: Seq<u8>, i: int)
    requires
        valid_utf8(b),
        0 <= i <= b.len(),
        i == b.len() || !is_continuation_byte(b[i]),
    ensures
        is_char_boundary(b, i),
{
    if i == b.len() {
        is_char_boundary_start_end_of_seq(b);
    } else {
        is_char_boundary_iff_not_is_continuation_byte(b, i);
    }
}

proof fn lemma_boundary_after_ascii(b: Seq<u8>, k: int)
    requires
        valid_utf8(b),
        0 <= k < b.len(),
        is_char_boundary(b, k),
        is_leading_byte_width_1(b[k]),
    ensures
        is_char_boundary(b, k + 1),
{
    valid_utf8_split(b, k);
    let suf = b.subrange(k, b.len() as int);
    reveal_with_fuel(is_char_boundary, 2);
    assert(length_of_first_scalar(suf) == 1);
    assert(is_char_boundary(suf, 1));
    if k + 1 < b.len() {
        is_char_boundary_iff_not_is_continuation_byte(suf, 1);
        is_char_boundary_iff_not_is_continuation_byte(b, k + 1);
        assert(suf[1] == b[k + 1]);
    } else {
        is_char_boundary_start_end_of_seq(b);
    }
}

proof fn lemma_slice_valid(b: Seq<u8>, i: int, j: int)
    requires
        valid_utf8(b),
        0 <= i <= j <= b.len(),
        is_char_boundary(b, i),
        is_char_boundary(b, j),
    ensures
        valid_utf8(b.subrange(i, j)),
{
    valid_utf8_split(b, i);
    let suf = b.subrange(i, b.len() as int);
    if j == b.len() {
        is_char_boundary_start_end_of_seq(suf);
    } else {
        is_char_boundary_iff_not_is_continuation_byte(b, j);
        is_char_boundary_iff_not_is_continuation_byte(suf, j - i);
        assert(suf[j - i] == b[j]);
    }
    valid_utf8_split(suf, j - i);
    assert(suf.subrange(0, j - i) =~= b.subrange(i, j));
}

/// Boundaries inside a prefix that ends on a boundary are those of the whole.
proof fn lemma_prefix_boundary(b: Seq<u8>, k: int, i: int)
    requires
        valid_utf8(b),
        0 <= i <= k <= b.len(),
        is_char_boundary(b, k),
    ensures
        valid_utf8(b.subrange(0, k)),
        is_char_boundary(b.subrange(0, k), i) <==> (i == k || !is_continuation_byte(b[i])),
{
    is_char_boundary_start_end_of_seq(b);
    lemma_slice_valid(b, 0, k);
    let p = b.subrange(0, k);
    if i == k {
        is_char_boundary_start_end_of_seq(p);
        assert(p.len() == k);
    } else {
        is_char_boundary_iff_not_is_continuation_byte(p, i);
        assert(p[i] == b[i]);
    }
}

fn is_continuation(x: u8) -> (r: bool)
    ensures
        r == is_continuation_byte(x),
{
    0x80 <= x && x <= 0xbf
}

fn find_space(b: &[u8], from: usize) -> (k: usize)
    requires
        from <= b@.len(),
    ensures
        k as int == next_space(b@, from as int),
        from <= k <= b@.len(),
        k < b@.len() ==> b@[k as int] == 32,
{
    let n = b.len();
    let mut k = from;
    while k < n && b[k] != 32
        invariant
            n == b@.len(),
            from <= k <= n,
            next_space(b@, from as int) == next_space(b@, k as int),
        decreases n - k,
    {
        k = k + 1;
    }
    k
}

/// Shortens a `"YYYY-MM-DD HH:MM:SS"` timestamp to `"MM-DD HH:MM"`; other
/// text is returned unchanged.
pub fn format_compact_timestamp(timestamp: &str) -> (r: String)
    ensures
        r@ == compact_timestamp(timestamp@),
{
    let b = timestamp.as_bytes();
    let ghost bs = b@;
    proof {
        encode_utf8_valid_utf8(timestamp@);
        is_char_boundary_start_end_of_seq(bs);
    }
    let n = b.len();
    let k = find_space(b, 0);
    if k >= n {
        return String::from_str(timestamp);
    }
    let t_end = find_space(b, k + 1);
    proof {
        lemma_boundary_at(bs, k as int);
        lemma_boundary_after_ascii(bs, k as int);
        lemma_boundary_at(bs, t_end as int);
        lemma_slice_valid(bs, k + 1, t_end as int);
        if 10 <= k {
            lemma_prefix_boundary(bs, k as int, 5);
            lemma_prefix_boundary(bs, k as int, 10);
        }
        let time = bs.subrange(k + 1, t_end as int);
        if k + 6 <= t_end {
            if k + 6 == t_end {
                is_char_boundary_start_end_of_seq(time);
            } else {
                is_char_boundary_iff_not_is_continuation_byte(time, 5);
                assert(time[5] == bs[k + 6]);
            }
        }
    }
    let date_ok = 10 <= k && !is_continuation(b[5]) && !is_continuation(b[10]);
    let time_ok = t_end - k >= 6 && (k + 6 == n || !is_continuation(b[k + 6]));
    if !(date_ok && time_ok) {
        return String::from_str(timestamp);
    }
    proof {
        lemma_boundary_at(bs, 10);
        lemma_boundary_at(bs, k + 6);
        lemma_slice_valid(bs, 0, 10);
        lemma_prefix_boundary(bs, 10, 5);
        lemma_slice_valid(bs, k + 1, n as int);
    }
    let (head, _) = timestamp.split_at(10);
    assert(head.spec_bytes().subrange(0, 10) =~= bs.subrange(0, 10));
    let (_, month_day) = head.split_at(5);
    let (_, tail) = timestamp.split_at(k + 1);
    proof {
        let tb = tail.spec_bytes();
        assert(tb =~= bs.subrange(k + 1, n as int));
        if k + 6 < n {
            assert(tb[5] == bs[k + 6]);
        }
        lemma_boundary_at(tb, 5);
    }
    let (hour_min, _) = tail.split_at(5);
    proof {
        assert(month_day.spec_bytes() =~= bs.subrange(5, 10));
        assert(hour_min.spec_bytes() =~= bs.subrange(k + 1, k + 6));
        encode_utf8_decode_utf8(month_day@);
        encode_utf8_decode_utf8(hour_min@);
        reveal_strlit(" ");
    }
    let mut out = String::from_str(month_day);
    out.append(" ");
    out.append(hour_min);
    assert(out@ =~= compact_timestamp(timestamp@));
    out
}

} // verus!
