//! Decimal text: lossy parsing of integers and fractions, and exact
//! formatting of integers.
//!
//! Parsing is deliberately lossy: any field that does not match the grammar
//! (or whose value does not fit the target range) is read as `0`, so that one
//! malformed field never aborts a batch run.

use vstd::prelude::*;

verus! {

/// The scale of fixed-point fractions: a fraction is stored in millionths.
pub const FRAC_SCALE: i64 = 1_000_000;

/// Largest magnitude (in millionths) that the fraction parser accepts;
/// anything larger is treated as malformed and read as `0`.
pub const FRAC_PARSE_MAX: i64 = 1_000_000_000;

pub open spec fn is_digit(c: char) -> bool {
    48 <= c as u32 <= 57
}

pub open spec fn digit_val(c: char) -> int {
    c as u32 - 48
}

pub open spec fn all_digits(s: Seq<char>) -> bool {
    forall|i: int| 0 <= i < s.len() ==> is_digit(#[trigger] s[i])
}

/// The value of a digit string, most significant digit first.
pub open spec fn digits_val(s: Seq<char>) -> int
    decreases s.len(),
{
    if s.len() == 0 {
        0
    } else {
        digits_val(s.drop_last()) * 10 + digit_val(s.last())
    }
}

pub proof fn lemma_digits_val_nonneg(s: Seq<char>)
    requires
        all_digits(s),
    ensures
        digits_val(s) >= 0,
    decreases s.len(),
{
    if s.len() > 0 {
        assert(all_digits(s.drop_last()));
        lemma_digits_val_nonneg(s.drop_last());
    }
}

/// Appending one digit multiplies the value by ten and adds the digit.
pub proof fn lemma_digits_val_push(s: Seq<char>, c: char)
    ensures
        digits_val(s.push(c)) == digits_val(s) * 10 + digit_val(c),
{
    assert(s.push(c).drop_last() =~= s);
}

/// A string of `k` digits has a value below the `k`-th power of ten.
pub proof fn lemma_digits_val_bound(s: Seq<char>)
    requires
        all_digits(s),
    ensures
        digits_val(s) < pow10(s.len() as int),
    decreases s.len(),
{
    if s.len() > 0 {
        assert(all_digits(s.drop_last()));
        lemma_digits_val_bound(s.drop_last());
    }
}

/// Once a digit string's value exceeds a non-negative bound, appending more
/// digits keeps it above that bound.
pub proof fn lemma_digits_val_grows(s: Seq<char>, c: char, bound: int)
    requires
        all_digits(s),
        is_digit(c),
        digits_val(s) > bound >= 0,
    ensures
        digits_val(s.push(c)) > bound,
{
    lemma_digits_val_nonneg(s);
    lemma_digits_val_push(s, c);
}

/// The sign-stripped body of a signed decimal token.
pub open spec fn num_body(s: Seq<char>) -> Seq<char> {
    if s.len() > 0 && (s[0] == '-' || s[0] == '+') {
        s.subrange(1, s.len() as int)
    } else {
        s
    }
}

pub open spec fn num_neg(s: Seq<char>) -> bool {
    s.len() > 0 && s[0] == '-'
}

/// What `i32` reads from a decimal token: an optional sign followed by one or
/// more digits, with the value in range; everything else is `0`.
pub open spec fn parse_i32_spec(s: Seq<char>) -> i32 {
    let body = num_body(s);
    let mag = digits_val(body);
    if body.len() == 0 || !all_digits(body) {
        0
    } else if num_neg(s) {
        if mag <= 0x8000_0000 {
            (-mag) as i32
        } else {
            0
        }
    } else {
        if mag <= 0x7fff_ffff {
            mag as i32
        } else {
            0
        }
    }
}

/// Reads an `i32` from a decimal token; malformed or out-of-range tokens are
/// read as `0` rather than rejected.
pub fn parse_i32_lossy(s: &str) -> (r: i32)
    ensures
        r == parse_i32_spec(s@),
{
    let n = s.unicode_len();
    let ghost body = num_body(s@);
    let mut i: usize = 0;
    let mut neg = false;
    if n > 0 {
        let c0 = s.get_char(0);
        if c0 == '-' {
            neg = true;
            i = 1;
        } else if c0 == '+' {
            i = 1;
        }
    }
    let ghost start = i as int;
    proof {
        assert(body =~= s@.subrange(start, n as int));
    }
    if i >= n {
        return 0;
    }
    let mut mag: u64 = 0;
    let mut over = false;
    while i < n
        invariant
            0 <= start <= i <= n,
            n == s@.len(),
            body == num_body(s@),
            neg == num_neg(s@),
            body == s@.subrange(start, n as int),
            all_digits(s@.subrange(start, i as int)),
            !over ==> mag == digits_val(s@.subrange(start, i as int)) && mag <= 0x8000_0000,
            over ==> digits_val(s@.subrange(start, i as int)) > 0x8000_0000,
        decreases n - i,
    {
        let c = s.get_char(i);
        let cu = c as u32;
        proof {
            assert(s@.subrange(start, i as int).push(s@[i as int]) =~= s@.subrange(
                start,
                i + 1,
            ));
        }
        if cu < 48 || cu > 57 {
            proof {
                assert(body[i - start] == s@[i as int]);
                assert(!all_digits(body));
            }
            return 0;
        }
        proof {
            lemma_digits_val_push(s@.subrange(start, i as int), s@[i as int]);
            if over {
                lemma_digits_val_grows(s@.subrange(start, i as int), s@[i as int], 0x8000_0000);
            }
        }
        if !over {
            let d = (cu - 48) as u64;
            mag = mag * 10 + d;
            if mag > 0x8000_0000 {
                over = true;
            }
        }
        i += 1;
    }
    proof {
        assert(s@.subrange(start, i as int) =~= body);
    }
    if over {
        0
    } else if neg {
        if mag == 0x8000_0000 {
            i32::MIN
        } else {
            0 - (mag as i32)
        }
    } else {
        if mag > 0x7fff_ffff {
            0
        } else {
            mag as i32
        }
    }
}

/// Index of the first `.` in `s` at or after `i`, or `s.len()` if none.
pub open spec fn first_dot_from(s: Seq<char>, i: int) -> int
    decreases s.len() - i,
{
    if i < 0 || i >= s.len() {
        s.len() as int
    } else if s[i] == '.' {
        i
    } else {
        first_dot_from(s, i + 1)
    }
}

pub proof fn lemma_first_dot_from(s: Seq<char>, i: int)
    requires
        0 <= i <= s.len(),
    ensures
        i <= first_dot_from(s, i) <= s.len(),
        forall|j: int| i <= j < first_dot_from(s, i) ==> s[j] != '.',
        first_dot_from(s, i) < s.len() ==> s[first_dot_from(s, i)] == '.',
    decreases s.len() - i,
{
    if i < s.len() && s[i] != '.' {
        lemma_first_dot_from(s, i + 1);
    }
}

/// Powers of ten used to right-pad a fractional part to six digits.
pub open spec fn pow10(k: int) -> int
    decreases k,
{
    if k <= 0 {
        1
    } else {
        10 * pow10(k - 1)
    }
}

/// The value in millionths of a fractional-digit string: the first six digits
/// count, the rest only have to be digits.
pub open spec fn frac_part_val(fp: Seq<char>) -> int {
    if fp.len() >= 6 {
        digits_val(fp.subrange(0, 6))
    } else {
        digits_val(fp) * pow10(6 - fp.len())
    }
}

/// Whether a sign-stripped token matches the fraction grammar
/// `digits | digits . digits* | . digits+` (at least one digit in all).
pub open spec fn frac_body_wf(body: Seq<char>) -> bool {
    let d = first_dot_from(body, 0);
    all_digits(body.subrange(0, d)) && (d < body.len() ==> all_digits(
        body.subrange(d + 1, body.len() as int),
    )) && body.len() > if d < body.len() {
        1int
    } else {
        0int
    }
}

/// The millionths value of a well-formed sign-stripped fraction token.
pub open spec fn frac_body_val(body: Seq<char>) -> int {
    let d = first_dot_from(body, 0);
    if d < body.len() {
        digits_val(body.subrange(0, d)) * 1_000_000 + frac_part_val(
            body.subrange(d + 1, body.len() as int),
        )
    } else {
        digits_val(body) * 1_000_000
    }
}

/// What the fraction parser reads from a token, in millionths: a signed
/// decimal number truncated to six fractional digits, or `0` when the token
/// is malformed or its magnitude exceeds `FRAC_PARSE_MAX` millionths.
pub open spec fn parse_frac_spec(s: Seq<char>) -> int {
    let body = num_body(s);
    if !frac_body_wf(body) {
        0
    } else {
        let v = frac_body_val(body);
        if v > FRAC_PARSE_MAX {
            0
        } else if num_neg(s) {
            -v
        } else {
            v
        }
    }
}

pub proof fn lemma_pow10_pos(k: int)
    ensures
        pow10(k) >= 1,
    decreases k,
{
    if k > 0 {
        lemma_pow10_pos(k - 1);
    }
}

/// The fraction parser never reads a value outside `FRAC_PARSE_MAX`
/// millionths in magnitude.
pub proof fn lemma_parse_frac_bounds(s: Seq<char>)
    ensures
        -FRAC_PARSE_MAX <= parse_frac_spec(s) <= FRAC_PARSE_MAX,
{
    let body = num_body(s);
    if frac_body_wf(body) {
        let v = frac_body_val(body);
        let d = first_dot_from(body, 0);
        lemma_first_dot_from(body, 0);
        if d < body.len() {
            let ip = body.subrange(0, d);
            let fp = body.subrange(d + 1, body.len() as int);
            lemma_digits_val_nonneg(ip);
            if fp.len() >= 6 {
                assert(all_digits(fp.subrange(0, 6)));
                lemma_digits_val_nonneg(fp.subrange(0, 6));
            } else {
                lemma_digits_val_nonneg(fp);
                lemma_pow10_pos(6 - fp.len());
                assert(digits_val(fp) * pow10(6 - fp.len()) >= 0) by (nonlinear_arith)
                    requires
                        digits_val(fp) >= 0,
                        pow10(6 - fp.len()) >= 1,
                ;
            }
        } else {
            assert(body.subrange(0, d) =~= body);
            lemma_digits_val_nonneg(body);
        }
    }
}

proof fn lemma_first_dot_is(s: Seq<char>, i: int, d: int)
    requires
        0 <= i <= d <= s.len(),
        forall|j: int| 0 <= j < d ==> s[j] != '.',
        d < s.len() ==> s[d] == '.',
    ensures
        first_dot_from(s, i) == d,
    decreases s.len() - i,
{
    if i < s.len() && s[i] != '.' {
        lemma_first_dot_is(s, i + 1, d);
    }
}

/// Reads a fixed-point fraction (in millionths) from a decimal token;
/// malformed or out-of-range tokens are read as `0`.
pub fn parse_frac_lossy(s: &str) -> (r: i64)
    ensures
        r as int == parse_frac_spec(s@),
{
    let n = s.unicode_len();
    let ghost body = num_body(s@);
    let mut i: usize = 0;
    let mut neg = false;
    if n > 0 {
        let c0 = s.get_char(0);
        if c0 == '-' {
            neg = true;
            i = 1;
        } else if c0 == '+' {
            i = 1;
        }
    }
    let st = i;
    let ghost start = i as int;
    proof {
        assert(body =~= s@.subrange(start, n as int));
    }
    let mut ip: u64 = 0;
    let mut over = false;
    let mut saw_dot = false;
    while i < n
        invariant_except_break
            !saw_dot,
        invariant
            0 <= start <= i <= n,
            st == start,
            n == s@.len(),
            body == num_body(s@),
            neg == num_neg(s@),
            body == s@.subrange(start, n as int),
            all_digits(s@.subrange(start, i as int)),
            forall|j: int| start <= j < i ==> s@[j] != '.',
            !over ==> ip == digits_val(s@.subrange(start, i as int)) && ip <= 1_000_000_000,
            over ==> digits_val(s@.subrange(start, i as int)) > 1_000_000_000,
        ensures
            saw_dot ==> i < n && s@[i as int] == '.',
            !saw_dot ==> i == n,
        decreases n - i,
    {
        let c = s.get_char(i);
        if c == '.' {
            saw_dot = true;
            break ;
        }
        let cu = c as u32;
        proof {
            assert(s@.subrange(start, i as int).push(s@[i as int]) =~= s@.subrange(
                start,
                i + 1,
            ));
        }
        if cu < 48 || cu > 57 {
            proof {
                lemma_first_dot_from(body, 0);
                let d = first_dot_from(body, 0);
                assert(d > i - start) by {
                    if d <= i - start {
                        assert(body[d] == s@[start + d]);
                    }
                }
                assert(body.subrange(0, d)[i - start] == s@[i as int]);
                assert(!all_digits(body.subrange(0, d)));
                assert(!frac_body_wf(body));
            }
            return 0;
        }
        proof {
            lemma_digits_val_push(s@.subrange(start, i as int), s@[i as int]);
            if over {
                lemma_digits_val_grows(s@.subrange(start, i as int), s@[i as int], 1_000_000_000);
            }
        }
        if !over {
            let d = (cu - 48) as u64;
            ip = ip * 10 + d;
            if ip > 1_000_000_000 {
                over = true;
            }
        }
        i += 1;
    }
    let ghost d = i - start;
    if !saw_dot {
        // no dot: the whole body must be digits, and at least one of them
        proof {
            assert(s@.subrange(start, i as int) =~= body);
            lemma_first_dot_is(body, 0, body.len() as int);
        }
        if i == st {
            return 0;
        }
        proof {
            lemma_digits_val_nonneg(body);
        }
        if over {
            return 0;
        }
        let v = ip * 1_000_000;
        if v > 1_000_000_000 {
            return 0;
        }
        if neg {
            return 0 - (v as i64);
        }
        return v as i64;
    }
    // a dot at position `d` of the body: scan the fractional digits
    proof {
        assert(body[d] == s@[i as int]);
        lemma_first_dot_is(body, 0, d);
        assert(s@.subrange(start, i as int) =~= body.subrange(0, d));
    }
    let ghost fp = body.subrange(d + 1, body.len() as int);
    let fstart = i + 1;
    let mut j = fstart;
    let mut k: usize = 0;
    let mut fp_acc: u64 = 0;
    while j < n
        invariant
            0 <= start <= fstart <= j <= n,
            n == s@.len(),
            body == num_body(s@),
            neg == num_neg(s@),
            body == s@.subrange(start, n as int),
            d == fstart - 1 - start,
            0 <= d < body.len(),
            first_dot_from(body, 0) == d,
            fp == body.subrange(d + 1, body.len() as int),
            fp == s@.subrange(fstart as int, n as int),
            all_digits(s@.subrange(fstart as int, j as int)),
            k == if j - fstart <= 6 {
                j - fstart
            } else {
                6int
            },
            fp_acc == digits_val(s@.subrange(fstart as int, fstart + k)),
            fp_acc < 1_000_000,
        decreases n - j,
    {
        let c = s.get_char(j);
        let cu = c as u32;
        if cu < 48 || cu > 57 {
            proof {
                assert(fp[j - fstart] == s@[j as int]);
                assert(!all_digits(fp));
                assert(!frac_body_wf(body));
            }
            return 0;
        }
        if k < 6 {
            proof {
                let pre = s@.subrange(fstart as int, fstart + k);
                assert(all_digits(pre)) by {
                    assert(forall|m: int|
                        0 <= m < k ==> pre[m] == #[trigger] s@.subrange(
                            fstart as int,
                            j as int,
                        )[m]);
                }
                lemma_digits_val_bound(pre);
                assert(pow10(0) == 1);
                assert(pow10(1) == 10);
                assert(pow10(2) == 100);
                assert(pow10(3) == 1_000);
                assert(pow10(4) == 10_000);
                assert(pow10(5) == 100_000);
                assert(digits_val(pre) < 100_000);
                lemma_digits_val_push(pre, s@[j as int]);
                assert(pre.push(s@[j as int]) =~= s@.subrange(
                    fstart as int,
                    fstart + k + 1,
                ));
            }
            fp_acc = fp_acc * 10 + ((cu - 48) as u64);
            k += 1;
        }
        proof {
            assert(s@.subrange(fstart as int, j as int).push(s@[j as int]) =~= s@.subrange(
                fstart as int,
                j + 1,
            ));
        }
        j += 1;
    }
    proof {
        assert(s@.subrange(fstart as int, j as int) =~= fp);
    }
    // body length: the dot plus at least one digit somewhere
    if n - st < 2 {
        return 0;
    }
    let mult: u64 = if k == 0 {
        1_000_000
    } else if k == 1 {
        100_000
    } else if k == 2 {
        10_000
    } else if k == 3 {
        1_000
    } else if k == 4 {
        100
    } else if k == 5 {
        10
    } else {
        1
    };
    proof {
        assert(pow10(0) == 1);
        assert(pow10(1) == 10);
        assert(pow10(2) == 100);
        assert(pow10(3) == 1_000);
        assert(pow10(4) == 10_000);
        assert(pow10(5) == 100_000);
        assert(pow10(6) == 1_000_000);
        if fp.len() >= 6 {
            assert(fp.subrange(0, 6) =~= s@.subrange(fstart as int, fstart + 6));
        }
        lemma_digits_val_nonneg(fp);
        if fp.len() < 6 {
            lemma_digits_val_nonneg(s@.subrange(fstart as int, fstart + k));
        }
        lemma_digits_val_nonneg(body.subrange(0, d));
    }
    let fp6 = fp_acc * mult;
    if over {
        return 0;
    }
    let v = ip * 1_000_000 + fp6;
    if v > 1_000_000_000 {
        return 0;
    }
    if neg {
        0 - (v as i64)
    } else {
        v as i64
    }
}

/// The decimal digit character for a value in `0..10`.
pub open spec fn dec_digit_char(d: int) -> char {
    if d == 0 {
        '0'
    } else if d == 1 {
        '1'
    } else if d == 2 {
        '2'
    } else if d == 3 {
        '3'
    } else if d == 4 {
        '4'
    } else if d == 5 {
        '5'
    } else if d == 6 {
        '6'
    } else if d == 7 {
        '7'
    } else if d == 8 {
        '8'
    } else {
        '9'
    }
}

/// Decimal rendering of a non-negative integer, no sign, no padding.
pub open spec fn dec_nat(n: int) -> Seq<char>
    decreases n,
{
    if n < 10 {
        seq![dec_digit_char(n)]
    } else {
        dec_nat(n / 10).push(dec_digit_char(n % 10))
    }
}

/// Decimal rendering of an integer: a `-` sign for negative values.
pub open spec fn dec_int(v: int) -> Seq<char> {
    if v < 0 {
        seq!['-'] + dec_nat(-v)
    } else {
        dec_nat(v)
    }
}

fn digit_str(d: u32) -> (r: &'static str)
    requires
        d < 10,
    ensures
        r@ == seq![dec_digit_char(d as int)],
{
    if d == 0 {
        proof {
            reveal_strlit("0");
            assert("0"@ =~= seq![dec_digit_char(0)]);
        }
        "0"
    } else if d == 1 {
        proof {
            reveal_strlit("1");
            assert("1"@ =~= seq![dec_digit_char(1)]);
        }
        "1"
    } else if d == 2 {
        proof {
            reveal_strlit("2");
            assert("2"@ =~= seq![dec_digit_char(2)]);
        }
        "2"
    } else if d == 3 {
        proof {
            reveal_strlit("3");
            assert("3"@ =~= seq![dec_digit_char(3)]);
        }
        "3"
    } else if d == 4 {
        proof {
            reveal_strlit("4");
            assert("4"@ =~= seq![dec_digit_char(4)]);
        }
        "4"
    } else if d == 5 {
        proof {
            reveal_strlit("5");
            assert("5"@ =~= seq![dec_digit_char(5)]);
        }
        "5"
    } else if d == 6 {
        proof {
            reveal_strlit("6");
            assert("6"@ =~= seq![dec_digit_char(6)]);
        }
        "6"
    } else if d == 7 {
        proof {
            reveal_strlit("7");
            assert("7"@ =~= seq![dec_digit_char(7)]);
        }
        "7"
    } else if d == 8 {
        proof {
            reveal_strlit("8");
            assert("8"@ =~= seq![dec_digit_char(8)]);
        }
        "8"
    } else {
        proof {
            reveal_strlit("9");
            assert("9"@ =~= seq![dec_digit_char(9)]);
        }
        "9"
    }
}

/// Renders a non-negative number in decimal.
pub fn fmt_u128(n: u128) -> (r: String)
    ensures
        r@ == dec_nat(n as int),
    decreases n,
{
    if n < 10 {
        String::from_str(digit_str(n as u32))
    } else {
        let mut s = fmt_u128(n / 10);
        s.append(digit_str((n % 10) as u32));
        proof {
            assert(dec_nat((n / 10) as int) + seq![dec_digit_char((n % 10) as int)] =~= dec_nat(
                (n / 10) as int,
            ).push(dec_digit_char((n % 10) as int)));
        }
        s
    }
}

/// Renders a signed number in decimal, `-` first for negative values.
pub fn fmt_i128(v: i128) -> (r: String)
    requires
        v != i128::MIN,
    ensures
        r@ == dec_int(v as int),
{
    if v < 0 {
        proof {
            reveal_strlit("-");
            assert("-"@ =~= seq!['-']);
        }
        let mut s = String::from_str("-");
        let m = fmt_u128((0 - v) as u128);
        s.append(m.as_str());
        s
    } else {
        fmt_u128(v as u128)
    }
}

/// Four-digit, zero-padded decimal rendering of a value in `0..10000`.
pub open spec fn dec_pad4(r: int) -> Seq<char> {
    seq![
        dec_digit_char(r / 1000 % 10),
        dec_digit_char(r / 100 % 10),
        dec_digit_char(r / 10 % 10),
        dec_digit_char(r % 10),
    ]
}

/// Renders a value below ten thousand as exactly four digits.
pub fn fmt_pad4(r: u64) -> (s: String)
    requires
        r < 10000,
    ensures
        s@ == dec_pad4(r as int),
{
    let mut s = String::from_str(digit_str((r / 1000 % 10) as u32));
    s.append(digit_str((r / 100 % 10) as u32));
    s.append(digit_str((r / 10 % 10) as u32));
    s.append(digit_str((r % 10) as u32));
    proof {
        assert(s@ =~= dec_pad4(r as int));
    }
    s
}

} // verus!
