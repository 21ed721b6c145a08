use vstd::prelude::*;

verus! {

/// Price units in one whole currency unit: prices are fixed-point numbers
/// with four decimal places.
pub const SCALE: i64 = 10000;

/// The largest whole-unit part that a price may have.
pub const MAX_WHOLE: u64 = 100000000000;

/// The largest magnitude of a price, in price units.
pub const MAX_MAGNITUDE: i64 = 1000000000000000;

/// Why a text is not accepted as a price.
#[derive(Debug, Clone, Copy, PartialEq, Eq, Structural)]
pub enum PriceError {
    /// The text is not a decimal number.
    NotDecimal,
    /// The text is a decimal number too large in magnitude for a price.
    OutOfRange,
}

pub open spec fn is_digit(c: char) -> bool {
    48 <= (c as u32) && (c as u32) <= 57
}

pub open spec fn digit_value(c: char) -> int {
    (c as u32) as int - 48
}

pub open spec fn all_digits(s: Seq<char>) -> bool {
    forall|i: int| 0 <= i < s.len() ==> is_digit(#[trigger] s[i])
}

/// The natural number that a run of decimal digits denotes.
pub open spec fn digits_value(s: Seq<char>) -> int
    decreases s.len(),
{
    if s.len() == 0 {
        0
    } else {
        digits_value(s.drop_last()) * 10 + digit_value(s.last())
    }
}

/// Length of the leading sign, if any.
pub open spec fn sign_len(s: Seq<char>) -> int {
    if s.len() > 0 && (s[0] == '-' || s[0] == '+') {
        1
    } else {
        0
    }
}

pub open spec fn is_negative(s: Seq<char>) -> bool {
    s.len() > 0 && s[0] == '-'
}

/// Position of the first '.' at or after `i`, or the length if there is none.
pub open spec fn dot_from(s: Seq<char>, i: int) -> int
    decreases s.len() - i,
{
    if i >= s.len() {
        s.len() as int
    } else if s[i] == '.' {
        i
    } else {
        dot_from(s, i + 1)
    }
}

pub open spec fn dot_pos(s: Seq<char>) -> int {
    dot_from(s, sign_len(s))
}

/// The digits before the decimal point.
pub open spec fn int_part(s: Seq<char>) -> Seq<char> {
    s.subrange(sign_len(s), dot_pos(s))
}

/// The digits after the decimal point (empty when there is no point).
pub open spec fn frac_part(s: Seq<char>) -> Seq<char> {
    if dot_pos(s) < s.len() {
        s.subrange(dot_pos(s) + 1, s.len() as int)
    } else {
        Seq::empty()
    }
}

/// An optional sign, digits, and optionally a point followed by digits,
/// with at least one digit in all.
pub open spec fn is_decimal(s: Seq<char>) -> bool {
    all_digits(int_part(s)) && all_digits(frac_part(s)) && int_part(s).len() + frac_part(s).len() > 0
}

/// The first `n` fraction digits as a number, padded with zeros.
pub open spec fn frac_units(f: Seq<char>, n: nat) -> int
    decreases n,
{
    if n == 0 {
        0
    } else {
        frac_units(f, (n - 1) as nat) * 10 + if n - 1 < f.len() {
            digit_value(f[n - 1])
        } else {
            0
        }
    }
}

/// The magnitude of a decimal text in price units; fraction digits past the
/// fourth are dropped.
pub open spec fn magnitude(s: Seq<char>) -> int {
    digits_value(int_part(s)) * SCALE + frac_units(frac_part(s), 4)
}

/// The price, in price units, that a decimal text denotes.
pub open spec fn price_of(s: Seq<char>) -> int {
    if is_negative(s) {
        -magnitude(s)
    } else {
        magnitude(s)
    }
}

proof fn lemma_digits_value_nonneg(s: Seq<char>)
    requires
        all_digits(s),
    ensures
        digits_value(s) >= 0,
    decreases s.len(),
{
    if s.len() > 0 {
        lemma_digits_value_nonneg(s.drop_last());
    }
}

/// A longer run of digits denotes at least as much as its prefix.
proof fn lemma_digits_value_prefix(s: Seq<char>, j: int)
    requires
        all_digits(s),
        0 <= j <= s.len(),
    ensures
        digits_value(s.subrange(0, j)) <= digits_value(s),
    decreases s.len(),
{
    if j < s.len() {
        assert(s.subrange(0, j) =~= s.drop_last().subrange(0, j));
        lemma_digits_value_prefix(s.drop_last(), j);
        lemma_digits_value_nonneg(s.drop_last());
    } else {
        assert(s.subrange(0, j) =~= s);
    }
}

proof fn lemma_frac_units_nonneg(f: Seq<char>, n: nat)
    requires
        all_digits(f),
    ensures
        0 <= frac_units(f, n),
    decreases n,
{
    if n > 0 {
        lemma_frac_units_nonneg(f, (n - 1) as nat);
    }
}

/// A price read from text lies within the accepted range.
pub proof fn lemma_price_in_range(s: Seq<char>)
    requires
        is_decimal(s),
        magnitude(s) <= MAX_MAGNITUDE,
    ensures
        -MAX_MAGNITUDE <= price_of(s) <= MAX_MAGNITUDE,
{
    lemma_digits_value_nonneg(int_part(s));
    lemma_frac_units_nonneg(frac_part(s), 4);
}

fn digit_of(c: char) -> (d: u64)
    requires
        is_digit(c),
    ensures
        d == digit_value(c),
        d <= 9,
{
    (c as u32 - 48) as u64
}

/// Reads a decimal text as a price in price units.
pub fn parse_price(s: &str) -> (r: Result<i64, PriceError>)
    ensures
        match r {
            Ok(v) => is_decimal(s@) && magnitude(s@) <= MAX_MAGNITUDE && v == price_of(s@),
            Err(PriceError::NotDecimal) => !is_decimal(s@),
            Err(PriceError::OutOfRange) => is_decimal(s@) && magnitude(s@) > MAX_MAGNITUDE,
        },
{
    let ghost t = s@;
    let n = s.unicode_len();
    let mut start: usize = 0;
    let mut negative = false;
    if n > 0 {
        let c0 = s.get_char(0);
        if c0 == '-' {
            start = 1;
            negative = true;
        } else if c0 == '+' {
            start = 1;
        }
    }
    assert(start == sign_len(t));
    assert(negative == is_negative(t));
    let mut k: usize = start;
    while k < n && s.get_char(k) != '.'
        invariant
            n == t.len(),
            t == s@,
            start <= k <= n,
            dot_from(t, start as int) == dot_from(t, k as int),
        decreases n - k,
    {
        k = k + 1;
    }
    assert(dot_pos(t) == k);
    let ghost ip = int_part(t);
    let ghost fp = frac_part(t);
    let flen: usize = if k < n { n - k - 1 } else { 0 };
    assert(fp.len() == flen);
    let mut i: usize = start;
    while i < k
        invariant
            n == t.len(),
            t == s@,
            start <= i <= k <= n,
            ip == t.subrange(start as int, k as int),
            ip == int_part(t),
            forall|j: int| 0 <= j < i - start ==> is_digit(#[trigger] ip[j]),
        decreases k - i,
    {
        if !is_digit_char(s.get_char(i)) {
            assert(ip[i - start] == t[i as int]);
            assert(!is_digit(ip[i - start]));
            assert(!all_digits(ip));
            return Err(PriceError::NotDecimal);
        }
        i = i + 1;
    }
    assert(all_digits(ip));
    let mut j: usize = 0;
    while j < flen
        invariant
            n == t.len(),
            t == s@,
            start <= k <= n,
            all_digits(ip),
            ip.len() == k - start,
            k < n ==> flen == n - k - 1,
            k >= n ==> flen == 0,
            fp.len() == flen,
            k < n ==> fp == t.subrange(k + 1, n as int),
            j <= flen,
            fp == frac_part(t),
            forall|m: int| 0 <= m < j ==> is_digit(#[trigger] fp[m]),
        decreases flen - j,
    {
        if !is_digit_char(s.get_char(k + 1 + j)) {
            assert(fp[j as int] == t[k + 1 + j]);
            assert(!is_digit(fp[j as int]));
            assert(!all_digits(fp));
            return Err(PriceError::NotDecimal);
        }
        j = j + 1;
    }
    assert(all_digits(fp));
    if k - start + flen == 0 {
        return Err(PriceError::NotDecimal);
    }
    assert(is_decimal(t));
    let mut whole: u64 = 0;
    let mut i: usize = start;
    while i < k
        invariant
            n == t.len(),
            t == s@,
            start <= i <= k <= n,
            ip == t.subrange(start as int, k as int),
            all_digits(ip),
            all_digits(fp),
            is_decimal(t),
            ip == int_part(t),
            fp == frac_part(t),
            whole <= MAX_WHOLE,
            whole == digits_value(ip.subrange(0, i - start)),
        decreases k - i,
    {
        assert(ip[i - start] == t[i as int]);
        let d = digit_of(s.get_char(i));
        assert(ip.subrange(0, i + 1 - start).drop_last() =~= ip.subrange(0, i - start));
        whole = whole * 10 + d;
        i = i + 1;
        if whole > MAX_WHOLE {
            proof {
                lemma_digits_value_prefix(ip, i - start);
                lemma_frac_units_nonneg(fp, 4);
                let dv = digits_value(ip);
                assert(dv > MAX_WHOLE);
                assert(dv * SCALE >= (MAX_WHOLE + 1) * SCALE) by (nonlinear_arith)
                    requires
                        dv >= MAX_WHOLE + 1,
                ;
            }
            return Err(PriceError::OutOfRange);
        }
    }
    assert(ip.subrange(0, k - start) =~= ip);
    let mut frac: u64 = 0;
    let mut j: usize = 0;
    while j < 4
        invariant
            n == t.len(),
            t == s@,
            k < n ==> fp == t.subrange(k + 1, n as int),
            fp.len() == flen,
            all_digits(fp),
            j <= 4,
            frac == frac_units(fp, j as nat),
            k <= n,
            k < n ==> flen == n - k - 1,
            k >= n ==> flen == 0,
            j == 0 ==> frac < 1,
            j == 1 ==> frac < 10,
            j == 2 ==> frac < 100,
            j == 3 ==> frac < 1000,
            j == 4 ==> frac < 10000,
        decreases 4 - j,
    {
        let d: u64 = if j < flen {
            assert(fp[j as int] == t[k + 1 + j]);
            digit_of(s.get_char(k + 1 + j))
        } else {
            0
        };
        frac = frac * 10 + d;
        j = j + 1;
    }
    let mag: i64 = (whole as i64) * SCALE + frac as i64;
    if mag > MAX_MAGNITUDE {
        return Err(PriceError::OutOfRange);
    }
    if negative {
        Ok(-mag)
    } else {
        Ok(mag)
    }
}

fn is_digit_char(c: char) -> (r: bool)
    ensures
        r == is_digit(c),
{
    48 <= (c as u32) && (c as u32) <= 57
}

pub open spec fn digit_char(d: int) -> char {
    seq!['0', '1', '2', '3', '4', '5', '6', '7', '8', '9'][d]
}

/// The decimal digits of a natural number, without leading zeros.
pub open spec fn digits_text(n: nat) -> Seq<char>
    decreases n,
{
    if n < 10 {
        seq![digit_char(n as int)]
    } else {
        digits_text(n / 10) + seq![digit_char((n % 10) as int)]
    }
}

/// The four fraction digits of `f` price units below one whole unit.
pub open spec fn frac_digits(f: nat) -> Seq<char> {
    seq![
        digit_char((f / 1000) as int),
        digit_char((f / 100 % 10) as int),
        digit_char((f / 10 % 10) as int),
        digit_char((f % 10) as int),
    ]
}

/// How many fraction digits remain once trailing zeros are dropped.
pub open spec fn frac_keep(f: nat) -> int {
    if f % 1000 == 0 {
        1
    } else if f % 100 == 0 {
        2
    } else if f % 10 == 0 {
        3
    } else {
        4
    }
}

/// The point and the fraction digits, or nothing for a whole number.
pub open spec fn frac_text(f: nat) -> Seq<char> {
    if f == 0 {
        Seq::empty()
    } else {
        seq!['.'] + frac_digits(f).take(frac_keep(f))
    }
}

pub open spec fn abs(v: int) -> nat {
    if v < 0 {
        (-v) as nat
    } else {
        v as nat
    }
}

/// The shortest decimal text of a price in price units: a minus sign for a
/// negative price, the whole part, and the fraction without trailing zeros.
pub open spec fn price_text(v: int) -> Seq<char> {
    (if v < 0 {
        seq!['-']
    } else {
        Seq::empty()
    }) + digits_text(abs(v) / (SCALE as nat)) + frac_text(abs(v) % (SCALE as nat))
}

fn digit_str(d: u128) -> (r: &'static str)
    requires
        d < 10,
    ensures
        r@ == seq![digit_char(d as int)],
{
    if d == 0 {
        proof { reveal_strlit("0"); }
        "0"
    } else if d == 1 {
        proof { reveal_strlit("1"); }
        "1"
    } else if d == 2 {
        proof { reveal_strlit("2"); }
        "2"
    } else if d == 3 {
        proof { reveal_strlit("3"); }
        "3"
    } else if d == 4 {
        proof { reveal_strlit("4"); }
        "4"
    } else if d == 5 {
        proof { reveal_strlit("5"); }
        "5"
    } else if d == 6 {
        proof { reveal_strlit("6"); }
        "6"
    } else if d == 7 {
        proof { reveal_strlit("7"); }
        "7"
    } else if d == 8 {
        proof { reveal_strlit("8"); }
        "8"
    } else {
        proof { reveal_strlit("9"); }
        "9"
    }
}

fn push_digits(out: &mut String, n: u128)
    ensures
        final(out)@ == old(out)@ + digits_text(n as nat),
    decreases n,
{
    if n >= 10 {
        push_digits(out, n / 10);
    }
    out.append(digit_str(n % 10));
    assert(out@ =~= old(out)@ + digits_text(n as nat));
}

/// Writes a price in price units as its shortest decimal text.
pub fn format_price(v: i128) -> (r: String)
    ensures
        r@ == price_text(v as int),
{
    let m: u128 = if v < 0 {
        ((-(v + 1)) as u128) + 1
    } else {
        v as u128
    };
    assert(m == abs(v as int));
    let mut out = String::new();
    if v < 0 {
        proof { reveal_strlit("-"); }
        out.append("-");
    }
    push_digits(&mut out, m / 10000);
    let f = m % 10000;
    let ghost head = out@;
    if f != 0 {
        proof { reveal_strlit("."); }
        out.append(".");
        out.append(digit_str(f / 1000));
        if f % 1000 != 0 {
            out.append(digit_str(f / 100 % 10));
            if f % 100 != 0 {
                out.append(digit_str(f / 10 % 10));
                if f % 10 != 0 {
                    out.append(digit_str(f % 10));
                }
            }
        }
        assert(out@ =~= head + frac_text(f as nat));
    } else {
        assert(out@ =~= head + frac_text(f as nat));
    }
    assert(out@ =~= price_text(v as int));
    out
}

} // verus!
