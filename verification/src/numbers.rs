//! Verified decimal rendering and parsing of integers, plus a fixed-point
//! renderer. Amounts in this crate are integers counting thousandths
//! (milli-units) of the primary in-game currency.
use vstd::prelude::*;
use vstd::arithmetic::div_mod::lemma_fundamental_div_mod;

verus! {

/// Is `c` one of the ten decimal digit characters?
pub open spec fn is_digit_char(c: char) -> bool {
    48 <= (c as int) && (c as int) <= 57
}

/// Numeric value of a digit character.
pub open spec fn digit_val(c: char) -> int {
    (c as int) - 48
}

/// The digit character for a value in `0 .. 10`.
pub open spec fn char_of_digit(d: int) -> char {
    if d == 0 {
        '0'
    } else if d == 1 {
        '1'
    } else if d == 2 {
        '2'
    } else if d == 3 {
        '3'
    } else if d == 4 {
        '4'
    } else if d == 5 {
        '5'
    } else if d == 6 {
        '6'
    } else if d == 7 {
        '7'
    } else if d == 8 {
        '8'
    } else {
        '9'
    }
}

pub proof fn lemma_char_of_digit(d: int)
    requires
        0 <= d < 10,
    ensures
        is_digit_char(char_of_digit(d)),
        digit_val(char_of_digit(d)) == d,
        char_of_digit(d) != ':',
        char_of_digit(d) != '|',
        char_of_digit(d) != '-',
{
}

/// Decimal digit string of a natural number, most significant digit first.
pub open spec fn spec_nat_digits(n: nat) -> Seq<char>
    decreases n,
{
    if n < 10 {
        seq![char_of_digit(n as int)]
    } else {
        spec_nat_digits(n / 10) + seq![char_of_digit((n % 10) as int)]
    }
}

/// Decimal character string of an integer: a minus sign for negative
/// values, then the digits of the magnitude.
pub open spec fn spec_int_chars(v: int) -> Seq<char> {
    if v < 0 {
        seq!['-'] + spec_nat_digits((-v) as nat)
    } else {
        spec_nat_digits(v as nat)
    }
}

/// Is every character of `s` a decimal digit?
pub open spec fn all_digits(s: Seq<char>) -> bool {
    forall|i: int| 0 <= i < s.len() ==> is_digit_char(#[trigger] s[i])
}

/// Value of a digit string (most significant digit first).
pub open spec fn spec_digits_val(s: Seq<char>) -> int
    decreases s.len(),
{
    if s.len() == 0 {
        0
    } else {
        spec_digits_val(s.drop_last()) * 10 + digit_val(s.last())
    }
}

/// The digit string of `n` consists of digits, is non-empty, and its value
/// is `n` again.
pub proof fn lemma_nat_digits(n: nat)
    ensures
        all_digits(spec_nat_digits(n)),
        spec_nat_digits(n).len() >= 1,
        spec_digits_val(spec_nat_digits(n)) == n,
    decreases n,
{
    if n < 10 {
        lemma_char_of_digit(n as int);
        let s = spec_nat_digits(n);
        assert(s.drop_last() =~= Seq::<char>::empty());
        assert(s.last() == char_of_digit(n as int));
        assert(spec_digits_val(s.drop_last()) == 0);
        assert(spec_digits_val(s) == digit_val(char_of_digit(n as int)));
        assert(spec_digits_val(s) == n);
        assert(all_digits(s));
        assert(s.len() >= 1);
    } else {
        lemma_nat_digits(n / 10);
        lemma_char_of_digit((n % 10) as int);
        let s = spec_nat_digits(n);
        assert(s.drop_last() =~= spec_nat_digits(n / 10));
        assert(s.last() == char_of_digit((n % 10) as int));
        lemma_fundamental_div_mod(n as int, 10);
        assert(spec_digits_val(s) == (n / 10) * 10 + (n % 10));
        assert(all_digits(s)) by {
            assert(forall|i: int|
                0 <= i < s.len() - 1 ==> s[i] == #[trigger] spec_nat_digits(n / 10)[i]);
        }
    }
}

/// Digit strings never contain the separator characters used by the
/// record encoding, nor a minus sign.
pub proof fn lemma_nat_digits_chars(n: nat)
    ensures
        forall|i: int|
            0 <= i < spec_nat_digits(n).len() ==> #[trigger] spec_nat_digits(n)[i] != ':'
                && spec_nat_digits(n)[i] != '|' && spec_nat_digits(n)[i] != '-',
{
    lemma_nat_digits(n);
    assert forall|i: int| 0 <= i < spec_nat_digits(n).len() implies #[trigger] spec_nat_digits(
        n,
    )[i] != ':' && spec_nat_digits(n)[i] != '|' && spec_nat_digits(n)[i] != '-' by {
        assert(is_digit_char(spec_nat_digits(n)[i]));
    }
}

/// A single-digit string slice for a value in `0 .. 10`.
fn digit_str(d: u64) -> (r: &'static str)
    requires
        d < 10,
    ensures
        r@ =~= seq![char_of_digit(d as int)],
{
    proof {
        reveal_strlit("0");
        reveal_strlit("1");
        reveal_strlit("2");
        reveal_strlit("3");
        reveal_strlit("4");
        reveal_strlit("5");
        reveal_strlit("6");
        reveal_strlit("7");
        reveal_strlit("8");
        reveal_strlit("9");
    }
    match d {
        0 => "0",
        1 => "1",
        2 => "2",
        3 => "3",
        4 => "4",
        5 => "5",
        6 => "6",
        7 => "7",
        8 => "8",
        _ => "9",
    }
}

/// Render a natural number in decimal.
pub fn u64_to_string(n: u64) -> (s: String)
    ensures
        s@ == spec_nat_digits(n as nat),
    decreases n,
{
    if n < 10 {
        String::from_str(digit_str(n))
    } else {
        let mut s = u64_to_string(n / 10);
        s.append(digit_str(n % 10));
        s
    }
}

/// Rendered integers are non-empty and never contain the separator
/// characters of the record encoding.
pub proof fn lemma_int_chars_shape(v: int)
    ensures
        spec_int_chars(v).len() >= 1,
        forall|i: int|
            0 <= i < spec_int_chars(v).len() ==> #[trigger] spec_int_chars(v)[i] != '|'
                && spec_int_chars(v)[i] != ':',
{
    if v < 0 {
        let mag = (-v) as nat;
        lemma_nat_digits(mag);
        lemma_nat_digits_chars(mag);
        let s = spec_int_chars(v);
        assert forall|i: int| 0 <= i < s.len() implies #[trigger] s[i] != '|' && s[i] != ':' by {
            if i == 0 {
                assert(s[0] == '-');
            } else {
                assert(s[i] == spec_nat_digits(mag)[i - 1]);
            }
        }
    } else {
        lemma_nat_digits(v as nat);
        lemma_nat_digits_chars(v as nat);
    }
}

/// The value of a digit string is never negative.
pub proof fn lemma_digits_val_nonneg(s: Seq<char>)
    requires
        all_digits(s),
    ensures
        spec_digits_val(s) >= 0,
    decreases s.len(),
{
    if s.len() > 0 {
        assert(all_digits(s.drop_last()));
        lemma_digits_val_nonneg(s.drop_last());
        assert(is_digit_char(s.last()));
    }
}

/// Extending a digit string to the right never lowers its value.
pub proof fn lemma_digits_val_prefix(s: Seq<char>, j: int)
    requires
        all_digits(s),
        0 <= j <= s.len(),
    ensures
        spec_digits_val(s) >= spec_digits_val(s.subrange(0, j)),
    decreases s.len() - j,
{
    if j == s.len() {
        assert(s.subrange(0, j) =~= s);
    } else {
        assert(s.subrange(0, j + 1).drop_last() =~= s.subrange(0, j));
        assert(s.subrange(0, j + 1).last() == s[j]);
        assert(is_digit_char(s[j]));
        assert(all_digits(s.subrange(0, j)));
        lemma_digits_val_nonneg(s.subrange(0, j));
        assert(spec_digits_val(s.subrange(0, j + 1)) >= spec_digits_val(s.subrange(0, j)));
        lemma_digits_val_prefix(s, j + 1);
    }
}

/// Digit value of a single character, if it is a digit.
pub fn digit_of_char(c: char) -> (r: Option<u64>)
    ensures
        r is Some <==> is_digit_char(c),
        r is Some ==> r.unwrap() as int == digit_val(c) && r.unwrap() < 10,
{
    match c {
        '0' => Some(0),
        '1' => Some(1),
        '2' => Some(2),
        '3' => Some(3),
        '4' => Some(4),
        '5' => Some(5),
        '6' => Some(6),
        '7' => Some(7),
        '8' => Some(8),
        '9' => Some(9),
        _ => None,
    }
}

/// What a whole character string denotes as a signed 64-bit integer:
/// an optional minus sign, then only digits, and the value must fit.
pub open spec fn spec_parse_int(s: Seq<char>) -> Option<int> {
    if s.len() > 0 && s[0] == '-' {
        let ds = s.subrange(1, s.len() as int);
        if ds.len() > 0 && all_digits(ds) && spec_digits_val(ds) <= 9223372036854775808 {
            Some(-spec_digits_val(ds))
        } else {
            None
        }
    } else if s.len() > 0 && all_digits(s) && spec_digits_val(s) <= i64::MAX {
        Some(spec_digits_val(s))
    } else {
        None
    }
}

/// What a whole character string denotes as a length: only digits, and the
/// value must fit in `usize`.
pub open spec fn spec_parse_len(s: Seq<char>) -> Option<int> {
    if s.len() > 0 && all_digits(s) && spec_digits_val(s) <= usize::MAX {
        Some(spec_digits_val(s))
    } else {
        None
    }
}

/// Accumulate the digits `s[start .. end)`; returns their value unless a
/// non-digit occurs or the value exceeds `limit`.
fn parse_digits_limited(s: &str, start: usize, end: usize, limit: u128) -> (r: Option<u128>)
    requires
        start <= end <= s@.len(),
        limit <= u64::MAX,
    ensures
        ({
            let ds = s@.subrange(start as int, end as int);
            match r {
                Some(v) => start < end && all_digits(ds) && spec_digits_val(ds) == v && v
                    <= limit,
                None => start == end || !all_digits(ds) || spec_digits_val(ds) > limit,
            }
        }),
{
    if start == end {
        return None;
    }
    let ghost ds = s@.subrange(start as int, end as int);
    let mut acc: u128 = 0;
    let mut i: usize = start;
    while i < end
        invariant
            start <= i <= end <= s@.len(),
            acc <= limit,
            all_digits(s@.subrange(start as int, i as int)),
            acc == spec_digits_val(s@.subrange(start as int, i as int)),
        decreases end - i,
    {
        let c = s.get_char(i);
        let ghost pre = s@.subrange(start as int, i as int);
        let ghost cur = s@.subrange(start as int, i + 1 as int);
        proof {
            assert(cur.drop_last() =~= pre);
            assert(cur.last() == s@[i as int]);
        }
        match digit_of_char(c) {
            None => {
                proof {
                    assert(ds[i - start] == s@[i as int]);
                    assert(!all_digits(ds));
                }
                return None;
            },
            Some(d) => {
                acc = acc * 10 + (d as u128);
                if acc > limit {
                    proof {
                        if all_digits(ds) {
                            assert(cur =~= ds.subrange(0, i + 1 - start));
                            lemma_digits_val_prefix(ds, i + 1 - start);
                        }
                    }
                    return None;
                }
                i += 1;
            },
        }
    }
    proof {
        assert(s@.subrange(start as int, end as int) =~= ds);
    }
    Some(acc)
}

/// Parse a whole string as a signed 64-bit integer.
pub fn parse_i64(s: &str) -> (r: Option<i64>)
    ensures
        r is Some <==> spec_parse_int(s@) is Some,
        r is Some ==> r.unwrap() as int == spec_parse_int(s@).unwrap(),
{
    let len = s.unicode_len();
    if len == 0 {
        return None;
    }
    if s.get_char(0) == '-' {
        let ghost ds = s@.subrange(1, s@.len() as int);
        match parse_digits_limited(s, 1, len, 9223372036854775808u128) {
            Some(v) => {
                if v == 9223372036854775808u128 {
                    Some(i64::MIN)
                } else {
                    Some(-(v as i64))
                }
            },
            None => None,
        }
    } else {
        match parse_digits_limited(s, 0, len, i64::MAX as u128) {
            Some(v) => {
                proof {
                    assert(s@.subrange(0, s@.len() as int) =~= s@);
                }
                Some(v as i64)
            },
            None => {
                proof {
                    assert(s@.subrange(0, s@.len() as int) =~= s@);
                }
                None
            },
        }
    }
}

/// Parse a whole string as a length.
pub fn parse_len(s: &str) -> (r: Option<usize>)
    ensures
        r is Some <==> spec_parse_len(s@) is Some,
        r is Some ==> r.unwrap() as int == spec_parse_len(s@).unwrap(),
{
    let len = s.unicode_len();
    if len == 0 {
        return None;
    }
    proof {
        assert(s@.subrange(0, s@.len() as int) =~= s@);
    }
    match parse_digits_limited(s, 0, len, usize::MAX as u128) {
        Some(v) => Some(v as usize),
        None => None,
    }
}

/// Parsing inverts rendering for every 64-bit integer.
pub proof fn lemma_parse_int_round_trip(v: int)
    requires
        i64::MIN <= v <= i64::MAX,
    ensures
        spec_parse_int(spec_int_chars(v)) == Some(v),
{
    if v < 0 {
        let mag = (-v) as nat;
        lemma_nat_digits(mag);
        lemma_nat_digits_chars(mag);
        let s = spec_int_chars(v);
        assert(s[0] == '-');
        assert(s.subrange(1, s.len() as int) =~= spec_nat_digits(mag));
    } else {
        lemma_nat_digits(v as nat);
        lemma_nat_digits_chars(v as nat);
        let s = spec_int_chars(v);
        assert(is_digit_char(s[0]));
        assert(s[0] != '-');
    }
}

/// Parsing inverts rendering for every length.
pub proof fn lemma_parse_len_round_trip(n: int)
    requires
        0 <= n <= usize::MAX,
    ensures
        spec_parse_len(spec_nat_digits(n as nat)) == Some(n),
{
    lemma_nat_digits(n as nat);
}

/// Render a signed integer in decimal.
pub fn i64_to_string(v: i64) -> (s: String)
    ensures
        s@ == spec_int_chars(v as int),
{
    if v >= 0 {
        u64_to_string(v as u64)
    } else {
        let mag: u64 = if v == i64::MIN {
            9223372036854775808u64
        } else {
            (-v) as u64
        };
        assert(mag as nat == (-(v as int)) as nat);
        let mut s = String::from_str("-");
        let digits = u64_to_string(mag);
        s.append(digits.as_str());
        proof {
            reveal_strlit("-");
            assert(s@ =~= seq!['-'] + spec_nat_digits((-(v as int)) as nat));
        }
        s
    }
}

/// Zero-padded three-digit rendering of a fraction in `0 .. 1000`.
pub open spec fn spec_frac3_chars(f: int) -> Seq<char> {
    if f < 10 {
        seq!['0', '0'] + spec_nat_digits(f as nat)
    } else if f < 100 {
        seq!['0'] + spec_nat_digits(f as nat)
    } else {
        spec_nat_digits(f as nat)
    }
}

/// Human-readable rendering of a milli-unit amount: the whole part, a
/// decimal point, and exactly three fraction digits.
pub open spec fn spec_milli_chars(v: int) -> Seq<char> {
    let mag = if v < 0 {
        -v
    } else {
        v
    };
    let sign: Seq<char> = if v < 0 {
        seq!['-']
    } else {
        Seq::empty()
    };
    sign + spec_nat_digits((mag / 1000) as nat) + seq!['.'] + spec_frac3_chars(mag % 1000)
}

/// Render a milli-unit amount, e.g. `15000` as `15.000`.
pub fn milli_to_string(v: i64) -> (s: String)
    ensures
        s@ == spec_milli_chars(v as int),
{
    let mag: u64 = if v >= 0 {
        v as u64
    } else if v == i64::MIN {
        9223372036854775808u64
    } else {
        (-v) as u64
    };
    let whole = mag / 1000;
    let frac = mag % 1000;
    let mut s = String::new();
    if v < 0 {
        s.append("-");
    }
    let ws = u64_to_string(whole);
    s.append(ws.as_str());
    s.append(".");
    if frac < 10 {
        s.append("00");
    } else if frac < 100 {
        s.append("0");
    }
    let fs = u64_to_string(frac);
    s.append(fs.as_str());
    proof {
        reveal_strlit("-");
        reveal_strlit(".");
        reveal_strlit("0");
        reveal_strlit("00");
        assert("00"@ =~= seq!['0', '0']);
        assert("0"@ =~= seq!['0']);
        assert("-"@ =~= seq!['-']);
        assert("."@ =~= seq!['.']);
        assert(s@ =~= spec_milli_chars(v as int));
    }
    s
}

} // verus!
