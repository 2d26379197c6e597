//! Characters, decimal numerals and the textual helpers shared by the data model.

use vstd::prelude::*;

verus! {

/// Whether `c` is one of the ASCII digits `0` to `9`.
pub open spec fn is_ascii_digit(c: char) -> bool {
    48 <= (c as u32) && (c as u32) <= 57
}

/// The numeric value of an ASCII digit.
pub open spec fn digit_value(c: char) -> nat {
    ((c as u32) - 48) as nat
}

/// The ASCII digit whose value is `d` (for `d < 10`).
pub open spec fn digit_char(d: nat) -> char {
    ((d + 48) as u32) as char
}

/// Whether every character of `s` is an ASCII digit.
pub open spec fn all_digits(s: Seq<char>) -> bool {
    forall|i: int| 0 <= i < s.len() ==> #[trigger] is_ascii_digit(s[i])
}

/// The value of a numeral written in decimal, most significant digit first.
pub open spec fn decimal_value(s: Seq<char>) -> nat
    decreases s.len(),
{
    if s.len() == 0 {
        0
    } else {
        decimal_value(s.drop_last()) * 10 + digit_value(s.last())
    }
}

/// The shortest decimal numeral of a natural number.
pub open spec fn nat_to_decimal(n: nat) -> Seq<char>
    decreases n,
{
    if n < 10 {
        seq![digit_char(n)]
    } else {
        nat_to_decimal(n / 10).push(digit_char(n % 10))
    }
}

/// The decimal numeral of an integer, with a leading `-` when it is negative.
pub open spec fn int_to_decimal(n: int) -> Seq<char> {
    if n < 0 {
        seq!['-'] + nat_to_decimal((-n) as nat)
    } else {
        nat_to_decimal(n as nat)
    }
}

/// The value of a signed numeral: an optional `+` or `-`, then at least one
/// ASCII digit and nothing else.
pub open spec fn signed_numeral_value(s: Seq<char>) -> Option<int> {
    let neg = s.len() > 0 && s[0] == '-';
    let body = if s.len() > 0 && (s[0] == '-' || s[0] == '+') { s.drop_first() } else { s };
    if body.len() > 0 && all_digits(body) {
        Some(if neg { -(decimal_value(body) as int) } else { decimal_value(body) as int })
    } else {
        None
    }
}

/// The value of an unsigned numeral: an optional `+`, then at least one ASCII
/// digit and nothing else.
pub open spec fn unsigned_numeral_value(s: Seq<char>) -> Option<nat> {
    let body = if s.len() > 0 && s[0] == '+' { s.drop_first() } else { s };
    if body.len() > 0 && all_digits(body) {
        Some(decimal_value(body))
    } else {
        None
    }
}

/// What parsing `s` as an `i16` gives: the numeral's value when it fits.
pub open spec fn spec_parse_i16(s: Seq<char>) -> Option<i16> {
    match signed_numeral_value(s) {
        Some(v) => if -32768 <= v <= 32767 { Some(v as i16) } else { None },
        None => None,
    }
}

/// What parsing `s` as a `u8` gives: the numeral's value when it fits.
pub open spec fn spec_parse_u8(s: Seq<char>) -> Option<u8> {
    match unsigned_numeral_value(s) {
        Some(v) => if v <= 255 { Some(v as u8) } else { None },
        None => None,
    }
}

/// Appending a digit multiplies the value by ten and adds the digit.
proof fn lemma_decimal_value_push(s: Seq<char>, c: char)
    ensures
        decimal_value(s.push(c)) == decimal_value(s) * 10 + digit_value(c),
{
    assert(s.push(c).drop_last() =~= s);
}

/// The one-character string of a decimal digit.
fn digit_str(d: u64) -> (r: &'static str)
    requires
        d < 10,
    ensures
        r@ == seq![digit_char(d as nat)],
{
    if d == 0 {
        proof { reveal_strlit("0"); }
        "0"
    } else if d == 1 {
        proof { reveal_strlit("1"); }
        "1"
    } else if d == 2 {
        proof { reveal_strlit("2"); }
        "2"
    } else if d == 3 {
        proof { reveal_strlit("3"); }
        "3"
    } else if d == 4 {
        proof { reveal_strlit("4"); }
        "4"
    } else if d == 5 {
        proof { reveal_strlit("5"); }
        "5"
    } else if d == 6 {
        proof { reveal_strlit("6"); }
        "6"
    } else if d == 7 {
        proof { reveal_strlit("7"); }
        "7"
    } else if d == 8 {
        proof { reveal_strlit("8"); }
        "8"
    } else {
        proof { reveal_strlit("9"); }
        "9"
    }
}

/// The shortest decimal numeral of `n`.
pub fn u64_to_decimal(n: u64) -> (res: String)
    ensures
        res@ == nat_to_decimal(n as nat),
    decreases n,
{
    if n < 10 {
        digit_str(n).to_owned()
    } else {
        let mut s = u64_to_decimal(n / 10);
        s.append(digit_str(n % 10));
        s
    }
}

/// The decimal numeral of `n`, as `i64`'s `to_string` writes it.
pub fn i64_to_decimal(n: i64) -> (res: String)
    ensures
        res@ == int_to_decimal(n as int),
{
    if n < 0 {
        let magnitude: u64 = if n == i64::MIN { 9223372036854775808u64 } else { (-n) as u64 };
        let digits = u64_to_decimal(magnitude);
        proof { reveal_strlit("-"); }
        let mut s = "-".to_owned();
        s.append(digits.as_str());
        s
    } else {
        u64_to_decimal(n as u64)
    }
}

/// Reads the digits `s[start..]` as a decimal magnitude. The result is the
/// exact value when it is at most 100000, and `None` when some character is
/// not a digit; a larger value comes back as `Some(m)` with `m > 100000`.
fn read_magnitude(s: &str, start: usize) -> (res: Option<u64>)
    requires
        start <= s@.len(),
    ensures
        res is None <==> !all_digits(s@.skip(start as int)),
        res matches Some(m) ==> {
            &&& (m <= 100000 ==> m == decimal_value(s@.skip(start as int)))
            &&& (m > 100000 ==> decimal_value(s@.skip(start as int)) > 100000)
        },
{
    let n = s.unicode_len();
    let mut i = start;
    let mut acc: u64 = 0;
    while i < n
        invariant
            n == s@.len(),
            start <= i <= n,
            all_digits(s@.subrange(start as int, i as int)),
            acc <= 100000 ==> acc == decimal_value(s@.subrange(start as int, i as int)),
            acc > 100000 ==> acc <= 1000009 && decimal_value(s@.subrange(start as int, i as int)) > 100000,
        decreases n - i,
    {
        let c = s.get_char(i);
        let code = c as u32;
        if code < 48 || code > 57 {
            assert(!is_ascii_digit(s@.skip(start as int)[i - start]));
            return None;
        }
        let ghost prev = s@.subrange(start as int, i as int);
        proof {
            assert(s@.subrange(start as int, i + 1) =~= prev.push(c));
            lemma_decimal_value_push(prev, c);
        }
        if acc <= 100000 {
            acc = acc * 10 + (code - 48) as u64;
        }
        i = i + 1;
    }
    assert(s@.subrange(start as int, n as int) =~= s@.skip(start as int));
    Some(acc)
}

/// Parses `s` as an `i16` the way `str::parse::<i16>` does: an optional sign,
/// then decimal digits only, and a value in range.
pub fn parse_i16(s: &str) -> (res: Option<i16>)
    ensures
        res == spec_parse_i16(s@),
{
    let n = s.unicode_len();
    let mut neg = false;
    let mut start: usize = 0;
    if n > 0 {
        let c = s.get_char(0);
        if c == '-' {
            neg = true;
            start = 1;
        } else if c == '+' {
            start = 1;
        }
    }
    if start >= n {
        return None;
    }
    assert(start == 0 ==> s@.skip(0) =~= s@);
    match read_magnitude(s, start) {
        None => None,
        Some(m) => {
            if neg {
                if m <= 32768 {
                    Some((0i32 - m as i32) as i16)
                } else {
                    None
                }
            } else {
                if m <= 32767 {
                    Some(m as i16)
                } else {
                    None
                }
            }
        }
    }
}

/// Parses `s` as a `u8` the way `str::parse::<u8>` does: an optional `+`,
/// then decimal digits only, and a value in range.
pub fn parse_u8(s: &str) -> (res: Option<u8>)
    ensures
        res == spec_parse_u8(s@),
{
    let n = s.unicode_len();
    let mut start: usize = 0;
    if n > 0 {
        let c = s.get_char(0);
        if c == '+' {
            start = 1;
        }
    }
    if start >= n {
        return None;
    }
    assert(start == 0 ==> s@.skip(0) =~= s@);
    match read_magnitude(s, start) {
        None => None,
        Some(m) => if m <= 255 { Some(m as u8) } else { None },
    }
}

/// Whether `c` occurs in `s` (what `str::contains` answers for a `char`).
pub fn contains_char(s: &str, c: char) -> (res: bool)
    ensures
        res == s@.contains(c),
{
    let n = s.unicode_len();
    let mut i: usize = 0;
    while i < n
        invariant
            n == s@.len(),
            i <= n,
            forall|j: int| 0 <= j < i ==> s@[j] != c,
        decreases n - i,
    {
        if s.get_char(i) == c {
            return true;
        }
        i = i + 1;
    }
    false
}

/// A digit character has the digit's value.
proof fn lemma_digit_char(d: nat)
    requires
        d < 10,
    ensures
        is_ascii_digit(digit_char(d)),
        digit_value(digit_char(d)) == d,
        digit_char(d) != '-',
        digit_char(d) != '+',
{
    let u = (d + 48) as u32;
    assert(u as char as u32 == u) by {
        vstd::utf8::char_u32_cast(u as char, u);
    }
}

/// The decimal numeral of `k` is a non-empty run of digits whose value is `k`.
pub proof fn lemma_nat_to_decimal(k: nat)
    ensures
        nat_to_decimal(k).len() > 0,
        all_digits(nat_to_decimal(k)),
        decimal_value(nat_to_decimal(k)) == k,
    decreases k,
{
    if k < 10 {
        lemma_digit_char(k);
        let s = nat_to_decimal(k);
        assert(s.drop_last() =~= Seq::<char>::empty());
        assert(decimal_value(s.drop_last()) == 0);
        assert(decimal_value(s) == digit_value(s.last()));
    } else {
        lemma_nat_to_decimal(k / 10);
        lemma_digit_char(k % 10);
        let p = nat_to_decimal(k / 10);
        lemma_decimal_value_push(p, digit_char(k % 10));
        let s = p.push(digit_char(k % 10));
        assert(s == nat_to_decimal(k));
        assert(decimal_value(s) == (k / 10) * 10 + k % 10);
        assert forall|i: int| 0 <= i < s.len() implies #[trigger] is_ascii_digit(s[i]) by {
            if i < p.len() {
                assert(s[i] == p[i]);
            }
        }
    }
}

/// Reading back the decimal numeral of an `i16` gives the number: formatting
/// a number as text and parsing that text as an `i16` is the identity.
pub proof fn lemma_parse_i16_of_decimal(n: i16)
    ensures
        spec_parse_i16(int_to_decimal(n as int)) == Some(n),
{
    if n < 0 {
        let k = (-(n as int)) as nat;
        lemma_nat_to_decimal(k);
        let s = int_to_decimal(n as int);
        assert(s.drop_first() =~= nat_to_decimal(k));
    } else {
        lemma_nat_to_decimal(n as nat);
        let s = nat_to_decimal(n as nat);
        assert(is_ascii_digit(s[0]));
    }
}

/// The decimal numeral of a positive number does not start with `0`.
pub proof fn lemma_nat_to_decimal_no_leading_zero(k: nat)
    requires
        k > 0,
    ensures
        nat_to_decimal(k)[0] != '0',
    decreases k,
{
    if k < 10 {
        lemma_digit_char(k);
    } else {
        lemma_nat_to_decimal(k / 10);
        lemma_nat_to_decimal_no_leading_zero(k / 10);
        assert(nat_to_decimal(k)[0] == nat_to_decimal(k / 10)[0]);
    }
}

/// The decimal numeral of any integer reads back as that integer, starts
/// with `-` exactly when the integer is negative, never with `+`, and has no
/// leading zero.
pub proof fn lemma_int_to_decimal_reads_back(n: int)
    ensures
        signed_numeral_value(int_to_decimal(n)) == Some(n),
        int_to_decimal(n).len() > 0,
        int_to_decimal(n)[0] != '+',
        int_to_decimal(n)[0] == '-' <==> n < 0,
        n > 0 ==> int_to_decimal(n)[0] != '0',
        n < 0 ==> int_to_decimal(n)[1] != '0',
{
    if n < 0 {
        let k = (-n) as nat;
        lemma_nat_to_decimal(k);
        lemma_nat_to_decimal_no_leading_zero(k);
        let s = int_to_decimal(n);
        assert(s.drop_first() =~= nat_to_decimal(k));
        assert(s[1] == nat_to_decimal(k)[0]);
    } else {
        lemma_nat_to_decimal(n as nat);
        let s = nat_to_decimal(n as nat);
        assert(is_ascii_digit(s[0]));
        if n > 0 {
            lemma_nat_to_decimal_no_leading_zero(n as nat);
        }
    }
}

} // verus!
