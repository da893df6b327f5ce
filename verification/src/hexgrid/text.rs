//! Decimal text of integers: writing and reading them as `i32`'s `Display` and `FromStr` do.
use vstd::prelude::*;
use vstd::string::*;

verus! {

/// The character of a decimal digit.
pub open spec fn digit_char(d: int) -> char {
    if d == 0 { '0' }
    else if d == 1 { '1' }
    else if d == 2 { '2' }
    else if d == 3 { '3' }
    else if d == 4 { '4' }
    else if d == 5 { '5' }
    else if d == 6 { '6' }
    else if d == 7 { '7' }
    else if d == 8 { '8' }
    else { '9' }
}

/// The value of a decimal digit character.
pub open spec fn char_digit(c: char) -> int {
    (c as int) - ('0' as int)
}

pub open spec fn is_digit(c: char) -> bool {
    '0' <= c && c <= '9'
}

/// Decimal digits of a natural number, most significant first, without leading zeros.
pub open spec fn nat_digits(n: nat) -> Seq<char>
    decreases n,
{
    if n < 10 {
        seq![digit_char(n as int)]
    } else {
        nat_digits(n / 10).push(digit_char((n % 10) as int))
    }
}

/// Decimal text of an integer: a `-` before the digits of a negative number.
pub open spec fn int_text(i: int) -> Seq<char> {
    if i < 0 {
        seq!['-'] + nat_digits((-i) as nat)
    } else {
        nat_digits(i as nat)
    }
}

pub open spec fn all_digits(s: Seq<char>) -> bool {
    forall|k: int| 0 <= k < s.len() ==> is_digit(#[trigger] s[k])
}

/// The value of a sequence of decimal digits, most significant first.
pub open spec fn digits_value(s: Seq<char>) -> int
    decreases s.len(),
{
    if s.len() == 0 {
        0
    } else {
        digits_value(s.drop_last()) * 10 + char_digit(s.last())
    }
}

/// What `str::parse::<i32>` gives: an optional sign `+` or `-`, then one or more decimal
/// digits whose value fits in an `i32`; anything else is refused.
pub open spec fn parse_i32_text(s: Seq<char>) -> Option<i32> {
    let negative = s.len() > 0 && s[0] == '-';
    let signed = s.len() > 0 && (s[0] == '-' || s[0] == '+');
    let digits = if signed { s.drop_first() } else { s };
    let value = if negative { -digits_value(digits) } else { digits_value(digits) };
    if digits.len() > 0 && all_digits(digits) && i32::MIN <= value <= i32::MAX {
        Some(value as i32)
    } else {
        None
    }
}

/// The text of one decimal digit.
fn digit_str(d: u32) -> (s: &'static str)
    requires
        d < 10,
    ensures
        s@ == seq![digit_char(d as int)],
{
    proof {
        reveal_strlit("0");
        reveal_strlit("1");
        reveal_strlit("2");
        reveal_strlit("3");
        reveal_strlit("4");
        reveal_strlit("5");
        reveal_strlit("6");
        reveal_strlit("7");
        reveal_strlit("8");
        reveal_strlit("9");
    }
    if d == 0 { "0" }
    else if d == 1 { "1" }
    else if d == 2 { "2" }
    else if d == 3 { "3" }
    else if d == 4 { "4" }
    else if d == 5 { "5" }
    else if d == 6 { "6" }
    else if d == 7 { "7" }
    else if d == 8 { "8" }
    else { "9" }
}

/// Appends the decimal digits of `n` to `out`.
fn push_nat_digits(out: &mut String, n: u32)
    ensures
        final(out)@ == old(out)@ + nat_digits(n as nat),
    decreases n,
{
    if n < 10 {
        out.append(digit_str(n));
    } else {
        push_nat_digits(out, n / 10);
        out.append(digit_str(n % 10));
        proof {
            assert(nat_digits(n as nat) == nat_digits((n / 10) as nat).push(digit_char((n % 10) as int)));
        }
    }
}

/// Appends the decimal text of `i` to `out`, as `i32`'s `Display` writes it.
pub fn push_i32_text(out: &mut String, i: i32)
    ensures
        final(out)@ == old(out)@ + int_text(i as int),
{
    if i < 0 {
        proof { reveal_strlit("-"); }
        out.append("-");
        let magnitude: u32 = (-(i as i64)) as u32;
        push_nat_digits(out, magnitude);
        assert(final(out)@ =~= old(out)@ + int_text(i as int));
    } else {
        push_nat_digits(out, i as u32);
    }
}

/// The characters of a string slice.
pub fn str_chars(s: &str) -> (v: Vec<char>)
    ensures
        v@ == s@,
{
    let n = s.unicode_len();
    let mut v: Vec<char> = Vec::new();
    let mut k: usize = 0;
    while k < n
        invariant
            n == s@.len(),
            k <= n,
            v@ == s@.subrange(0, k as int),
        decreases n - k,
    {
        v.push(s.get_char(k));
        k = k + 1;
    }
    v
}


/// The value of digits never falls below the value of a prefix of them.
proof fn lemma_digits_value_prefix(s: Seq<char>, k: int)
    requires
        all_digits(s),
        0 <= k <= s.len(),
    ensures
        digits_value(s) >= digits_value(s.take(k)),
        digits_value(s) >= 0,
    decreases s.len(),
{
    if s.len() == 0 {
        assert(s.take(k) =~= s);
    } else if k == s.len() {
        assert(s.take(k) =~= s);
        lemma_digits_value_prefix(s.drop_last(), k - 1);
        assert(all_digits(s.drop_last()));
    } else {
        assert(s.drop_last().take(k) =~= s.take(k));
        assert(all_digits(s.drop_last())) by {
            assert forall|j: int| 0 <= j < s.drop_last().len() implies is_digit(#[trigger] s.drop_last()[j]) by {
                assert(s.drop_last()[j] == s[j]);
            }
        }
        lemma_digits_value_prefix(s.drop_last(), k);
        assert(is_digit(s[s.len() - 1]));
    }
}

/// Reads `chars[start..end]` as `str::parse::<i32>` does.
pub fn parse_i32_chars(chars: &Vec<char>, start: usize, end: usize) -> (res: Option<i32>)
    requires
        start <= end <= chars@.len(),
    ensures
        res == parse_i32_text(chars@.subrange(start as int, end as int)),
{
    let ghost s = chars@.subrange(start as int, end as int);
    let mut k = start;
    let mut negative = false;
    if start < end && (chars[start] == '-' || chars[start] == '+') {
        negative = chars[start] == '-';
        k = start + 1;
    }
    assert(negative == (s.len() > 0 && s[0] == '-'));
    let ghost digits = chars@.subrange(k as int, end as int);
    assert(digits =~= (if s.len() > 0 && (s[0] == '-' || s[0] == '+') { s.drop_first() } else { s }));
    if k == end {
        return None;
    }
    let digits_start = k;
    let mut acc: i64 = 0;
    while k < end
        invariant
            digits_start <= k <= end <= chars@.len(),
            digits == chars@.subrange(digits_start as int, end as int),
            s == chars@.subrange(start as int, end as int),
            digits == (if s.len() > 0 && (s[0] == '-' || s[0] == '+') { s.drop_first() } else { s }),
            negative == (s.len() > 0 && s[0] == '-'),
            digits.len() > 0,
            0 <= acc <= 2147483648,
            acc == digits_value(chars@.subrange(digits_start as int, k as int)),
            all_digits(chars@.subrange(digits_start as int, k as int)),
        decreases end - k,
    {
        let c = chars[k];
        if !('0' <= c && c <= '9') {
            assert(!is_digit(digits[k - digits_start]));
            return None;
        }
        let ghost before = chars@.subrange(digits_start as int, k as int);
        let ghost after = chars@.subrange(digits_start as int, k + 1);
        assert(after.drop_last() =~= before);
        let d = (c as u32 - '0' as u32) as i64;
        acc = acc * 10 + d;
        k = k + 1;
        assert(all_digits(after)) by {
            assert forall|j: int| 0 <= j < after.len() implies is_digit(#[trigger] after[j]) by {
                if j < before.len() {
                    assert(after[j] == before[j]);
                }
            }
        }
        if acc > 2147483648 {
            proof {
                if all_digits(digits) {
                    assert(digits.take((k - digits_start) as int) =~= after);
                    lemma_digits_value_prefix(digits, (k - digits_start) as int);
                }
            }
            return None;
        }
    }
    assert(chars@.subrange(digits_start as int, k as int) =~= digits);
    if negative {
        Some((-acc) as i32)
    } else if acc <= 2147483647 {
        Some(acc as i32)
    } else {
        None
    }
}


/// Reading the character of a digit gives the digit.
proof fn lemma_digit_char(d: int)
    requires
        0 <= d < 10,
    ensures
        char_digit(digit_char(d)) == d,
        is_digit(digit_char(d)),
{
}

/// The digits of a number are decimal digits, at least one, and their value is the number.
pub proof fn lemma_nat_digits(n: nat)
    ensures
        nat_digits(n).len() > 0,
        all_digits(nat_digits(n)),
        digits_value(nat_digits(n)) == n,
    decreases n,
{
    lemma_digit_char((n % 10) as int);
    if n >= 10 {
        lemma_nat_digits(n / 10);
        let d = nat_digits(n / 10);
        let e = d.push(digit_char((n % 10) as int));
        assert(e.drop_last() =~= d);
        assert(digits_value(e) == digits_value(d) * 10 + char_digit(e.last()));
        assert(n == (n / 10) * 10 + n % 10);
        assert(all_digits(e)) by {
            assert forall|j: int| 0 <= j < e.len() implies is_digit(#[trigger] e[j]) by {
                if j < d.len() {
                    assert(e[j] == d[j]);
                }
            }
        }
    } else {
        let e = nat_digits(n);
        assert(e.drop_last() =~= Seq::<char>::empty());
        assert(digits_value(e) == digits_value(e.drop_last()) * 10 + char_digit(e.last()));
    }
}

/// Reading back the text of an `i32` gives the same `i32`, and that text holds no letter.
pub proof fn lemma_int_text_roundtrip(i: i32)
    ensures
        parse_i32_text(int_text(i as int)) == Some(i),
        forall|k: int| 0 <= k < int_text(i as int).len() ==> {
            let c = #[trigger] int_text(i as int)[k];
            c == '-' || is_digit(c)
        },
{
    let t = int_text(i as int);
    if i < 0 {
        let n = (-i) as nat;
        lemma_nat_digits(n);
        assert(t.drop_first() =~= nat_digits(n));
        assert forall|k: int| 0 <= k < t.len() implies {
            let c = #[trigger] t[k];
            c == '-' || is_digit(c)
        } by {
            if k > 0 {
                assert(t[k] == nat_digits(n)[k - 1]);
            }
        }
    } else {
        lemma_nat_digits(i as nat);
        assert(is_digit(t[0]));
    }
}

} // verus!
