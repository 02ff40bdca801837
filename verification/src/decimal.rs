use vstd::prelude::*;
use crate::text::{chars_of, digit_char, digit_value, is_ascii_digit, push_char};

verus! {

// ---------------------------------------------------------------------------
// Formatting (`{}` of an integer)
// ---------------------------------------------------------------------------

/// Decimal digits of a natural number, most significant first, no leading zeros.
pub open spec fn nat_digits(n: nat) -> Seq<char>
    decreases n,
{
    if n < 10 {
        seq![digit_char(n as int)]
    } else {
        nat_digits(n / 10).push(digit_char((n % 10) as int))
    }
}

/// How `{}` prints an integer: a minus sign for negatives, then the digits.
pub open spec fn decimal(i: int) -> Seq<char> {
    if i < 0 {
        seq!['-'] + nat_digits((-i) as nat)
    } else {
        nat_digits(i as nat)
    }
}

fn digit_of(d: u64) -> (c: char)
    requires
        d < 10,
    ensures
        c == digit_char(d as int),
{
    if d == 0 {
        '0'
    } else if d == 1 {
        '1'
    } else if d == 2 {
        '2'
    } else if d == 3 {
        '3'
    } else if d == 4 {
        '4'
    } else if d == 5 {
        '5'
    } else if d == 6 {
        '6'
    } else if d == 7 {
        '7'
    } else if d == 8 {
        '8'
    } else {
        '9'
    }
}

fn push_nat_digits(out: &mut String, n: u64)
    ensures
        final(out)@ == old(out)@ + nat_digits(n as nat),
    decreases n,
{
    if n >= 10 {
        push_nat_digits(out, n / 10);
    }
    push_char(out, digit_of(n % 10));
    proof {
        if n >= 10 {
            assert(final(out)@ =~= old(out)@ + nat_digits(n as nat));
        } else {
            assert(final(out)@ =~= old(out)@ + nat_digits(n as nat));
        }
    }
}

/// Appends the decimal text of `v`.
pub fn push_decimal(out: &mut String, v: i64)
    ensures
        final(out)@ == old(out)@ + decimal(v as int),
{
    if v < 0 {
        push_char(out, '-');
        let magnitude: u64 = if v == i64::MIN {
            9223372036854775808u64
        } else {
            (-v) as u64
        };
        push_nat_digits(out, magnitude);
        assert(final(out)@ =~= old(out)@ + decimal(v as int));
    } else {
        push_nat_digits(out, v as u64);
    }
}

/// `n.to_string()` for an unsigned count.
pub fn count_string(n: u64) -> (r: String)
    ensures
        r@ == decimal(n as int),
{
    let mut out = String::new();
    push_nat_digits(&mut out, n);
    assert(out@ =~= decimal(n as int));
    out
}

/// `v.to_string()`.
pub fn decimal_string(v: i64) -> (r: String)
    ensures
        r@ == decimal(v as int),
{
    let mut out = String::new();
    push_decimal(&mut out, v);
    assert(out@ =~= decimal(v as int));
    out
}

// ---------------------------------------------------------------------------
// Parsing (`str::parse::<i64>` / `::<i32>`)
// ---------------------------------------------------------------------------

pub open spec fn all_digits(s: Seq<char>) -> bool {
    forall|i: int| 0 <= i < s.len() ==> is_ascii_digit(#[trigger] s[i])
}

/// The value of a string of decimal digits.
pub open spec fn digits_value(s: Seq<char>) -> int
    decreases s.len(),
{
    if s.len() == 0 {
        0
    } else {
        digits_value(s.drop_last()) * 10 + digit_value(s.last())
    }
}

/// The integer that `i64::from_str` reads, before the range check: an
/// optional `+` or `-`, then one or more ASCII digits, nothing else.
pub open spec fn parse_int(s: Seq<char>) -> Option<int> {
    if s.len() > 0 && (s[0] == '+' || s[0] == '-') {
        let body = s.drop_first();
        if body.len() > 0 && all_digits(body) {
            if s[0] == '-' {
                Some(-digits_value(body))
            } else {
                Some(digits_value(body))
            }
        } else {
            None
        }
    } else if s.len() > 0 && all_digits(s) {
        Some(digits_value(s))
    } else {
        None
    }
}

/// What `str::parse::<i64>` returns, as an option.
pub open spec fn parse_i64(s: Seq<char>) -> Option<i64> {
    match parse_int(s) {
        Some(v) => if i64::MIN <= v <= i64::MAX {
            Some(v as i64)
        } else {
            None
        },
        None => None,
    }
}

/// What `str::parse::<i32>` returns, as an option.
pub open spec fn parse_i32(s: Seq<char>) -> Option<i32> {
    match parse_int(s) {
        Some(v) => if i32::MIN <= v <= i32::MAX {
            Some(v as i32)
        } else {
            None
        },
        None => None,
    }
}

pub proof fn lemma_digits_value_nonneg(s: Seq<char>)
    requires
        all_digits(s),
    ensures
        digits_value(s) >= 0,
    decreases s.len(),
{
    if s.len() > 0 {
        assert(is_ascii_digit(s[s.len() - 1]));
        assert(all_digits(s.drop_last())) by {
            assert forall|i: int| 0 <= i < s.drop_last().len() implies is_ascii_digit(
                #[trigger] s.drop_last()[i],
            ) by {
                assert(s.drop_last()[i] == s[i]);
            }
        }
        lemma_digits_value_nonneg(s.drop_last());
    }
}

/// A prefix of a digit string never has a larger value than the whole.
pub proof fn lemma_digits_value_prefix(s: Seq<char>, k: int)
    requires
        all_digits(s),
        0 <= k <= s.len(),
    ensures
        digits_value(s.take(k)) <= digits_value(s),
    decreases s.len(),
{
    if k < s.len() {
        let t = s.drop_last();
        assert(all_digits(t)) by {
            assert forall|i: int| 0 <= i < t.len() implies is_ascii_digit(#[trigger] t[i]) by {
                assert(t[i] == s[i]);
            }
        }
        lemma_digits_value_prefix(t, k);
        assert(t.take(k) =~= s.take(k));
        lemma_digits_value_nonneg(t);
        assert(is_ascii_digit(s[s.len() - 1]));
    } else {
        assert(s.take(k) =~= s);
    }
}

/// Value of the digit string `cs[from..]`, if it fits below `limit`.
fn digits_upto(cs: &Vec<char>, from: usize, limit: i128) -> (r: Option<i128>)
    requires
        from < cs@.len(),
        all_digits(cs@.subrange(from as int, cs@.len() as int)),
        0 < limit < 0x1000_0000_0000_0000_0000_0000_0000,
    ensures
        match r {
            Some(v) => v == digits_value(cs@.subrange(from as int, cs@.len() as int)) && 0 <= v
                <= limit,
            None => digits_value(cs@.subrange(from as int, cs@.len() as int)) > limit,
        },
{
    let ghost body = cs@.subrange(from as int, cs@.len() as int);
    let mut acc: i128 = 0;
    let mut i = from;
    while i < cs.len()
        invariant
            from <= i <= cs@.len(),
            body == cs@.subrange(from as int, cs@.len() as int),
            all_digits(body),
            0 < limit < 0x1000_0000_0000_0000_0000_0000_0000,
            acc == digits_value(body.take(i - from)),
            0 <= acc <= limit,
        decreases cs@.len() - i,
    {
        let c = cs[i];
        assert(body[i - from] == c);
        assert(is_ascii_digit(c));
        let d = (c as u32 - '0' as u32) as i128;
        let next = acc * 10 + d;
        proof {
            assert(body.take(i - from + 1).drop_last() =~= body.take(i - from));
            assert(body.take(i - from + 1).last() == c);
        }
        if next > limit {
            proof {
                lemma_digits_value_prefix(body, i - from + 1);
            }
            return None;
        }
        acc = next;
        i += 1;
    }
    assert(body.take(cs@.len() - from) =~= body);
    Some(acc)
}

/// Whether `cs[from..]` is made of ASCII digits only.
fn digits_from(cs: &Vec<char>, from: usize) -> (b: bool)
    requires
        from <= cs@.len(),
    ensures
        b == all_digits(cs@.subrange(from as int, cs@.len() as int)),
{
    let ghost body = cs@.subrange(from as int, cs@.len() as int);
    let mut j = from;
    while j < cs.len()
        invariant
            from <= j <= cs@.len(),
            body == cs@.subrange(from as int, cs@.len() as int),
            forall|k: int| 0 <= k < j - from ==> is_ascii_digit(#[trigger] body[k]),
        decreases cs@.len() - j,
    {
        if !(cs[j] >= '0' && cs[j] <= '9') {
            assert(!is_ascii_digit(body[j - from]));
            return false;
        }
        assert(body[j - from] == cs@[j as int]);
        j += 1;
    }
    true
}

/// `s.parse::<i64>().ok()`.
pub fn parse_i64_chars(cs: &Vec<char>) -> (r: Option<i64>)
    ensures
        r == parse_i64(cs@),
{
    let n = cs.len();
    if n == 0 {
        return None;
    }
    let signed = cs[0] == '+' || cs[0] == '-';
    let from: usize = if signed {
        1
    } else {
        0
    };
    if from >= n {
        return None;
    }
    let ghost body = cs@.subrange(from as int, n as int);
    proof {
        if signed {
            assert(body =~= cs@.drop_first());
        } else {
            assert(body =~= cs@);
        }
    }
    if !digits_from(cs, from) {
        return None;
    }
    let negative = cs[0] == '-';
    let limit: i128 = if negative {
        9223372036854775808
    } else {
        9223372036854775807
    };
    match digits_upto(cs, from, limit) {
        Some(v) => {
            if negative {
                Some((-v) as i64)
            } else {
                Some(v as i64)
            }
        },
        None => None,
    }
}

/// `s.parse::<i64>().ok()`.
pub fn parse_i64_str(s: &str) -> (r: Option<i64>)
    ensures
        r == parse_i64(s@),
{
    let cs = chars_of(s);
    parse_i64_chars(&cs)
}

/// The value of `cs` when it is one or more ASCII digits (no sign) whose
/// value fits an `i64`; `None` otherwise.
pub fn digits_only_value(cs: &Vec<char>) -> (r: Option<i64>)
    ensures
        match r {
            Some(v) => cs@.len() > 0 && all_digits(cs@) && v == digits_value(cs@),
            None => !(cs@.len() > 0 && all_digits(cs@) && digits_value(cs@) <= i64::MAX),
        },
{
    if cs.len() == 0 {
        return None;
    }
    assert(cs@.subrange(0, cs@.len() as int) =~= cs@);
    if !digits_from(cs, 0) {
        return None;
    }
    match digits_upto(cs, 0, 9223372036854775807) {
        Some(v) => Some(v as i64),
        None => None,
    }
}

/// Four ASCII digits are worth at most 9999.
pub proof fn lemma_four_digits_bound(s: Seq<char>)
    requires
        s.len() == 4,
        all_digits(s),
    ensures
        0 <= digits_value(s) <= 9999,
{
    reveal_with_fuel(digits_value, 5);
    assert(is_ascii_digit(s[0]) && is_ascii_digit(s[1]) && is_ascii_digit(s[2]) && is_ascii_digit(s[3]));
    assert(s.drop_last().drop_last().drop_last().drop_last() =~= Seq::<char>::empty());
    assert(s.drop_last().drop_last().drop_last().last() == s[0]);
    assert(s.drop_last().drop_last().last() == s[1]);
    assert(s.drop_last().last() == s[2]);
    assert(s.last() == s[3]);
}

/// `s.parse::<i32>().ok()`.
pub fn parse_i32_chars(cs: &Vec<char>) -> (r: Option<i32>)
    ensures
        r == parse_i32(cs@),
{
    match parse_i64_chars(cs) {
        Some(v) => {
            if v >= i32::MIN as i64 && v <= i32::MAX as i64 {
                Some(v as i32)
            } else {
                None
            }
        },
        None => None,
    }
}

} // verus!

verus! {

/// `format!("{prefix}{id}")`.
pub fn with_number(prefix: &str, id: i64) -> (r: String)
    ensures
        r@ == prefix@ + decimal(id as int),
{
    let mut out = crate::text::string_of(prefix);
    push_decimal(&mut out, id);
    out
}

proof fn lemma_digit_char(k: int)
    requires
        0 <= k < 10,
    ensures
        is_ascii_digit(digit_char(k)),
        digit_value(digit_char(k)) == k,
{
}

/// The digits of a natural number are ASCII digits, at least one, and read
/// back as the number.
pub proof fn lemma_nat_digits_read_back(n: nat)
    ensures
        nat_digits(n).len() > 0,
        all_digits(nat_digits(n)),
        digits_value(nat_digits(n)) == n,
    decreases n,
{
    let d = nat_digits(n);
    lemma_digit_char((n % 10) as int);
    if n < 10 {
        assert(d.drop_last() =~= Seq::<char>::empty());
        assert(n % 10 == n);
        assert(d.last() == digit_char(n as int));
        assert(digits_value(d) == digits_value(d.drop_last()) * 10 + digit_value(d.last()));
    } else {
        lemma_nat_digits_read_back(n / 10);
        assert(n == (n / 10) * 10 + n % 10);
        assert(d.last() == digit_char((n % 10) as int));
        assert(digits_value(d) == digits_value(d.drop_last()) * 10 + digit_value(d.last()));
        assert(d.drop_last() =~= nat_digits(n / 10));
        assert forall|i: int| 0 <= i < d.len() implies is_ascii_digit(#[trigger] d[i]) by {
            if i < d.len() - 1 {
                assert(d[i] == nat_digits(n / 10)[i]);
            }
        }
    }
}

/// `{}` of an integer parses back to that integer.
pub proof fn lemma_parse_decimal(x: int)
    ensures
        parse_int(decimal(x)) == Some(x),
{
    if x < 0 {
        let body = nat_digits((-x) as nat);
        lemma_nat_digits_read_back((-x) as nat);
        assert(decimal(x).drop_first() =~= body);
    } else {
        lemma_nat_digits_read_back(x as nat);
        let d = nat_digits(x as nat);
        assert(is_ascii_digit(d[0]));
    }
}

/// `{}` of an `i64` parses back to it with `str::parse::<i64>`.
pub proof fn lemma_parse_i64_decimal(x: i64)
    ensures
        parse_i64(decimal(x as int)) == Some(x),
{
    lemma_parse_decimal(x as int);
}

} // verus!
