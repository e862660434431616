//! Decimal text of integers: formatting (as `Display` writes it) and parsing
//! (as `str::parse` reads it).
use vstd::prelude::*;
use crate::text::{ascii_digit, decimal_digit, chars_of, is_ascii_digit, push_char};

verus! {

/// The character of a decimal digit value.
pub open spec fn digit_char(d: nat) -> char {
    if d == 0 {
        '0'
    } else if d == 1 {
        '1'
    } else if d == 2 {
        '2'
    } else if d == 3 {
        '3'
    } else if d == 4 {
        '4'
    } else if d == 5 {
        '5'
    } else if d == 6 {
        '6'
    } else if d == 7 {
        '7'
    } else if d == 8 {
        '8'
    } else {
        '9'
    }
}

/// The decimal text of `n`, without sign or leading zeros.
pub open spec fn decimal(n: nat) -> Seq<char>
    decreases n,
{
    if n < 10 {
        seq![digit_char(n)]
    } else {
        decimal(n / 10).push(digit_char(n % 10))
    }
}

fn digit_to_char(d: u64) -> (c: char)
    requires
        d < 10,
    ensures
        c == digit_char(d as nat),
{
    if d == 0 {
        '0'
    } else if d == 1 {
        '1'
    } else if d == 2 {
        '2'
    } else if d == 3 {
        '3'
    } else if d == 4 {
        '4'
    } else if d == 5 {
        '5'
    } else if d == 6 {
        '6'
    } else if d == 7 {
        '7'
    } else if d == 8 {
        '8'
    } else {
        '9'
    }
}

/// Appends the decimal text of `n`.
pub fn push_decimal(s: &mut String, n: u64)
    ensures
        final(s)@ == old(s)@ + decimal(n as nat),
    decreases n,
{
    if n >= 10 {
        push_decimal(s, n / 10);
    }
    let c = digit_to_char(n % 10);
    push_char(s, c);
    proof {
        if n >= 10 {
            assert(old(s)@ + decimal(n as nat) =~= old(s)@ + decimal((n / 10) as nat) + seq![c]);
        } else {
            assert(decimal(n as nat) =~= seq![c]);
        }
    }
}


/// The value of an ASCII digit.
pub open spec fn digit_value(c: char) -> nat {
    ((c as u32) - 48) as nat
}

pub open spec fn all_ascii_digits(s: Seq<char>) -> bool {
    forall|i: int| 0 <= i < s.len() ==> ascii_digit(#[trigger] s[i])
}

/// The number that a run of ASCII digits denotes.
pub open spec fn decimal_value(s: Seq<char>) -> nat
    decreases s.len(),
{
    if s.len() == 0 {
        0
    } else {
        decimal_value(s.drop_last()) * 10 + digit_value(s.last())
    }
}

/// The digits of an unsigned number's text: an optional leading `+` is dropped.
pub open spec fn unsigned_digits(s: Seq<char>) -> Seq<char> {
    if s.len() > 0 && s[0] == '+' {
        s.drop_first()
    } else {
        s
    }
}

/// What `str::parse` gives for an unsigned integer type whose largest value
/// is `max`: the value, or `None` where std reports an error (no digit, a
/// character that is not an ASCII digit, or a value above `max`).
pub open spec fn parse_unsigned(s: Seq<char>, max: nat) -> Option<nat> {
    let d = unsigned_digits(s);
    if d.len() > 0 && all_ascii_digits(d) && decimal_value(d) <= max {
        Some(decimal_value(d))
    } else {
        None
    }
}

/// What `str::parse::<i64>` gives.
pub open spec fn parse_i64(s: Seq<char>) -> Option<int> {
    if s.len() > 0 && s[0] == '-' {
        let d = s.drop_first();
        if d.len() > 0 && all_ascii_digits(d) && decimal_value(d) <= 0x8000_0000_0000_0000 {
            Some(-(decimal_value(d) as int))
        } else {
            None
        }
    } else {
        match parse_unsigned(s, 0x7fff_ffff_ffff_ffff) {
            Some(v) => Some(v as int),
            None => None,
        }
    }
}

proof fn lemma_value_of_prefix(s: Seq<char>, k: int)
    requires
        0 <= k <= s.len(),
        all_ascii_digits(s),
    ensures
        decimal_value(s.subrange(0, k)) <= decimal_value(s),
    decreases s.len(),
{
    if k == s.len() {
        assert(s.subrange(0, k) =~= s);
    } else {
        let t = s.drop_last();
        assert(t.subrange(0, k) =~= s.subrange(0, k));
        assert(all_ascii_digits(t)) by {
            assert forall|i: int| 0 <= i < t.len() implies ascii_digit(#[trigger] t[i]) by {
                assert(t[i] == s[i]);
            }
        }
        lemma_value_of_prefix(t, k);
    }
}

/// The value of the ASCII digits `v[lo..hi]` if it is at most `max`; `None`
/// where a character is not an ASCII digit, where there is none, or where the
/// value exceeds `max`.
fn digits_value_bounded(v: &Vec<char>, lo: usize, hi: usize, max: u64) -> (r: Option<u64>)
    requires
        lo <= hi <= v@.len(),
    ensures
        ({
            let d = v@.subrange(lo as int, hi as int);
            match r {
                Some(x) => d.len() > 0 && all_ascii_digits(d) && decimal_value(d) == x
                    && x <= max,
                None => !(d.len() > 0 && all_ascii_digits(d) && decimal_value(d) <= max),
            }
        }),
{
    let ghost d = v@.subrange(lo as int, hi as int);
    if lo == hi {
        return None;
    }
    let mut acc: u128 = 0;
    let mut i: usize = lo;
    while i < hi
        invariant
            lo <= i <= hi <= v@.len(),
            d == v@.subrange(lo as int, hi as int),
            all_ascii_digits(d.subrange(0, i - lo)),
            acc == decimal_value(d.subrange(0, i - lo)),
            acc <= max,
        decreases hi - i,
    {
        let c = v[i];
        if !is_ascii_digit(c) {
            assert(d[i - lo] == c);
            return None;
        }
        let ghost p = d.subrange(0, i - lo);
        let ghost p1 = d.subrange(0, i - lo + 1);
        assert(p1.drop_last() =~= p);
        assert(p1.last() == c);
        let dv: u32 = (c as u32) - 48;
        acc = acc * 10 + (dv as u128);
        assert(all_ascii_digits(p1)) by {
            assert forall|j: int| 0 <= j < p1.len() implies ascii_digit(#[trigger] p1[j]) by {
                if j < p.len() {
                    assert(p1[j] == p[j]);
                }
            }
        }
        if acc > max as u128 {
            proof {
                if all_ascii_digits(d) {
                    lemma_value_of_prefix(d, i - lo + 1);
                }
            }
            return None;
        }
        i = i + 1;
    }
    assert(d.subrange(0, hi - lo) =~= d);
    Some(acc as u64)
}

/// `str::parse` for an unsigned type with largest value `max`, applied to
/// `v[lo..hi]`.
pub fn parse_unsigned_chars(v: &Vec<char>, lo: usize, hi: usize, max: u64) -> (r: Option<u64>)
    requires
        lo <= hi <= v@.len(),
    ensures
        match r {
            Some(x) => parse_unsigned(v@.subrange(lo as int, hi as int), max as nat) == Some(
                x as nat,
            ),
            None => parse_unsigned(v@.subrange(lo as int, hi as int), max as nat) is None,
        },
{
    let ghost s = v@.subrange(lo as int, hi as int);
    if lo < hi && v[lo] == '+' {
        assert(s.drop_first() =~= v@.subrange(lo + 1, hi as int));
        digits_value_bounded(v, lo + 1, hi, max)
    } else {
        digits_value_bounded(v, lo, hi, max)
    }
}

/// `str::parse::<i64>`.
pub fn parse_i64_str(t: &str) -> (r: Option<i64>)
    ensures
        match r {
            Some(x) => parse_i64(t@) == Some(x as int),
            None => parse_i64(t@) is None,
        },
{
    let v = chars_of(t);
    let n = v.len();
    assert(v@.subrange(0, n as int) =~= t@);
    if n > 0 && v[0] == '-' {
        assert(t@.drop_first() =~= v@.subrange(1, n as int));
        match digits_value_bounded(&v, 1, n, 0x8000_0000_0000_0000) {
            Some(m) => {
                if m == 0x8000_0000_0000_0000 {
                    Some(i64::MIN)
                } else {
                    Some(-(m as i64))
                }
            },
            None => None,
        }
    } else {
        match parse_unsigned_chars(&v, 0, n, 0x7fff_ffff_ffff_ffff) {
            Some(m) => Some(m as i64),
            None => None,
        }
    }
}


// ---------------------------------------------------------------------------
// Laws of decimal text
proof fn lemma_digit_char(d: nat)
    requires
        d < 10,
    ensures
        ascii_digit(digit_char(d)),
        decimal_digit(digit_char(d)),
        digit_value(digit_char(d)) == d,
{
}

/// The decimal text of `n` is a non-empty run of ASCII digits (which are
/// Unicode decimal digits too) that denotes `n`.
pub proof fn lemma_decimal_text(n: nat)
    ensures
        decimal(n).len() > 0,
        all_ascii_digits(decimal(n)),
        forall|i: int| 0 <= i < decimal(n).len() ==> decimal_digit(#[trigger] decimal(n)[i]),
        decimal_value(decimal(n)) == n,
    decreases n,
{
    if n < 10 {
        lemma_digit_char(n);
        assert(decimal(n).drop_last() =~= Seq::<char>::empty());
        assert(decimal_value(decimal(n)) == decimal_value(Seq::<char>::empty()) * 10 + digit_value(decimal(n).last()));
    } else {
        lemma_decimal_text(n / 10);
        lemma_digit_char(n % 10);
        let s = decimal(n);
        assert(s.drop_last() =~= decimal(n / 10));
        assert(s.last() == digit_char(n % 10));
        assert(decimal_value(s) == decimal_value(decimal(n / 10)) * 10 + digit_value(s.last()));
        assert(n == (n / 10) * 10 + n % 10);
        assert forall|i: int| 0 <= i < s.len() implies ascii_digit(#[trigger] s[i]) && decimal_digit(s[i]) by {
            if i < s.len() - 1 {
                assert(s[i] == decimal(n / 10)[i]);
            }
        }
    }
}

/// Reading the decimal text of a number gives the number back, for every
/// number up to the type's largest value: `str::parse` inverts `Display`.
pub proof fn lemma_parse_unsigned_decimal(n: nat, max: nat)
    requires
        n <= max,
    ensures
        parse_unsigned(decimal(n), max) == Some(n),
{
    lemma_decimal_text(n);
    assert(ascii_digit(decimal(n)[0]));
}

/// `str::parse::<i64>` reads back the decimal text of every value from 0
/// to `i64::MAX`, and that text with a leading `-` gives the negated value
/// down to `i64::MIN`.
pub proof fn lemma_parse_i64_decimal(n: nat)
    ensures
        n <= 0x7fff_ffff_ffff_ffff ==> parse_i64(decimal(n)) == Some(n as int),
        n <= 0x8000_0000_0000_0000 ==> parse_i64(seq!['-'] + decimal(n)) == Some(-(n as int)),
{
    lemma_decimal_text(n);
    assert(ascii_digit(decimal(n)[0]));
    assert((seq!['-'] + decimal(n)).drop_first() =~= decimal(n));
}

} // verus!
