//! Verified decimal rendering and parsing of integers.
//!
//! The manifest document stores numbers in canonical decimal form: an
//! optional minus sign, then digits without a leading zero.  Rendering is
//! total; parsing accepts exactly the canonical forms whose value fits in an
//! `i64`.

use vstd::prelude::*;

verus! {

broadcast use vstd::utf8::char_u32_cast;

/// The decimal digit character of `d`.
pub open spec fn spec_digit_char(d: int) -> char {
    if d == 0 {
        '0'
    } else if d == 1 {
        '1'
    } else if d == 2 {
        '2'
    } else if d == 3 {
        '3'
    } else if d == 4 {
        '4'
    } else if d == 5 {
        '5'
    } else if d == 6 {
        '6'
    } else if d == 7 {
        '7'
    } else if d == 8 {
        '8'
    } else {
        '9'
    }
}

/// True when `c` is a decimal digit.
pub open spec fn spec_is_digit(c: char) -> bool {
    48 <= c as u32 <= 57
}

/// The numeric value of a digit character.
pub open spec fn spec_digit_val(c: char) -> int {
    c as u32 - 48
}

/// The decimal digits of `n`, most significant first.
pub open spec fn spec_udigits(n: nat) -> Seq<char>
    decreases n,
{
    if n < 10 {
        seq![spec_digit_char(n as int)]
    } else {
        spec_udigits(n / 10).push(spec_digit_char((n % 10) as int))
    }
}

/// The canonical decimal rendering of `v`.
pub open spec fn spec_render_int(v: int) -> Seq<char> {
    if v < 0 {
        seq!['-'] + spec_udigits((-v) as nat)
    } else {
        spec_udigits(v as nat)
    }
}

/// The value of a digit sequence, most significant first.
pub open spec fn spec_digits_value(ds: Seq<char>) -> int
    decreases ds.len(),
{
    if ds.len() == 0 {
        0
    } else {
        spec_digits_value(ds.drop_last()) * 10 + spec_digit_val(ds.last())
    }
}

/// True when every character of `ds` is a decimal digit.
pub open spec fn spec_all_digits(ds: Seq<char>) -> bool {
    forall|i: int| 0 <= i < ds.len() ==> spec_is_digit(#[trigger] ds[i])
}

/// The longest digit prefix of `s`.
pub open spec fn spec_take_digits(s: Seq<char>) -> Seq<char>
    decreases s.len(),
{
    if s.len() > 0 && spec_is_digit(s[0]) {
        seq![s[0]] + spec_take_digits(s.drop_first())
    } else {
        Seq::empty()
    }
}

/// Ten to the `n`.
pub open spec fn pow10(n: nat) -> int
    decreases n,
{
    if n == 0 {
        1
    } else {
        10 * pow10((n - 1) as nat)
    }
}

/// Parses a canonical decimal integer from the front of `s`: the value and
/// the unread remainder.  `None` when `s` does not begin with a canonical
/// in-range integer.
pub open spec fn spec_parse_int(s: Seq<char>) -> Option<(int, Seq<char>)> {
    let neg = s.len() > 0 && s[0] == '-';
    let t = if neg {
        s.drop_first()
    } else {
        s
    };
    let ds = spec_take_digits(t);
    if ds.len() == 0 {
        None
    } else if ds[0] == '0' && ds.len() > 1 {
        None
    } else if neg && ds[0] == '0' {
        None
    } else {
        let v = if neg {
            -spec_digits_value(ds)
        } else {
            spec_digits_value(ds)
        };
        if i64::MIN <= v <= i64::MAX {
            Some((v, t.skip(ds.len() as int)))
        } else {
            None
        }
    }
}

/// The digits of `n` are digits, start nonzero unless `n` is zero, and there
/// is at least one of them.
pub proof fn lemma_udigits_shape(n: nat)
    ensures
        spec_udigits(n).len() >= 1,
        spec_all_digits(spec_udigits(n)),
        n >= 1 ==> spec_udigits(n)[0] != '0',
        n == 0 ==> spec_udigits(n) == seq!['0'],
    decreases n,
{
    if n >= 10 {
        lemma_udigits_shape(n / 10);
        let prefix = spec_udigits(n / 10);
        let whole = prefix.push(spec_digit_char((n % 10) as int));
        assert(forall|i: int|
            0 <= i < whole.len() ==> spec_is_digit(#[trigger] whole[i])) by {
            assert(forall|i: int| 0 <= i < prefix.len() ==> whole[i] == prefix[i]);
        }
        assert(whole[0] == prefix[0]);
    }
}

/// A digit character reads back as its digit.
pub proof fn lemma_digit_char_val(d: int)
    requires
        0 <= d <= 9,
    ensures
        spec_digit_val(spec_digit_char(d)) == d,
        spec_is_digit(spec_digit_char(d)),
        spec_digit_char(d) == '0' <==> d == 0,
{
    assert('0' as u32 == 48);
    assert('1' as u32 == 49);
    assert('2' as u32 == 50);
    assert('3' as u32 == 51);
    assert('4' as u32 == 52);
    assert('5' as u32 == 53);
    assert('6' as u32 == 54);
    assert('7' as u32 == 55);
    assert('8' as u32 == 56);
    assert('9' as u32 == 57);
}

/// Reading back the digits of `n` yields `n`.
pub proof fn lemma_udigits_value(n: nat)
    ensures
        spec_digits_value(spec_udigits(n)) == n,
    decreases n,
{
    if n < 10 {
        lemma_digit_char_val(n as int);
        let ds = spec_udigits(n);
        assert(ds =~= seq![spec_digit_char(n as int)]);
        assert(ds.last() == spec_digit_char(n as int));
        assert(ds.drop_last() =~= Seq::<char>::empty());
        assert(spec_digits_value(Seq::<char>::empty()) == 0);
        assert(spec_digits_value(ds) == spec_digit_val(spec_digit_char(n as int)));
    } else {
        lemma_udigits_value(n / 10);
        lemma_digit_char_val((n % 10) as int);
        let ds = spec_udigits(n);
        assert(ds == spec_udigits(n / 10).push(spec_digit_char((n % 10) as int)));
        assert(ds.drop_last() =~= spec_udigits(n / 10));
        assert(ds.last() == spec_digit_char((n % 10) as int));
        assert(spec_digits_value(ds) == spec_digits_value(ds.drop_last()) * 10 + spec_digit_val(
            ds.last(),
        ));
        assert(n / 10 * 10 + n % 10 == n) by {
            vstd::arithmetic::div_mod::lemma_fundamental_div_mod(n as int, 10);
        }
    }
}

/// A digit sequence's value lies below `pow10` of its length, and at or
/// above `pow10` of its length less one when it does not start with zero.
pub proof fn lemma_digits_value_bounds(ds: Seq<char>)
    requires
        spec_all_digits(ds),
    ensures
        0 <= spec_digits_value(ds) < pow10(ds.len()),
        ds.len() >= 1 && ds[0] != '0' ==> spec_digits_value(ds) >= pow10((ds.len() - 1) as nat),
    decreases ds.len(),
{
    if ds.len() > 0 {
        let prefix = ds.drop_last();
        assert(spec_all_digits(prefix)) by {
            assert(forall|i: int| 0 <= i < prefix.len() ==> prefix[i] == ds[i]);
        }
        lemma_digits_value_bounds(prefix);
        assert(spec_digits_value(prefix) * 10 <= (pow10(prefix.len()) - 1) * 10) by {
            lemma_mul_le(spec_digits_value(prefix), pow10(prefix.len()) - 1, 10);
        }
        if ds.len() >= 2 && ds[0] != '0' {
            assert(prefix[0] == ds[0]);
            assert(spec_digits_value(prefix) * 10 >= pow10((prefix.len() - 1) as nat) * 10) by {
                lemma_mul_le(pow10((prefix.len() - 1) as nat), spec_digits_value(prefix), 10);
            }
        }
        if ds.len() == 1 && ds[0] != '0' {
            assert(spec_digit_val(ds[0]) >= 1) by {
                assert('0' as u32 == 48);
                assert(spec_is_digit(ds[0]));
                if ds[0] as u32 == 48 {
                    vstd::utf8::char_u32_cast(ds[0], 48u32);
                    vstd::utf8::char_u32_cast('0', 48u32);
                    assert(ds[0] == '0');
                }
            }
        }
    }
}

/// Multiplying both sides of `a <= b` by a nonnegative `c` keeps the order.
proof fn lemma_mul_le(a: int, b: int, c: int)
    requires
        a <= b,
        c >= 0,
    ensures
        a * c <= b * c,
{
    broadcast use vstd::arithmetic::mul::lemma_mul_inequality;

}

/// Scanning digits stops exactly at the first non-digit: a digit prefix
/// followed by a non-digit (or nothing) is what `spec_take_digits` returns.
pub proof fn lemma_take_digits_exact(ds: Seq<char>, rest: Seq<char>)
    requires
        spec_all_digits(ds),
        rest.len() == 0 || !spec_is_digit(rest[0]),
    ensures
        spec_take_digits(ds + rest) == ds,
    decreases ds.len(),
{
    if ds.len() == 0 {
        assert(ds + rest =~= rest);
        assert(spec_take_digits(rest) =~= Seq::empty());
        assert(ds =~= Seq::<char>::empty());
    } else {
        let tail = ds.drop_first();
        assert(spec_all_digits(tail)) by {
            assert(forall|i: int| 0 <= i < tail.len() ==> tail[i] == ds[i + 1]);
        }
        lemma_take_digits_exact(tail, rest);
        assert((ds + rest).drop_first() =~= tail + rest);
        assert(spec_take_digits(ds + rest) =~= seq![ds[0]] + tail);
        assert(seq![ds[0]] + tail =~= ds);
    }
}

/// Round trip of integers: parsing a canonical rendering, followed by
/// anything that does not begin with a digit, yields the value and the
/// remainder exactly.
pub proof fn lemma_parse_render_int(v: int, rest: Seq<char>)
    requires
        i64::MIN <= v <= i64::MAX,
        rest.len() == 0 || !spec_is_digit(rest[0]),
    ensures
        spec_parse_int(spec_render_int(v) + rest) == Some((v, rest)),
{
    let s = spec_render_int(v) + rest;
    if v < 0 {
        let m = (-v) as nat;
        lemma_udigits_shape(m);
        lemma_udigits_value(m);
        assert(s[0] == '-');
        assert(s.drop_first() =~= spec_udigits(m) + rest);
        lemma_take_digits_exact(spec_udigits(m), rest);
        let ds = spec_take_digits(s.drop_first());
        assert(ds == spec_udigits(m));
        assert(spec_digits_value(ds) == m);
        assert((spec_udigits(m) + rest).skip(ds.len() as int) =~= rest);
    } else {
        let m = v as nat;
        lemma_udigits_shape(m);
        lemma_udigits_value(m);
        assert(spec_udigits(m)[0] != '-') by {
            assert(spec_is_digit(spec_udigits(m)[0]));
        }
        assert(s[0] == spec_udigits(m)[0]);
        assert(s =~= spec_udigits(m) + rest);
        lemma_take_digits_exact(spec_udigits(m), rest);
        let ds = spec_take_digits(s);
        assert(ds == spec_udigits(m));
        assert(spec_digits_value(ds) == m);
        if m == 0 {
            assert(ds == seq!['0']);
            assert(ds.len() == 1);
        } else {
            assert(ds[0] != '0');
        }
        assert((spec_udigits(m) + rest).skip(ds.len() as int) =~= rest);
    }
}

/// Ten to a larger power is no smaller.
pub proof fn lemma_pow10_increases(a: nat, b: nat)
    requires
        a <= b,
    ensures
        pow10(a) <= pow10(b),
        pow10(a) >= 1,
    decreases b,
{
    if b > 0 {
        if a <= b - 1 {
            lemma_pow10_increases(a, (b - 1) as nat);
        } else {
            lemma_pow10_increases((a - 1) as nat, (b - 1) as nat);
        }
    }
}

/// The value of ten to the nineteenth, the smallest power of ten beyond the
/// persisted integer type.
pub proof fn lemma_pow10_19()
    ensures
        pow10(19) == 10000000000000000000,
{
    reveal_with_fuel(pow10, 21);
}

/// True when `c` is a decimal digit.
pub fn is_digit_char(c: char) -> (r: bool)
    ensures
        r == spec_is_digit(c),
{
    (c as u32) >= 48 && (c as u32) <= 57
}

/// Parses a canonical decimal integer starting at position `i` of `s`:
/// the value and the position after its digits, or `None` exactly when
/// [`spec_parse_int`] rejects what stands there.
pub fn parse_int_at(s: &str, i: usize) -> (r: Option<(i64, usize)>)
    requires
        i <= s@.len(),
    ensures
        match r {
            None => spec_parse_int(s@.skip(i as int)) is None,
            Some((v, j)) => i <= j <= s@.len() && spec_parse_int(s@.skip(i as int)) == Some(
                (v as int, s@.skip(j as int)),
            ),
        },
{
    let s_len = s.unicode_len();
    if i >= s_len {
        assert(spec_take_digits(s@.skip(i as int)) =~= Seq::<char>::empty());
        return None;
    }
    let neg = s.get_char(i) == '-';
    let start = if neg {
        i + 1
    } else {
        i
    };
    let ghost t1 = s@.skip(start as int);
    proof {
        if neg {
            assert(s@.skip(i as int).drop_first() =~= t1);
        }
    }
    let mut j = start;
    while j < s_len && is_digit_char(s.get_char(j))
        invariant
            start <= j <= s_len,
            s_len == s@.len(),
            forall|k: int| start <= k < j ==> spec_is_digit(#[trigger] s@[k]),
        decreases s_len - j,
    {
        j = j + 1;
    }
    let ghost digits = s@.subrange(start as int, j as int);
    proof {
        assert(t1 =~= digits + s@.skip(j as int));
        lemma_take_digits_exact(digits, s@.skip(j as int));
        assert(spec_take_digits(t1) == digits);
    }
    if j == start {
        return None;
    }
    let count = j - start;
    if s.get_char(start) == '0' && count > 1 {
        return None;
    }
    if neg && s.get_char(start) == '0' {
        return None;
    }
    if count > 19 {
        proof {
            lemma_digits_value_bounds(digits);
            lemma_pow10_increases(19, (count - 1) as nat);
            lemma_pow10_19();
        }
        return None;
    }
    let mut acc: u64 = 0;
    let mut k = start;
    while k < j
        invariant
            start <= k <= j,
            j <= s_len,
            s_len == s@.len(),
            j - start <= 19,
            forall|x: int| start <= x < j ==> spec_is_digit(#[trigger] s@[x]),
            acc == spec_digits_value(s@.subrange(start as int, k as int)),
        decreases j - k,
    {
        let ghost prefix = s@.subrange(start as int, k as int);
        proof {
            assert(spec_all_digits(prefix));
            lemma_digits_value_bounds(prefix);
            lemma_pow10_increases(prefix.len(), 18);
            lemma_pow10_19();
            assert(pow10(18) * 10 == pow10(19));
        }
        let c = s.get_char(k);
        let d: u64 = (c as u32) as u64 - 48;
        acc = acc * 10 + d;
        proof {
            assert(s@.subrange(start as int, k + 1).drop_last() =~= prefix);
            assert(s@.subrange(start as int, k + 1).last() == s@[k as int]);
        }
        k = k + 1;
    }
    proof {
        lemma_digits_value_bounds(digits);
    }
    if neg {
        if acc > 9223372036854775808u64 {
            return None;
        }
        let v: i64 = if acc == 9223372036854775808u64 {
            i64::MIN
        } else {
            -(acc as i64)
        };
        proof {
            assert(s@.skip(i as int).drop_first().skip(digits.len() as int) =~= s@.skip(
                j as int,
            ));
        }
        Some((v, j))
    } else {
        if acc > 9223372036854775807u64 {
            return None;
        }
        proof {
            assert(s@.skip(i as int).skip(digits.len() as int) =~= s@.skip(j as int));
        }
        Some((acc as i64, j))
    }
}

/// The one-character string of a digit.
fn digit_str(d: u64) -> (r: &'static str)
    requires
        d < 10,
    ensures
        r@ == seq![spec_digit_char(d as int)],
{
    proof {
        reveal_strlit("0");
        reveal_strlit("1");
        reveal_strlit("2");
        reveal_strlit("3");
        reveal_strlit("4");
        reveal_strlit("5");
        reveal_strlit("6");
        reveal_strlit("7");
        reveal_strlit("8");
        reveal_strlit("9");
    }
    let r = if d == 0 {
        "0"
    } else if d == 1 {
        "1"
    } else if d == 2 {
        "2"
    } else if d == 3 {
        "3"
    } else if d == 4 {
        "4"
    } else if d == 5 {
        "5"
    } else if d == 6 {
        "6"
    } else if d == 7 {
        "7"
    } else if d == 8 {
        "8"
    } else {
        "9"
    };
    proof {
        assert(r@ =~= seq![spec_digit_char(d as int)]);
    }
    r
}

/// Appends the decimal digits of `n` to `out`.
fn push_udigits(out: &mut String, n: u64)
    ensures
        final(out)@ == old(out)@ + spec_udigits(n as nat),
    decreases n,
{
    if n < 10 {
        out.append(digit_str(n));
        assert(out@ =~= old(out)@ + spec_udigits(n as nat));
    } else {
        push_udigits(out, n / 10);
        out.append(digit_str(n % 10));
        assert(out@ =~= old(out)@ + spec_udigits(n as nat));
    }
}

/// Appends the canonical decimal rendering of `v` to `out`.
pub fn push_int(out: &mut String, v: i64)
    ensures
        final(out)@ == old(out)@ + spec_render_int(v as int),
{
    if v < 0 {
        out.append("-");
        let m: u64 = if v == i64::MIN {
            9223372036854775808u64
        } else {
            (-v) as u64
        };
        assert(m == -(v as int));
        push_udigits(out, m);
        proof {
            reveal_strlit("-");
            assert(out@ =~= old(out)@ + spec_render_int(v as int));
        }
    } else {
        push_udigits(out, v as u64);
    }
}

/// The canonical decimal rendering of `v` as a fresh string.
pub fn int_to_string(v: i64) -> (r: String)
    ensures
        r@ == spec_render_int(v as int),
{
    let mut out = String::new();
    push_int(&mut out, v);
    proof {
        assert(out@ =~= spec_render_int(v as int));
    }
    out
}

} // verus!
