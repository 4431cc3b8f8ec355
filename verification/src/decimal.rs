//! Decimal digits: writing a number out and reading it back.

use crate::text::is_digit;
use vstd::prelude::*;

verus! {

/// The ASCII digit that stands for `d`, for `d` below ten.
pub open spec fn digit_char(d: int) -> char {
    if d == 0 {
        '0'
    } else if d == 1 {
        '1'
    } else if d == 2 {
        '2'
    } else if d == 3 {
        '3'
    } else if d == 4 {
        '4'
    } else if d == 5 {
        '5'
    } else if d == 6 {
        '6'
    } else if d == 7 {
        '7'
    } else if d == 8 {
        '8'
    } else {
        '9'
    }
}

/// The number that an ASCII digit stands for.
pub open spec fn digit_value(c: char) -> int {
    c as u32 - 0x30
}

/// `n` written in decimal, without leading zeros.
pub open spec fn digits_of(n: nat) -> Seq<char>
    decreases n,
{
    if n < 10 {
        seq![digit_char(n as int)]
    } else {
        digits_of(n / 10).push(digit_char((n % 10) as int))
    }
}

/// The number that a sequence of ASCII digits stands for.
pub open spec fn value_of(s: Seq<char>) -> nat
    decreases s.len(),
{
    if s.len() == 0 {
        0
    } else {
        (value_of(s.drop_last()) * 10 + digit_value(s.last())) as nat
    }
}

/// Every character of `s` is an ASCII digit.
pub open spec fn all_digits(s: Seq<char>) -> bool {
    forall|i: int| 0 <= i < s.len() ==> is_digit(#[trigger] s[i])
}

/// `n` in decimal, with zeros in front up to `width` characters.
pub open spec fn zero_padded(n: nat, width: nat) -> Seq<char> {
    let d = digits_of(n);
    if d.len() >= width {
        d
    } else {
        Seq::new((width - d.len()) as nat, |i: int| '0') + d
    }
}

pub proof fn lemma_digit_char(d: int)
    requires
        0 <= d < 10,
    ensures
        is_digit(digit_char(d)),
        digit_value(digit_char(d)) == d,
{
}

/// Written out and read back, a number is itself.
pub proof fn lemma_digits_round_trip(n: nat)
    ensures
        digits_of(n).len() >= 1,
        all_digits(digits_of(n)),
        value_of(digits_of(n)) == n,
    decreases n,
{
    if n < 10 {
        lemma_digit_char(n as int);
        let s = digits_of(n);
        assert(s.drop_last().len() == 0);
        assert(value_of(s.drop_last()) == 0);
    } else {
        lemma_digits_round_trip(n / 10);
        lemma_digit_char((n % 10) as int);
        let s = digits_of(n);
        assert(s.drop_last() == digits_of(n / 10));
        assert(s.last() == digit_char((n % 10) as int));
    }
}

/// The value of a digit string is at least that of each of its prefixes.
pub proof fn lemma_value_of_prefix(s: Seq<char>, k: int)
    requires
        0 <= k <= s.len(),
        all_digits(s),
    ensures
        value_of(s.subrange(0, k)) <= value_of(s),
    decreases s.len() - k,
{
    if k < s.len() {
        lemma_value_of_prefix(s, k + 1);
        let t = s.subrange(0, k + 1);
        assert(t.drop_last() == s.subrange(0, k));
        assert(is_digit(s[k]));
        assert(t.last() == s[k]);
    } else {
        assert(s.subrange(0, k) == s);
    }
}

/// The ASCII digit for `d`.
pub fn digit_of(d: u8) -> (c: char)
    requires
        d < 10,
    ensures
        c == digit_char(d as int),
{
    if d == 0 {
        '0'
    } else if d == 1 {
        '1'
    } else if d == 2 {
        '2'
    } else if d == 3 {
        '3'
    } else if d == 4 {
        '4'
    } else if d == 5 {
        '5'
    } else if d == 6 {
        '6'
    } else if d == 7 {
        '7'
    } else if d == 8 {
        '8'
    } else {
        '9'
    }
}

/// Appends `n` in decimal to `out`.
pub fn push_decimal(out: &mut Vec<char>, n: u64)
    ensures
        final(out)@ == old(out)@ + digits_of(n as nat),
    decreases n,
{
    if n >= 10 {
        push_decimal(out, n / 10);
    }
    let d: u8 = (n % 10) as u8;
    out.push(digit_of(d));
    proof {
        if n >= 10 {
            assert(old(out)@ + digits_of(n as nat) == (old(out)@ + digits_of((n / 10) as nat)).push(
                digit_char((n % 10) as int),
            ));
        } else {
            assert(old(out)@ + digits_of(n as nat) == old(out)@.push(digit_char(n as int)));
        }
    }
}

/// `n` in decimal.
pub fn decimal(n: u64) -> (r: Vec<char>)
    ensures
        r@ == digits_of(n as nat),
{
    let mut r: Vec<char> = Vec::new();
    push_decimal(&mut r, n);
    assert(Seq::<char>::empty() + digits_of(n as nat) == digits_of(n as nat));
    r
}

/// Appends `n` in decimal to `out`, with zeros in front up to `width`
/// characters.
pub fn push_padded(out: &mut Vec<char>, n: u64, width: usize)
    ensures
        final(out)@ == old(out)@ + zero_padded(n as nat, width as nat),
{
    let d = decimal(n);
    let ghost before = out@;
    let mut k: usize = d.len();
    while k < width
        invariant
            d.len() <= k,
            k <= width || k == d.len(),
            out@ == before + Seq::new((k - d.len()) as nat, |i: int| '0'),
        decreases width - k,
    {
        out.push('0');
        assert(Seq::new((k + 1 - d.len()) as nat, |i: int| '0') == Seq::new(
            (k - d.len()) as nat,
            |i: int| '0',
        ).push('0'));
        k += 1;
    }
    let ghost mid = out@;
    crate::text::append_chars(out, &d);
    proof {
        if d.len() >= width {
            assert(mid =~= before);
        } else {
            assert(out@ == before + (Seq::new((width - d.len()) as nat, |i: int| '0') + d@));
        }
    }
}

/// What reading `s` as an unsigned decimal number gives: it must be made of
/// ASCII digits, one at least, and stand for a number up to `max`.
pub open spec fn parsed_digits(s: Seq<char>, max: nat) -> Option<nat> {
    if s.len() > 0 && all_digits(s) && value_of(s) <= max {
        Some(value_of(s))
    } else {
        None
    }
}

/// Reads `s[from..]` as an unsigned decimal number up to `max`.
pub fn parse_digits(s: &Vec<char>, from: usize, max: u64) -> (r: Option<u64>)
    requires
        from <= s.len(),
    ensures
        r.is_some() == parsed_digits(s@.subrange(from as int, s.len() as int), max as nat).is_some(),
        r matches Some(v) ==> parsed_digits(s@.subrange(from as int, s.len() as int), max as nat)
            == Some(v as nat),
{
    let ghost t = s@.subrange(from as int, s.len() as int);
    if from == s.len() {
        return None;
    }
    let mut acc: u64 = 0;
    let mut i: usize = from;
    while i < s.len()
        invariant
            from <= i <= s.len(),
            t == s@.subrange(from as int, s.len() as int),
            all_digits(t.subrange(0, i - from)),
            acc == value_of(t.subrange(0, i - from)),
            acc <= max,
        decreases s.len() - i,
    {
        let c = s[i];
        if !crate::text::is_ascii_digit(c) {
            assert(t[i - from] == c);
            return None;
        }
        let d: u64 = (c as u32 - 0x30) as u64;
        let ghost next = t.subrange(0, i - from + 1);
        proof {
            assert(next.drop_last() == t.subrange(0, i - from));
            assert(next.last() == c);
            assert(all_digits(next)) by {
                assert forall|k: int| 0 <= k < next.len() implies is_digit(#[trigger] next[k]) by {
                    if k < i - from {
                        assert(next[k] == t.subrange(0, i - from)[k]);
                    }
                }
            }
            assert(value_of(next) == acc * 10 + d);
        }
        if d > max || acc > (max - d) / 10 {
            proof {
                assert(acc * 10 + d > max);
                if all_digits(t) {
                    lemma_value_of_prefix(t, i - from + 1);
                }
            }
            return None;
        }
        acc = acc * 10 + d;
        i += 1;
    }
    assert(t.subrange(0, t.len() as int) == t);
    Some(acc)
}

// ---------------------------------------------------------------------
// Thousands separators
// ---------------------------------------------------------------------

/// `d` with a comma before each group of three characters counted from the
/// right, the first group excepted.
pub open spec fn grouped(d: Seq<char>) -> Seq<char>
    decreases d.len(),
{
    if d.len() <= 3 {
        d
    } else {
        grouped(d.subrange(0, d.len() - 3)) + seq![','] + d.subrange(d.len() - 3, d.len() as int)
    }
}

/// The grouping of `d` as a walk from the left has written it after `i`
/// characters.
pub closed spec fn grouped_upto(d: Seq<char>, i: int) -> Seq<char>
    decreases i,
{
    if i <= 0 {
        Seq::empty()
    } else {
        let before = grouped_upto(d, i - 1);
        if i - 1 > 0 && (d.len() - (i - 1)) % 3 == 0 {
            before.push(',').push(d[i - 1])
        } else {
            before.push(d[i - 1])
        }
    }
}

proof fn lemma_grouped_upto_shorter(d: Seq<char>, e: Seq<char>, i: int)
    requires
        d.len() >= 3,
        e == d.subrange(0, d.len() - 3),
        0 <= i <= e.len(),
    ensures
        grouped_upto(d, i) == grouped_upto(e, i),
    decreases i,
{
    if i > 0 {
        lemma_grouped_upto_shorter(d, e, i - 1);
        assert(d[i - 1] == e[i - 1]);
        assert((d.len() - (i - 1)) % 3 == (e.len() - (i - 1)) % 3);
    }
}

proof fn lemma_grouped_upto_small(d: Seq<char>, i: int)
    requires
        d.len() <= 3,
        0 <= i <= d.len(),
    ensures
        grouped_upto(d, i) == d.subrange(0, i),
    decreases i,
{
    if i > 0 {
        lemma_grouped_upto_small(d, i - 1);
        assert(d.subrange(0, i) == d.subrange(0, i - 1).push(d[i - 1]));
    } else {
        assert(d.subrange(0, 0) == Seq::<char>::empty());
    }
}

/// The walk from the left, once at the end, has written `grouped(d)`.
pub proof fn lemma_grouped_upto_all(d: Seq<char>)
    ensures
        grouped_upto(d, d.len() as int) == grouped(d),
    decreases d.len(),
{
    let n = d.len() as int;
    if n <= 3 {
        lemma_grouped_upto_small(d, n);
        assert(d.subrange(0, n) == d);
    } else {
        let e = d.subrange(0, n - 3);
        lemma_grouped_upto_all(e);
        lemma_grouped_upto_shorter(d, e, n - 3);
        let a = grouped_upto(d, n - 3);
        assert(grouped_upto(d, n - 2) == a.push(',').push(d[n - 3]));
        assert(grouped_upto(d, n - 1) == grouped_upto(d, n - 2).push(d[n - 2]));
        assert(grouped_upto(d, n) == grouped_upto(d, n - 1).push(d[n - 1]));
        assert(a.push(',').push(d[n - 3]).push(d[n - 2]).push(d[n - 1]) == a + seq![','] + d.subrange(
            n - 3,
            n,
        ));
    }
}

/// The ASCII digits of `s`, in order.
pub open spec fn digits_only(s: Seq<char>) -> Seq<char>
    decreases s.len(),
{
    if s.len() == 0 {
        s
    } else if is_digit(s.last()) {
        digits_only(s.drop_last()).push(s.last())
    } else {
        digits_only(s.drop_last())
    }
}

/// The digits of a text in two parts are the digits of each part.
pub proof fn lemma_digits_only_add(a: Seq<char>, b: Seq<char>)
    ensures
        digits_only(a + b) == digits_only(a) + digits_only(b),
    decreases b.len(),
{
    if b.len() == 0 {
        assert(a + b == a);
        assert(digits_only(a) + digits_only(b) == digits_only(a));
    } else {
        lemma_digits_only_add(a, b.drop_last());
        assert((a + b).drop_last() == a + b.drop_last());
        assert((a + b).last() == b.last());
        if is_digit(b.last()) {
            assert((digits_only(a) + digits_only(b.drop_last())).push(b.last()) == digits_only(a)
                + digits_only(b.drop_last()).push(b.last()));
        }
    }
}

/// The digits of a grouped digit string are the string itself.
pub proof fn lemma_grouped_digits(d: Seq<char>)
    requires
        all_digits(d),
    ensures
        digits_only(grouped(d)) == d,
    decreases d.len(),
{
    if d.len() <= 3 {
        lemma_digits_only_all(d);
    } else {
        let n = d.len() as int;
        let head = d.subrange(0, n - 3);
        let tail = d.subrange(n - 3, n);
        lemma_grouped_digits(head);
        lemma_digits_only_all(tail);
        let comma = seq![','];
        assert(digits_only(comma) == Seq::<char>::empty()) by {
            assert(comma.drop_last() == Seq::<char>::empty());
            assert(digits_only(comma.drop_last()) == Seq::<char>::empty());
            assert(!is_digit(comma.last()));
        }
        lemma_digits_only_add(grouped(head), comma);
        lemma_digits_only_add(grouped(head) + comma, tail);
        assert(head + Seq::<char>::empty() + tail == d);
    }
}

/// A string of digits only is its own digits.
pub proof fn lemma_digits_only_all(d: Seq<char>)
    requires
        all_digits(d),
    ensures
        digits_only(d) == d,
    decreases d.len(),
{
    if d.len() > 0 {
        lemma_digits_only_all(d.drop_last());
        assert(is_digit(d.last()));
        assert(d.drop_last().push(d.last()) == d);
    }
}

/// `d` with thousands separators.
pub fn group_thousands(d: &Vec<char>) -> (r: Vec<char>)
    ensures
        r@ == grouped(d@),
{
    let n = d.len();
    let mut r: Vec<char> = Vec::new();
    let mut i: usize = 0;
    while i < n
        invariant
            n == d.len(),
            i <= n,
            r@ == grouped_upto(d@, i as int),
        decreases n - i,
    {
        if i > 0 && (n - i) % 3 == 0 {
            r.push(',');
        }
        r.push(d[i]);
        i += 1;
    }
    proof {
        lemma_grouped_upto_all(d@);
    }
    r
}

// ---------------------------------------------------------------------
// Numbers with a sign
// ---------------------------------------------------------------------

/// `v` in decimal, with a minus sign where it is negative.
pub open spec fn signed_digits(v: int) -> Seq<char> {
    if v < 0 {
        seq!['-'] + digits_of((-v) as nat)
    } else {
        digits_of(v as nat)
    }
}

/// What reading `s` as an `i32` gives: a sign may come first, digits must
/// follow, and the number must fit.
pub open spec fn parsed_i32(s: Seq<char>) -> Option<int> {
    if s.len() > 0 && s[0] == '-' {
        match parsed_digits(s.subrange(1, s.len() as int), 0x8000_0000) {
            Some(v) => Some(-(v as int)),
            None => None,
        }
    } else if s.len() > 0 && s[0] == '+' {
        match parsed_digits(s.subrange(1, s.len() as int), 0x7fff_ffff) {
            Some(v) => Some(v as int),
            None => None,
        }
    } else {
        match parsed_digits(s, 0x7fff_ffff) {
            Some(v) => Some(v as int),
            None => None,
        }
    }
}

/// What reading `s` as an unsigned number up to `max` gives: a plus sign may
/// come first, digits must follow, and the number must fit.
pub open spec fn parsed_unsigned(s: Seq<char>, max: nat) -> Option<nat> {
    if s.len() > 0 && s[0] == '+' {
        parsed_digits(s.subrange(1, s.len() as int), max)
    } else {
        parsed_digits(s, max)
    }
}

/// Reads `s` as an `i32`.
pub fn parse_i32(s: &Vec<char>) -> (r: Option<i32>)
    ensures
        match r {
            Some(v) => parsed_i32(s@) == Some(v as int),
            None => parsed_i32(s@).is_none(),
        },
{
    if s.len() > 0 && s[0] == '-' {
        match parse_digits(s, 1, 0x8000_0000) {
            Some(v) => {
                if v == 0x8000_0000 {
                    Some(i32::MIN)
                } else {
                    Some(-(v as i32))
                }
            },
            None => None,
        }
    } else if s.len() > 0 && s[0] == '+' {
        match parse_digits(s, 1, 0x7fff_ffff) {
            Some(v) => Some(v as i32),
            None => None,
        }
    } else {
        assert(s@.subrange(0, s.len() as int) == s@);
        match parse_digits(s, 0, 0x7fff_ffff) {
            Some(v) => Some(v as i32),
            None => None,
        }
    }
}

/// Reads `s` as an unsigned number up to `max`.
pub fn parse_unsigned(s: &Vec<char>, max: u64) -> (r: Option<u64>)
    ensures
        match r {
            Some(v) => parsed_unsigned(s@, max as nat) == Some(v as nat),
            None => parsed_unsigned(s@, max as nat).is_none(),
        },
{
    if s.len() > 0 && s[0] == '+' {
        parse_digits(s, 1, max)
    } else {
        assert(s@.subrange(0, s.len() as int) == s@);
        parse_digits(s, 0, max)
    }
}

/// Appends `v` in decimal to `out`, with a minus sign where it is negative.
pub fn push_signed(out: &mut Vec<char>, v: i32)
    ensures
        final(out)@ == old(out)@ + signed_digits(v as int),
{
    if v < 0 {
        out.push('-');
        let m: u64 = (-(v as i64)) as u64;
        push_decimal(out, m);
        assert(old(out)@.push('-') + digits_of(m as nat) == old(out)@ + (seq!['-'] + digits_of(
            m as nat,
        )));
    } else {
        push_decimal(out, v as u64);
    }
}

// ---------------------------------------------------------------------
// Zeros in front
// ---------------------------------------------------------------------

/// Zeros in front of a digit string do not change the number it stands for.
pub proof fn lemma_leading_zeros(k: nat, d: Seq<char>)
    requires
        all_digits(d),
    ensures
        all_digits(Seq::new(k, |i: int| '0') + d),
        value_of(Seq::new(k, |i: int| '0') + d) == value_of(d),
    decreases d.len(), k,
{
    let z = Seq::new(k, |i: int| '0');
    if d.len() > 0 {
        lemma_leading_zeros(k, d.drop_last());
        assert((z + d).drop_last() == z + d.drop_last());
        assert((z + d).last() == d.last());
    } else if k > 0 {
        let y = Seq::new((k - 1) as nat, |i: int| '0');
        lemma_leading_zeros((k - 1) as nat, d);
        assert(z + d == z);
        assert(y + d == y);
        assert(z.drop_last() == y);
        assert(z.last() == '0');
    } else {
        assert(z + d == d);
    }
}

/// A number written with zeros in front reads back as itself.
pub proof fn lemma_zero_padded(n: nat, width: nat)
    ensures
        zero_padded(n, width).len() >= 1,
        zero_padded(n, width).len() >= width,
        all_digits(zero_padded(n, width)),
        value_of(zero_padded(n, width)) == n,
{
    lemma_digits_round_trip(n);
    let d = digits_of(n);
    if d.len() < width {
        lemma_leading_zeros((width - d.len()) as nat, d);
    }
}

} // verus!
