//! Text helpers shared by every stage of the compiler: decimal rendering of
//! integers, padding, character-level string operations.
use vstd::prelude::*;

verus! {

/// The decimal digit character for `d` (`d < 10`).
pub open spec fn digit_char(d: nat) -> char {
    if d == 0 {
        '0'
    } else if d == 1 {
        '1'
    } else if d == 2 {
        '2'
    } else if d == 3 {
        '3'
    } else if d == 4 {
        '4'
    } else if d == 5 {
        '5'
    } else if d == 6 {
        '6'
    } else if d == 7 {
        '7'
    } else if d == 8 {
        '8'
    } else {
        '9'
    }
}

/// Decimal text of a natural number, most significant digit first, no leading zeros.
pub open spec fn nat_text(n: nat) -> Seq<char>
    decreases n,
{
    if n < 10 {
        seq![digit_char(n)]
    } else {
        nat_text(n / 10).push(digit_char(n % 10))
    }
}

/// Decimal text of an integer, with a leading `-` for negative values.
pub open spec fn int_text(i: int) -> Seq<char> {
    if i < 0 {
        seq!['-'] + nat_text((-i) as nat)
    } else {
        nat_text(i as nat)
    }
}

/// `n` space characters.
pub open spec fn spaces(n: nat) -> Seq<char> {
    Seq::new(n, |_i: int| ' ')
}

/// `s` followed by spaces up to a total width of `w` characters
/// (the effect of a `{:<w}` format on a string).
pub open spec fn pad_right(s: Seq<char>, w: nat) -> Seq<char> {
    if s.len() >= w {
        s
    } else {
        s + spaces((w - s.len()) as nat)
    }
}

/// `s` preceded by `0` characters up to a total width of `w` characters
/// (the effect of a `{:0w}` format on a non-negative number).
pub open spec fn zero_pad_left(s: Seq<char>, w: nat) -> Seq<char> {
    if s.len() >= w {
        s
    } else {
        Seq::new((w - s.len()) as nat, |_i: int| '0') + s
    }
}

/// `s` with every occurrence of `from` replaced by `to`.
pub open spec fn replace_char(s: Seq<char>, from: char, to: char) -> Seq<char> {
    s.map_values(|c: char| if c == from { to } else { c })
}

/// Appends one character to a string.
/// Calls `String::push`, which the standard library documents as appending
/// the character to the end of the string.
#[verifier::external_body]
pub fn push_char(s: &mut String, c: char)
    ensures
        final(s)@ == old(s)@.push(c),
{
    s.push(c);
}

fn digit(d: u128) -> (c: char)
    requires
        d < 10,
    ensures
        c == digit_char(d as nat),
{
    if d == 0 {
        '0'
    } else if d == 1 {
        '1'
    } else if d == 2 {
        '2'
    } else if d == 3 {
        '3'
    } else if d == 4 {
        '4'
    } else if d == 5 {
        '5'
    } else if d == 6 {
        '6'
    } else if d == 7 {
        '7'
    } else if d == 8 {
        '8'
    } else {
        '9'
    }
}

/// Decimal text of an unsigned 128-bit value.
pub fn u128_text(n: u128) -> (s: String)
    ensures
        s@ == nat_text(n as nat),
    decreases n,
{
    if n < 10 {
        let mut s = String::new();
        push_char(&mut s, digit(n));
        assert(s@ =~= seq![digit_char(n as nat)]);
        s
    } else {
        let mut s = u128_text(n / 10);
        push_char(&mut s, digit(n % 10));
        s
    }
}

/// Decimal text of a `usize`.
pub fn usize_text(n: usize) -> (s: String)
    ensures
        s@ == nat_text(n as nat),
{
    u128_text(n as u128)
}

/// Decimal text of a signed 128-bit value.
pub fn i128_text(v: i128) -> (s: String)
    ensures
        s@ == int_text(v as int),
{
    if v < 0 {
        let magnitude: u128 = ((-(v + 1)) as u128) + 1;
        let digits = u128_text(magnitude);
        let mut s = String::from_str("-");
        s.append(digits.as_str());
        proof {
            reveal_strlit("-");
        }
        assert(s@ =~= seq!['-'] + nat_text((-(v as int)) as nat));
        s
    } else {
        u128_text(v as u128)
    }
}

/// Appends `w - len` spaces (if positive) so that the string is at least `w` characters.
pub fn pad_right_exec(s: String, w: usize) -> (r: String)
    ensures
        r@ == pad_right(s@, w as nat),
{
    let n = s.as_str().unicode_len();
    let mut r = s;
    if n < w {
        let mut i = n;
        while i < w
            invariant
                n <= i <= w,
                n == s@.len(),
                r@ == s@ + spaces((i - n) as nat),
            decreases w - i,
        {
            push_char(&mut r, ' ');
            i = i + 1;
            assert(r@ =~= s@ + spaces((i - n) as nat));
        }
    }
    r
}

/// Prepends `0` characters so that the string is at least `w` characters.
pub fn zero_pad_left_exec(s: String, w: usize) -> (r: String)
    ensures
        r@ == zero_pad_left(s@, w as nat),
{
    let n = s.as_str().unicode_len();
    if n >= w {
        return s;
    }
    let mut r = String::new();
    let mut i: usize = 0;
    while i < w - n
        invariant
            n < w,
            i <= w - n,
            r@ == Seq::new(i as nat, |_j: int| '0'),
        decreases w - n - i,
    {
        push_char(&mut r, '0');
        i = i + 1;
        assert(r@ =~= Seq::new(i as nat, |_j: int| '0'));
    }
    r.append(s.as_str());
    r
}

/// Whether two string slices hold the same characters.
pub fn str_eq(a: &str, b: &str) -> (r: bool)
    ensures
        r == (a@ == b@),
{
    a.to_owned() == b.to_owned()
}

/// Whether `s` begins with the character `c`.
pub fn starts_with_char(s: &str, c: char) -> (r: bool)
    ensures
        r == (s@.len() > 0 && s@[0] == c),
{
    let n = s.unicode_len();
    n > 0 && s.get_char(0) == c
}

/// The characters of `s` from position `from` (in characters) to the end.
pub fn skip_chars(s: &str, from: usize) -> (r: String)
    requires
        from <= s@.len(),
    ensures
        r@ == s@.skip(from as int),
{
    let n = s.unicode_len();
    let sub = s.substring_char(from, n);
    assert(s@.subrange(from as int, n as int) =~= s@.skip(from as int));
    sub.to_owned()
}

/// `s` with every occurrence of `from` replaced by `to`.
pub fn replace_char_exec(s: &str, from: char, to: char) -> (r: String)
    ensures
        r@ == replace_char(s@, from, to),
{
    let n = s.unicode_len();
    let mut r = String::new();
    let mut i: usize = 0;
    while i < n
        invariant
            i <= n,
            n == s@.len(),
            r@ == replace_char(s@.take(i as int), from, to),
        decreases n - i,
    {
        let c = s.get_char(i);
        push_char(&mut r, if c == from { to } else { c });
        i = i + 1;
        assert(r@ =~= replace_char(s@.take(i as int), from, to));
    }
    assert(s@.take(n as int) =~= s@);
    r
}

/// Appends the decimal text of `n` to `s`.
pub fn append_usize(s: &mut String, n: usize)
    ensures
        final(s)@ == old(s)@ + nat_text(n as nat),
{
    let t = usize_text(n);
    s.append(t.as_str());
}

/// Appends the decimal text of `v` to `s`.
pub fn append_i128(s: &mut String, v: i128)
    ensures
        final(s)@ == old(s)@ + int_text(v as int),
{
    let t = i128_text(v);
    s.append(t.as_str());
}


/// Whether `c` is one of the decimal digits `0` to `9`.
pub open spec fn is_digit(c: char) -> bool {
    '0' <= c && c <= '9'
}

/// The value of a decimal digit character.
pub open spec fn digit_value(c: char) -> int {
    (c as int) - ('0' as int)
}

/// Every character of `s` is a decimal digit.
pub open spec fn all_digits(s: Seq<char>) -> bool {
    forall|i: int| 0 <= i < s.len() ==> is_digit(#[trigger] s[i])
}

/// The number that a string of decimal digits denotes, most significant digit first.
pub open spec fn digits_value(s: Seq<char>) -> int
    decreases s.len(),
{
    if s.len() == 0 {
        0
    } else {
        digits_value(s.drop_last()) * 10 + digit_value(s.last())
    }
}

/// The integer that decimal text denotes: an optional sign `+` or `-`, then
/// at least one digit; `None` for any other text.
pub open spec fn decimal_value(s: Seq<char>) -> Option<int> {
    if s.len() > 0 && (s[0] == '+' || s[0] == '-') {
        let d = s.drop_first();
        if d.len() > 0 && all_digits(d) {
            Some(if s[0] == '-' { -digits_value(d) } else { digits_value(d) })
        } else {
            None
        }
    } else if s.len() > 0 && all_digits(s) {
        Some(digits_value(s))
    } else {
        None
    }
}

/// The `i128` that decimal text denotes, when there is one (the contract of
/// `i128::from_str_radix(s, 10)`: it fails on any other text and on values out of range).
pub open spec fn i128_from_decimal(s: Seq<char>) -> Option<i128> {
    match decimal_value(s) {
        Some(v) => if i128::MIN <= v <= i128::MAX {
            Some(v as i128)
        } else {
            None
        },
        None => None,
    }
}

proof fn lemma_digits_value_nonneg(d: Seq<char>)
    requires
        all_digits(d),
    ensures
        digits_value(d) >= 0,
    decreases d.len(),
{
    if d.len() > 0 {
        assert(is_digit(d[d.len() - 1]));
        lemma_digits_value_nonneg(d.drop_last());
    }
}

proof fn lemma_digits_value_prefix(d: Seq<char>, k: int)
    requires
        all_digits(d),
        0 <= k <= d.len(),
    ensures
        0 <= digits_value(d.take(k)) <= digits_value(d),
    decreases d.len(),
{
    lemma_digits_value_nonneg(d);
    assert(all_digits(d.take(k)));
    lemma_digits_value_nonneg(d.take(k));
    if k < d.len() {
        assert(d.drop_last().take(k) =~= d.take(k));
        lemma_digits_value_prefix(d.drop_last(), k);
        assert(is_digit(d[d.len() - 1]));
        lemma_digits_value_nonneg(d.drop_last());
    } else {
        assert(d.take(k) =~= d);
    }
}

/// Reads decimal text as an `i128`, as `i128::from_str_radix(s, 10)` does:
/// an optional sign, then digits; `None` when the text is not of that form
/// or its value does not fit.
pub fn parse_decimal_i128(s: &str) -> (r: Option<i128>)
    ensures
        r == i128_from_decimal(s@),
{
    let n = s.unicode_len();
    if n == 0 {
        return None;
    }
    let first = s.get_char(0);
    let negative = first == '-';
    let start: usize = if first == '-' || first == '+' { 1 } else { 0 };
    if start == n {
        return None;
    }
    let ghost d = s@.skip(start as int);
    assert(start == 1 ==> d =~= s@.drop_first());
    assert(start == 0 ==> d =~= s@);
    let mut acc: i128 = 0;
    let mut i: usize = start;
    while i < n
        invariant
            start <= i <= n,
            n == s@.len(),
            start < n,
            start <= 1,
            d == s@.skip(start as int),
            negative == (s@[0] == '-'),
            start == 1 ==> d == s@.drop_first() && (s@[0] == '+' || s@[0] == '-'),
            start == 0 ==> d == s@ && !(s@[0] == '+' || s@[0] == '-'),
            all_digits(d.take(i - start)),
            acc == (if negative { -digits_value(d.take(i - start)) } else { digits_value(d.take(i - start)) }),
        decreases n - i,
    {
        let c = s.get_char(i);
        let ghost k = i - start;
        assert(d[k] == c);
        if !('0' <= c && c <= '9') {
            assert(!is_digit(d[k]));
            assert(!all_digits(d));
            assert(decimal_value(s@) is None);
            return None;
        }
        let digit = ((c as u32) - ('0' as u32)) as i128;
        assert(d.take(k + 1).drop_last() =~= d.take(k));
        assert(d.take(k + 1).last() == c);
        assert(all_digits(d.take(k + 1)));
        assert(digit == digit_value(c));
        assert(digits_value(d.take(k + 1)) == digits_value(d.take(k)) * 10 + digit);
        let scaled = acc.checked_mul(10);
        let next = match scaled {
            Some(m) => if negative { m.checked_sub(digit) } else { m.checked_add(digit) },
            None => None,
        };
        match next {
            Some(v) => {
                acc = v;
            },
            None => {
                proof {
                    lemma_digits_value_nonneg(d.take(k));
                    if all_digits(d) {
                        lemma_digits_value_prefix(d, k + 1);
                        assert(d.take(d.len() as int) =~= d);
                        if negative {
                            assert(-digits_value(d) < i128::MIN);
                        } else {
                            assert(digits_value(d) > i128::MAX);
                        }
                    }
                    assert(i128_from_decimal(s@) is None);
                }
                return None;
            },
        }
        i = i + 1;
    }
    assert(d.take(n - start) =~= d);
    Some(acc)
}

/// The text of a natural number is a non-empty string of digits that
/// denotes that number.
pub proof fn lemma_nat_text_digits(n: nat)
    ensures
        nat_text(n).len() > 0,
        all_digits(nat_text(n)),
        digits_value(nat_text(n)) == n,
    decreases n,
{
    if n < 10 {
        let t = nat_text(n);
        assert(t.drop_last() =~= Seq::<char>::empty());
        assert(digit_value(digit_char(n)) == n);
        assert(digits_value(t) == digits_value(t.drop_last()) * 10 + digit_value(t.last()));
    } else {
        lemma_nat_text_digits(n / 10);
        let t = nat_text(n);
        assert(t.drop_last() =~= nat_text(n / 10));
        assert(digit_value(digit_char(n % 10)) == n % 10);
        assert(t.last() == digit_char(n % 10));
        assert(digits_value(t) == digits_value(t.drop_last()) * 10 + digit_value(t.last()));
        assert(n == (n / 10) * 10 + n % 10) by (nonlinear_arith);
        assert forall|i: int| 0 <= i < t.len() implies is_digit(#[trigger] t[i]) by {
            if i < t.len() - 1 {
                assert(t[i] == nat_text(n / 10)[i]);
            }
        }
    }
}

/// Decimal text reads back as the number it was written from: the text of
/// any `i128` denotes that same `i128`.
pub proof fn law_decimal_round_trip(v: i128)
    ensures
        i128_from_decimal(int_text(v as int)) == Some(v),
{
    if v < 0 {
        let d = nat_text((-(v as int)) as nat);
        lemma_nat_text_digits((-(v as int)) as nat);
        let t = int_text(v as int);
        assert(t == seq!['-'] + d);
        assert(t.drop_first() =~= d);
        assert(t[0] == '-');
    } else {
        lemma_nat_text_digits(v as nat);
        let t = int_text(v as int);
        assert(is_digit(t[0]));
    }
}

} // verus!
