//! Positional numerals: the value of a digit sequence in a fixed base.
use vstd::arithmetic::power::*;
use vstd::prelude::*;

verus! {

/// The value of `ds` read as a numeral in base `b`, most significant digit first.
pub open spec fn horner(ds: Seq<int>, b: int) -> int
    decreases ds.len(),
{
    if ds.len() == 0 {
        0
    } else {
        horner(ds.drop_last(), b) * b + ds.last()
    }
}

/// Every entry of `ds` is a digit of base `b`.
pub open spec fn all_digits(ds: Seq<int>, b: int) -> bool {
    forall|i: int| 0 <= i < ds.len() ==> 0 <= #[trigger] ds[i] < b
}

/// Extending a numeral by one digit multiplies its value by the base and adds the digit.
pub proof fn lemma_horner_step(ds: Seq<int>, b: int, i: int)
    requires
        0 <= i < ds.len(),
    ensures
        horner(ds.take(i + 1), b) == horner(ds.take(i), b) * b + ds[i],
{
    assert(ds.take(i + 1).drop_last() =~= ds.take(i));
}

/// A numeral of digits is non-negative and below `b` to the power of its length.
pub proof fn lemma_horner_bounds(ds: Seq<int>, b: int)
    requires
        b >= 1,
        all_digits(ds, b),
    ensures
        0 <= horner(ds, b) < pow(b, ds.len()),
    decreases ds.len(),
{
    reveal(pow);
    if ds.len() > 0 {
        let init = ds.drop_last();
        assert(all_digits(init, b)) by {
            assert forall|i: int| 0 <= i < init.len() implies 0 <= #[trigger] init[i] < b by {
                assert(init[i] == ds[i]);
            }
        }
        lemma_horner_bounds(init, b);
        let h = horner(init, b);
        let p = pow(b, init.len());
        let d = ds.last();
        assert(0 <= d < b) by {
            assert(ds[ds.len() - 1] == d);
        }
        assert(0 <= h * b + d < p * b) by (nonlinear_arith)
            requires
                0 <= h < p,
                0 <= d < b,
        ;
        assert(pow(b, ds.len()) == b * p);
    }
}

/// A prefix of a numeral of digits is worth no more than the whole numeral.
pub proof fn lemma_horner_prefix_le(ds: Seq<int>, b: int, i: int)
    requires
        b >= 1,
        all_digits(ds, b),
        0 <= i <= ds.len(),
    ensures
        horner(ds.take(i), b) <= horner(ds, b),
    decreases ds.len() - i,
{
    if i < ds.len() {
        lemma_horner_step(ds, b, i);
        let h = horner(ds.take(i), b);
        assert(ds.take(i) =~= ds.take(i).take(i));
        lemma_horner_bounds(ds.take(i), b);
        assert(ds[i] >= 0);
        assert(h <= h * b + ds[i]) by (nonlinear_arith)
            requires
                h >= 0,
                b >= 1,
                ds[i] >= 0,
        ;
        lemma_horner_prefix_le(ds, b, i + 1);
    } else {
        assert(ds.take(i) =~= ds);
    }
}

/// `c` is an ASCII decimal digit.
pub open spec fn is_digit(c: char) -> bool {
    '0' <= c <= '9'
}

/// The value of the decimal digit `c`.
pub open spec fn digit_value(c: char) -> int {
    c as int - '0' as int
}

/// The decimal digit character for `d`, for `d` below 10.
pub open spec fn digit_char(d: int) -> char {
    ('0' as int + d) as char
}

/// The values of the decimal digits of `s`.
pub open spec fn digit_values(s: Seq<char>) -> Seq<int> {
    s.map_values(|c: char| digit_value(c))
}

/// Every character of `s` is a decimal digit.
pub open spec fn all_decimal(s: Seq<char>) -> bool {
    forall|i: int| 0 <= i < s.len() ==> is_digit(#[trigger] s[i])
}

/// The number written by `s` as an unsigned 32-bit integer: an optional `+`,
/// then one or more decimal digits whose value fits in 32 bits.
pub open spec fn parse_u32(s: Seq<char>) -> Option<u32> {
    let d = if s.len() > 0 && s[0] == '+' {
        s.drop_first()
    } else {
        s
    };
    if d.len() > 0 && all_decimal(d) && horner(digit_values(d), 10) <= u32::MAX {
        Some(horner(digit_values(d), 10) as u32)
    } else {
        None
    }
}

/// The shortest decimal numeral of `n`.
pub open spec fn decimal_digits(n: nat) -> Seq<char>
    decreases n,
{
    if n < 10 {
        seq![digit_char(n as int)]
    } else {
        decimal_digits(n / 10).push(digit_char((n % 10) as int))
    }
}

/// The character for the decimal digit `d`.
pub fn digit_to_char(d: u32) -> (c: char)
    requires
        d < 10,
    ensures
        c == digit_char(d as int),
        is_digit(c),
        digit_value(c) == d,
{
    ((d as u8) + 48u8) as char
}

/// The offset of the letter `c` from `A`.
pub open spec fn letter_value(c: char) -> int {
    c as int - 'A' as int
}

/// The letter `d` places after `A`.
pub open spec fn letter_char(d: int) -> char {
    ('A' as int + d) as char
}

/// The offset of the letter `c` from `A`.
pub fn letter_offset(c: char) -> (r: u32)
    requires
        'A' <= c <= 'Z',
    ensures
        r == letter_value(c),
{
    (c as u32) - 65
}

/// The value of the decimal digit `c`.
pub fn digit_offset(c: char) -> (r: u32)
    requires
        is_digit(c),
    ensures
        r == digit_value(c),
{
    (c as u32) - 48
}

/// The letter `d` places after `A`.
pub fn letter_at(d: u32) -> (c: char)
    requires
        d < 26,
    ensures
        c == letter_char(d as int),
{
    ((d as u8) + 65u8) as char
}

/// A letter comes back from its offset.
pub proof fn lemma_letter_round_trip(c: char)
    requires
        'A' <= c <= 'Z',
    ensures
        letter_char(letter_value(c)) == c,
{
}

/// A digit comes back from its value.
pub proof fn lemma_digit_round_trip(c: char)
    requires
        is_digit(c),
    ensures
        digit_char(digit_value(c)) == c,
{
}

/// Reads the number that `s[from..]` writes, as `parse_u32` describes.
pub fn parse_u32_at(s: &str, from: usize) -> (r: Option<u32>)
    requires
        from <= s@.len(),
    ensures
        r == parse_u32(s@.skip(from as int)),
{
    let n = s.unicode_len();
    let ghost t = s@.skip(from as int);
    let mut start: usize = from;
    if start < n && s.get_char(start) == '+' {
        start = start + 1;
    }
    let ghost d = s@.subrange(start as int, n as int);
    assert(d =~= (if t.len() > 0 && t[0] == '+' { t.drop_first() } else { t }));
    if start >= n {
        return None;
    }
    let mut j: usize = start;
    while j < n
        invariant
            start <= j <= n == s@.len(),
            d == s@.subrange(start as int, n as int),
            t == s@.skip(from as int),
            d == (if t.len() > 0 && t[0] == '+' { t.drop_first() } else { t }),
            forall|k: int| 0 <= k < j - start ==> is_digit(#[trigger] d[k]),
        decreases n - j,
    {
        let c = s.get_char(j);
        if !('0' <= c && c <= '9') {
            assert(!is_digit(d[j - start]));
            return None;
        }
        j = j + 1;
    }
    assert(all_decimal(d));
    let ghost ds = digit_values(d);
    assert(all_digits(ds, 10)) by {
        assert forall|i: int| 0 <= i < ds.len() implies 0 <= #[trigger] ds[i] < 10 by {
            assert(is_digit(d[i]));
        }
    }
    let mut acc: u32 = 0;
    j = start;
    assert(ds.take(0) =~= Seq::<int>::empty());
    while j < n
        invariant
            start <= j <= n == s@.len(),
            d == s@.subrange(start as int, n as int),
            t == s@.skip(from as int),
            d == (if t.len() > 0 && t[0] == '+' { t.drop_first() } else { t }),
            ds == digit_values(d),
            all_digits(ds, 10),
            all_decimal(d),
            acc == horner(ds.take(j - start), 10),
        decreases n - j,
    {
        let c = s.get_char(j);
        assert(c == d[j - start]);
        let dv: u32 = (c as u32) - 48;
        let next: u64 = acc as u64 * 10 + dv as u64;
        proof {
            lemma_horner_step(ds, 10, j - start);
        }
        if next > u32::MAX as u64 {
            proof {
                lemma_horner_prefix_le(ds, 10, j - start + 1);
            }
            return None;
        }
        acc = next as u32;
        j = j + 1;
    }
    assert(ds.take(n - start) =~= ds);
    Some(acc)
}

/// Appending a digit to a numeral.
proof fn lemma_digit_values_push(s: Seq<char>, c: char)
    ensures
        digit_values(s.push(c)) == digit_values(s).push(digit_value(c)),
        horner(digit_values(s.push(c)), 10) == horner(digit_values(s), 10) * 10 + digit_value(c),
{
    assert(digit_values(s.push(c)) =~= digit_values(s).push(digit_value(c)));
    assert(digit_values(s).push(digit_value(c)).drop_last() =~= digit_values(s));
}

/// The shortest numeral of `n` is made of digits, and reads back as `n`.
pub proof fn lemma_decimal_digits(n: nat)
    ensures
        decimal_digits(n).len() > 0,
        all_decimal(decimal_digits(n)),
        horner(digit_values(decimal_digits(n)), 10) == n,
    decreases n,
{
    if n < 10 {
        let s = decimal_digits(n);
        assert(digit_values(s) =~= seq![n as int]);
        assert(seq![n as int].drop_last() =~= Seq::<int>::empty());
        assert(horner(Seq::<int>::empty(), 10) == 0);
    } else {
        lemma_decimal_digits(n / 10);
        let s = decimal_digits(n / 10);
        let c = digit_char((n % 10) as int);
        lemma_digit_values_push(s, c);
        assert forall|i: int| 0 <= i < s.push(c).len() implies is_digit(#[trigger] s.push(c)[i]) by {
            if i < s.len() {
                assert(s.push(c)[i] == s[i]);
            }
        }
    }
}

/// Reading back the shortest numeral of a 32-bit value gives that value.
pub proof fn lemma_parse_decimal_digits(n: u32)
    ensures
        parse_u32(decimal_digits(n as nat)) == Some(n),
{
    lemma_decimal_digits(n as nat);
    let s = decimal_digits(n as nat);
    assert(is_digit(s[0]));
}

/// The shortest numeral of `n`.
pub fn decimal_chars(n: u32) -> (r: Vec<char>)
    ensures
        r@ == decimal_digits(n as nat),
{
    let mut r: Vec<char> = Vec::new();
    let mut m: u32 = n;
    loop
        invariant
            decimal_digits(n as nat) == decimal_digits(m as nat) + r@,
        decreases m,
    {
        if m < 10 {
            let c = digit_to_char(m);
            let ghost prev = r@;
            r.insert(0, c);
            assert(decimal_digits(m as nat) + prev =~= r@);
            return r;
        }
        let c = digit_to_char(m % 10);
        let ghost prev = r@;
        r.insert(0, c);
        assert(decimal_digits(m as nat) == decimal_digits((m / 10) as nat).push(c));
        assert(decimal_digits(m as nat) + prev =~= decimal_digits((m / 10) as nat) + r@);
        m = m / 10;
    }
}

} // verus!
