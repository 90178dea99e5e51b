//! Free text: up to 13 characters of a 42-symbol alphabet, read as one
//! base-42 numeral.
use crate::radix::{
    all_digits, digit_char, digit_offset, digit_to_char, digit_value, horner, is_digit,
    lemma_digit_round_trip, lemma_horner_bounds, lemma_horner_prefix_le, lemma_horner_step,
    lemma_letter_round_trip, letter_at, letter_char, letter_offset, letter_value,
};
use crate::text::{blanks, lemma_trim_leading_pad, lemma_trimmed, trim_blanks, trimmed_string};
use crate::{string_result, CodecError};
use vstd::arithmetic::power::*;
use vstd::prelude::*;

verus! {

/// Number of positions of a decoded free text.
pub const FREETEXT_LEN: usize = 13;

/// Number of free-text codes: 42 to the power 13.
pub const FREETEXT_CAPACITY: u128 = 1265437718438866624512;

/// Index of `c` in the free-text alphabet (blank, digits, letters, `+-./?`), or -1.
pub open spec fn freetext_index(c: char) -> int {
    if c == ' ' {
        0
    } else if is_digit(c) {
        1 + digit_value(c)
    } else if 'A' <= c <= 'Z' {
        11 + letter_value(c)
    } else if c == '+' {
        37
    } else if c == '-' {
        38
    } else if c == '.' {
        39
    } else if c == '/' {
        40
    } else if c == '?' {
        41
    } else {
        -1
    }
}

/// The character at index `d` of the free-text alphabet.
pub open spec fn freetext_char(d: int) -> char {
    if d == 0 {
        ' '
    } else if d < 11 {
        digit_char(d - 1)
    } else if d < 37 {
        letter_char(d - 11)
    } else if d == 37 {
        '+'
    } else if d == 38 {
        '-'
    } else if d == 39 {
        '.'
    } else if d == 40 {
        '/'
    } else {
        '?'
    }
}

/// The alphabet indices of the characters of `s`.
pub open spec fn freetext_values(s: Seq<char>) -> Seq<int> {
    s.map_values(|c: char| freetext_index(c))
}

/// Every character of `s` is in the free-text alphabet.
pub open spec fn freetext_valid(s: Seq<char>) -> bool {
    forall|i: int| 0 <= i < s.len() ==> freetext_index(#[trigger] s[i]) >= 0
}

/// The base-42 numeral of `n` in `k` positions, most significant first.
pub open spec fn freetext_digits(n: nat, k: nat) -> Seq<char>
    decreases k,
{
    if k == 0 {
        Seq::empty()
    } else {
        freetext_digits(n / 42, (k - 1) as nat).push(freetext_char((n % 42) as int))
    }
}

/// The code of a free text: its characters read as a base-42 numeral.
pub open spec fn spec_freetext_to_int(s: Seq<char>) -> Result<u128, CodecError> {
    if !freetext_valid(s) {
        Err(CodecError::InvalidCharacter)
    } else if horner(freetext_values(s), 42) > u128::MAX {
        Err(CodecError::Overflow)
    } else {
        Ok(horner(freetext_values(s), 42) as u128)
    }
}

/// The free text of a code: its 13 base-42 positions, blanks trimmed.
pub open spec fn spec_int_to_freetext(n: u128) -> Result<Seq<char>, CodecError> {
    if n >= FREETEXT_CAPACITY {
        Err(CodecError::Overflow)
    } else {
        Ok(trim_blanks(freetext_digits(n as nat, FREETEXT_LEN as nat)))
    }
}

/// Index of `c` in the free-text alphabet.
fn freetext_position(c: char) -> (r: Option<u32>)
    ensures
        r is Some <==> freetext_index(c) >= 0,
        r is Some ==> r->0 == freetext_index(c),
{
    if c == ' ' {
        Some(0)
    } else if '0' <= c && c <= '9' {
        Some(1 + digit_offset(c))
    } else if 'A' <= c && c <= 'Z' {
        Some(11 + letter_offset(c))
    } else if c == '+' {
        Some(37)
    } else if c == '-' {
        Some(38)
    } else if c == '.' {
        Some(39)
    } else if c == '/' {
        Some(40)
    } else if c == '?' {
        Some(41)
    } else {
        None
    }
}

/// The character at index `d` of the free-text alphabet.
fn freetext_at(d: u32) -> (c: char)
    requires
        d < 42,
    ensures
        c == freetext_char(d as int),
{
    if d == 0 {
        ' '
    } else if d < 11 {
        digit_to_char(d - 1)
    } else if d < 37 {
        letter_at(d - 11)
    } else if d == 37 {
        '+'
    } else if d == 38 {
        '-'
    } else if d == 39 {
        '.'
    } else if d == 40 {
        '/'
    } else {
        '?'
    }
}

/// Packs a free text into its code: `total * 42 + index` for each character,
/// left to right. A text too long for 128 bits fails with `Overflow`.
pub fn freetext_to_int(data: String) -> (r: Result<u128, CodecError>)
    ensures
        r == spec_freetext_to_int(data@),
{
    let s = data.as_str();
    let n = s.unicode_len();
    let mut i: usize = 0;
    while i < n
        invariant
            i <= n == s@.len(),
            s@ == data@,
            forall|k: int| 0 <= k < i ==> freetext_index(#[trigger] s@[k]) >= 0,
        decreases n - i,
    {
        if freetext_position(s.get_char(i)).is_none() {
            assert(freetext_index(s@[i as int]) < 0);
            return Err(CodecError::InvalidCharacter);
        }
        i = i + 1;
    }
    let ghost ds = freetext_values(s@);
    assert(all_digits(ds, 42)) by {
        assert forall|k: int| 0 <= k < ds.len() implies 0 <= #[trigger] ds[k] < 42 by {
            assert(freetext_index(s@[k]) >= 0);
        }
    }
    let mut acc: u128 = 0;
    i = 0;
    assert(ds.take(0) =~= Seq::<int>::empty());
    while i < n
        invariant
            i <= n == s@.len(),
            s@ == data@,
            ds == freetext_values(s@),
            freetext_valid(s@),
            all_digits(ds, 42),
            acc == horner(ds.take(i as int), 42),
        decreases n - i,
    {
        let d = match freetext_position(s.get_char(i)) {
            Some(d) => d,
            None => {
                assert(freetext_index(s@[i as int]) >= 0);
                return Err(CodecError::InvalidCharacter);
            },
        };
        assert(ds[i as int] == d);
        proof {
            lemma_horner_step(ds, 42, i as int);
        }
        let bound: u128 = (u128::MAX - d as u128) / 42;
        if acc > bound {
            proof {
                assert(acc * 42 + d > u128::MAX) by (nonlinear_arith)
                    requires
                        bound == (u128::MAX - d) / 42,
                        acc > bound,
                        0 <= d < 42,
                ;
                lemma_horner_prefix_le(ds, 42, i + 1);
            }
            return Err(CodecError::Overflow);
        }
        assert(acc * 42 + d <= u128::MAX) by (nonlinear_arith)
            requires
                bound == (u128::MAX - d) / 42,
                acc <= bound,
                0 <= d < 42,
        ;
        acc = acc * 42 + d as u128;
        i = i + 1;
    }
    assert(ds.take(n as int) =~= ds);
    Ok(acc)
}

/// Unpacks a free-text code into its 13 positions, blanks trimmed. A code of
/// 42 to the power 13 or more fails with `Overflow`.
pub fn int_to_freetext(data: u128) -> (r: Result<String, CodecError>)
    ensures
        string_result(r) == spec_int_to_freetext(data),
{
    if data >= FREETEXT_CAPACITY {
        return Err(CodecError::Overflow);
    }
    let mut v: Vec<char> = Vec::new();
    let mut m: u128 = data;
    let mut i: usize = 0;
    while i < FREETEXT_LEN
        invariant
            i <= FREETEXT_LEN,
            freetext_digits(data as nat, FREETEXT_LEN as nat) == freetext_digits(
                m as nat,
                (FREETEXT_LEN - i) as nat,
            ) + v@,
        decreases FREETEXT_LEN - i,
    {
        let c = freetext_at((m % 42) as u32);
        let ghost prev = v@;
        v.insert(0, c);
        assert(freetext_digits(m as nat, (FREETEXT_LEN - i) as nat) + prev =~= freetext_digits(
            (m / 42) as nat,
            (FREETEXT_LEN - i - 1) as nat,
        ) + v@);
        m = m / 42;
        i = i + 1;
    }
    assert(freetext_digits(m as nat, 0) + v@ =~= v@);
    Ok(trimmed_string(&v))
}

/// A character of the alphabet comes back from its index.
proof fn lemma_freetext_char_round_trip(c: char)
    requires
        freetext_index(c) >= 0,
    ensures
        0 <= freetext_index(c) < 42,
        freetext_char(freetext_index(c)) == c,
{
    if is_digit(c) {
        lemma_digit_round_trip(c);
    } else if 'A' <= c <= 'Z' {
        lemma_letter_round_trip(c);
    }
}

/// Zero in `k` positions is `k` blanks.
proof fn lemma_freetext_digits_zero(k: nat)
    ensures
        freetext_digits(0, k) == blanks(k),
    decreases k,
{
    if k > 0 {
        lemma_freetext_digits_zero((k - 1) as nat);
        assert(blanks((k - 1) as nat).push(' ') =~= blanks(k));
    } else {
        assert(freetext_digits(0, 0) =~= blanks(0));
    }
}

/// The numeral of a valid text's value in `k >= len` positions is the text
/// with blanks in front.
proof fn lemma_freetext_digits_of_value(s: Seq<char>, k: nat)
    requires
        freetext_valid(s),
        s.len() <= k,
    ensures
        freetext_digits(horner(freetext_values(s), 42) as nat, k) == blanks((k - s.len()) as nat)
            + s,
    decreases s.len(),
{
    if s.len() == 0 {
        assert(horner(freetext_values(s), 42) == 0);
        lemma_freetext_digits_zero(k);
        assert(blanks(k) + s =~= blanks(k));
    } else {
        let init = s.drop_last();
        let c = s.last();
        assert(freetext_valid(init)) by {
            assert forall|i: int| 0 <= i < init.len() implies freetext_index(
                #[trigger] init[i],
            ) >= 0 by {
                assert(init[i] == s[i]);
            }
        }
        assert(freetext_index(s[s.len() - 1]) >= 0);
        lemma_freetext_char_round_trip(c);
        assert(freetext_values(s).drop_last() =~= freetext_values(init));
        assert(freetext_values(s).last() == freetext_index(c));
        let ds = freetext_values(init);
        assert(all_digits(ds, 42)) by {
            assert forall|i: int| 0 <= i < ds.len() implies 0 <= #[trigger] ds[i] < 42 by {
                assert(freetext_index(init[i]) >= 0);
                lemma_freetext_char_round_trip(init[i]);
            }
        }
        lemma_horner_bounds(ds, 42);
        let h = horner(ds, 42);
        let d = freetext_index(c);
        let v = horner(freetext_values(s), 42);
        assert(v == h * 42 + d);
        assert(v / 42 == h && v % 42 == d) by (nonlinear_arith)
            requires
                v == h * 42 + d,
                0 <= h,
                0 <= d < 42,
        ;
        lemma_freetext_digits_of_value(init, (k - 1) as nat);
        assert(blanks(((k - 1) as nat - init.len()) as nat) + init =~= blanks(
            (k - s.len()) as nat,
        ) + init);
        assert((blanks((k - s.len()) as nat) + init).push(c) =~= blanks((k - s.len()) as nat) + s);
    }
}

/// Decoding the code of a free text of at most 13 characters of the
/// alphabet gives the text back, with its blanks at either end removed.
pub proof fn lemma_freetext_round_trip(s: Seq<char>)
    requires
        freetext_valid(s),
        s.len() <= FREETEXT_LEN,
    ensures
        spec_freetext_to_int(s) is Ok,
        spec_int_to_freetext(spec_freetext_to_int(s)->Ok_0) == Ok::<Seq<char>, CodecError>(
            trim_blanks(s),
        ),
{
    let ds = freetext_values(s);
    assert(all_digits(ds, 42)) by {
        assert forall|i: int| 0 <= i < ds.len() implies 0 <= #[trigger] ds[i] < 42 by {
            assert(freetext_index(s[i]) >= 0);
            lemma_freetext_char_round_trip(s[i]);
        }
    }
    lemma_horner_bounds(ds, 42);
    lemma_pow_increases(42, s.len(), 13);
    reveal_with_fuel(pow, 14);
    assert(pow(42, 13) == FREETEXT_CAPACITY);
    lemma_freetext_digits_of_value(s, 13);
    lemma_trim_leading_pad((13 - s.len()) as nat, s);
}

/// The numeral of `n` in `k` positions has `k` characters of the alphabet.
proof fn lemma_freetext_digits_valid(n: nat, k: nat)
    ensures
        freetext_digits(n, k).len() == k,
        freetext_valid(freetext_digits(n, k)),
    decreases k,
{
    if k > 0 {
        let prev = freetext_digits(n / 42, (k - 1) as nat);
        lemma_freetext_digits_valid(n / 42, (k - 1) as nat);
        let c = freetext_char((n % 42) as int);
        assert(freetext_index(c) >= 0);
        assert forall|i: int| 0 <= i < prev.push(c).len() implies freetext_index(
            #[trigger] prev.push(c)[i],
        ) >= 0 by {
            if i < prev.len() {
                assert(prev.push(c)[i] == prev[i]);
            }
        }
    }
}

/// Cycles are stable: a free text obtained by decoding encodes, and decodes
/// back to itself, so every later cycle repeats the same code and text.
pub proof fn lemma_freetext_cycle_stable(n: u128)
    requires
        spec_int_to_freetext(n) is Ok,
    ensures
        spec_freetext_to_int(spec_int_to_freetext(n)->Ok_0) is Ok,
        spec_int_to_freetext(spec_freetext_to_int(spec_int_to_freetext(n)->Ok_0)->Ok_0)
            == spec_int_to_freetext(n),
{
    let x = freetext_digits(n as nat, FREETEXT_LEN as nat);
    lemma_freetext_digits_valid(n as nat, FREETEXT_LEN as nat);
    let p = |c: char| freetext_index(c) >= 0;
    assert forall|i: int| 0 <= i < x.len() implies p(#[trigger] x[i]) by {
        assert(freetext_index(x[i]) >= 0);
    }
    lemma_trimmed(x, p);
    let t = trim_blanks(x);
    assert forall|i: int| 0 <= i < t.len() implies freetext_index(#[trigger] t[i]) >= 0 by {
        assert(p(t[i]));
    }
    lemma_freetext_round_trip(t);
}

} // verus!
