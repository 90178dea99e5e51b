//! Locator fields: a four-character grid square, a signal report or a
//! protocol token in one integer space; a six-character grid square in another.
use crate::radix::{
    decimal_chars, decimal_digits, digit_char, digit_offset, digit_to_char, digit_value, is_digit,
    lemma_digit_round_trip, lemma_letter_round_trip, lemma_parse_decimal_digits, letter_at,
    letter_char, letter_offset, letter_value, parse_u32, parse_u32_at,
};
use crate::text::string_of;
use crate::{string_result, CodecError};
use vstd::arithmetic::div_mod::{lemma_div_denominator, lemma_fundamental_div_mod};
use vstd::prelude::*;

verus! {

/// Number of four-character grid squares; codes from here up are tokens and reports.
pub const MAX_GRID: u32 = 32400;

/// Distance of the zero report above `MAX_GRID`.
pub const NUM_OFFSET: u32 = 35;

/// Number of six-character grid squares.
pub const MAX_GRID6: u32 = 18662400;

/// Pattern of a four-character grid square.
pub const GRID4_PATTERN: &'static str = "^[A-R][A-R][0-9][0-9]$";

/// Pattern of a six-character grid square.
pub const GRID6_PATTERN: &'static str = "^[A-R][A-R][0-9][0-9][A-X][A-X]$";

/// `c` is one of the field letters `A` to `R`.
pub open spec fn is_field_letter(c: char) -> bool {
    'A' <= c <= 'R'
}

/// `c` is one of the subsquare letters `A` to `X`.
pub open spec fn is_subsquare_letter(c: char) -> bool {
    'A' <= c <= 'X'
}

/// `s` is a grid square of two field letters and two digits.
pub open spec fn is_grid4(s: Seq<char>) -> bool {
    &&& s.len() == 4
    &&& is_field_letter(s[0])
    &&& is_field_letter(s[1])
    &&& is_digit(s[2])
    &&& is_digit(s[3])
}

/// `s` is a grid square of two field letters, two digits and two subsquare letters.
pub open spec fn is_grid6(s: Seq<char>) -> bool {
    &&& s.len() == 6
    &&& is_field_letter(s[0])
    &&& is_field_letter(s[1])
    &&& is_digit(s[2])
    &&& is_digit(s[3])
    &&& is_subsquare_letter(s[4])
    &&& is_subsquare_letter(s[5])
}

/// The mixed-radix value (18, 18, 10, 10) of a four-character grid square.
pub open spec fn grid4_value(s: Seq<char>) -> int {
    ((letter_value(s[0]) * 18 + letter_value(s[1])) * 10 + digit_value(s[2])) * 10
        + digit_value(s[3])
}

/// The mixed-radix value (18, 18, 10, 10, 24, 24) of a six-character grid square.
pub open spec fn grid6_value(s: Seq<char>) -> int {
    ((((letter_value(s[0]) * 18 + letter_value(s[1])) * 10 + digit_value(s[2])) * 10
        + digit_value(s[3])) * 24 + letter_value(s[4])) * 24 + letter_value(s[5])
}

/// The four-character grid square whose value is `n`, for `n` below `MAX_GRID`.
pub open spec fn grid4_chars(n: int) -> Seq<char> {
    seq![
        letter_char(n / 1800),
        letter_char(n / 100 % 18),
        digit_char(n / 10 % 10),
        digit_char(n % 10),
    ]
}

/// The six-character grid square whose value is `n`, for `n` below `MAX_GRID6`.
pub open spec fn grid6_chars(n: int) -> Seq<char> {
    seq![
        letter_char(n / 1036800),
        letter_char(n / 57600 % 18),
        digit_char(n / 5760 % 10),
        digit_char(n / 576 % 10),
        letter_char(n / 24 % 24),
        letter_char(n % 24),
    ]
}

/// The token `RRR`.
pub open spec fn token_rrr() -> Seq<char> {
    seq!['R', 'R', 'R']
}

/// The token `RR73`.
pub open spec fn token_rr73() -> Seq<char> {
    seq!['R', 'R', '7', '3']
}

/// The token `73`.
pub open spec fn token_73() -> Seq<char> {
    seq!['7', '3']
}

/// The code of a four-field locator: the empty field, a token, a signed
/// report or a four-character grid square, tried in that order.
pub open spec fn spec_grid_to_g15(s: Seq<char>) -> Result<u32, CodecError> {
    if s.len() == 0 {
        Ok((MAX_GRID + 1) as u32)
    } else if s == token_rrr() {
        Ok((MAX_GRID + 2) as u32)
    } else if s == token_rr73() {
        Ok((MAX_GRID + 3) as u32)
    } else if s == token_73() {
        Ok((MAX_GRID + 4) as u32)
    } else if s[0] == '+' {
        match parse_u32(s.drop_first()) {
            Some(n) => if MAX_GRID + NUM_OFFSET + n <= u32::MAX {
                Ok((MAX_GRID + NUM_OFFSET + n) as u32)
            } else {
                Err(CodecError::OutOfRange)
            },
            None => Err(CodecError::InvalidReport),
        }
    } else if s[0] == '-' {
        match parse_u32(s.drop_first()) {
            Some(n) => if n <= MAX_GRID + NUM_OFFSET {
                Ok((MAX_GRID + NUM_OFFSET - n) as u32)
            } else {
                Err(CodecError::OutOfRange)
            },
            None => Err(CodecError::InvalidReport),
        }
    } else if is_grid4(s) {
        Ok(grid4_value(s) as u32)
    } else {
        Err(CodecError::InvalidGridFormat)
    }
}

/// The text of a four-field locator code.
pub open spec fn spec_g15_to_grid(n: u32) -> Result<Seq<char>, CodecError> {
    if n == MAX_GRID + 1 {
        Ok(Seq::empty())
    } else if n == MAX_GRID + 2 {
        Ok(token_rrr())
    } else if n == MAX_GRID + 3 {
        Ok(token_rr73())
    } else if n == MAX_GRID + 4 {
        Ok(token_73())
    } else if n >= MAX_GRID + NUM_OFFSET {
        Ok(seq!['+'] + decimal_digits((n - MAX_GRID - NUM_OFFSET) as nat))
    } else if n > MAX_GRID + 4 {
        Ok(seq!['-'] + decimal_digits((MAX_GRID + NUM_OFFSET - n) as nat))
    } else if n < MAX_GRID {
        Ok(grid4_chars(n as int))
    } else {
        Err(CodecError::OutOfRange)
    }
}

/// The code of a six-character grid square.
pub open spec fn spec_grid_to_g25(s: Seq<char>) -> Result<u32, CodecError> {
    if is_grid6(s) {
        Ok(grid6_value(s) as u32)
    } else {
        Err(CodecError::InvalidGridFormat)
    }
}

/// The six-character grid square of a code.
pub open spec fn spec_g25_to_grid(n: u32) -> Result<Seq<char>, CodecError> {
    if n < MAX_GRID6 {
        Ok(grid6_chars(n as int))
    } else {
        Err(CodecError::OutOfRange)
    }
}

/// Relies on regex::Regex::new and Regex::is_match: each of the two grid
/// patterns is anchored at both ends and is a row of character ranges, so
/// it matches exactly the texts with one character of each range, in order.
#[verifier::external_body]
fn regex_is_match(pattern: &str, text: &str) -> (r: bool)
    requires
        pattern == GRID4_PATTERN || pattern == GRID6_PATTERN,
    ensures
        pattern == GRID4_PATTERN ==> r == is_grid4(text@),
        pattern == GRID6_PATTERN ==> r == is_grid6(text@),
{
    match regex::Regex::new(pattern) {
        Ok(re) => re.is_match(text),
        Err(_) => false,
    }
}

/// Packs a four-field locator: the empty field, `RRR`, `RR73` and `73` take
/// the four codes above `MAX_GRID`; `+N` and `-N` are reports around
/// `MAX_GRID + NUM_OFFSET`; a grid square takes its mixed-radix value.
pub fn grid_to_g15(grid: String) -> (r: Result<u32, CodecError>)
    ensures
        r == spec_grid_to_g15(grid@),
{
    let s = grid.as_str();
    let n = s.unicode_len();
    if n == 0 {
        return Ok(MAX_GRID + 1);
    }
    let c0 = s.get_char(0);
    if n == 3 && c0 == 'R' && s.get_char(1) == 'R' && s.get_char(2) == 'R' {
        assert(s@ =~= token_rrr());
        return Ok(MAX_GRID + 2);
    }
    assert(s@ != token_rrr()) by {
        if s@ == token_rrr() {
            assert(s@[1] == 'R' && s@[2] == 'R');
        }
    }
    if n == 4 && c0 == 'R' && s.get_char(1) == 'R' && s.get_char(2) == '7' && s.get_char(3) == '3' {
        assert(s@ =~= token_rr73());
        return Ok(MAX_GRID + 3);
    }
    assert(s@ != token_rr73()) by {
        if s@ == token_rr73() {
            assert(s@[1] == 'R' && s@[2] == '7' && s@[3] == '3');
        }
    }
    if n == 2 && c0 == '7' && s.get_char(1) == '3' {
        assert(s@ =~= token_73());
        return Ok(MAX_GRID + 4);
    }
    assert(s@ != token_73()) by {
        if s@ == token_73() {
            assert(s@[1] == '3');
        }
    }
    if c0 == '+' {
        assert(s@.skip(1) =~= s@.drop_first());
        match parse_u32_at(s, 1) {
            Some(num) => {
                if num <= u32::MAX - (MAX_GRID + NUM_OFFSET) {
                    Ok(MAX_GRID + NUM_OFFSET + num)
                } else {
                    Err(CodecError::OutOfRange)
                }
            },
            None => Err(CodecError::InvalidReport),
        }
    } else if c0 == '-' {
        assert(s@.skip(1) =~= s@.drop_first());
        match parse_u32_at(s, 1) {
            Some(num) => {
                if num <= MAX_GRID + NUM_OFFSET {
                    Ok(MAX_GRID + NUM_OFFSET - num)
                } else {
                    Err(CodecError::OutOfRange)
                }
            },
            None => Err(CodecError::InvalidReport),
        }
    } else if regex_is_match(GRID4_PATTERN, s) {
        let l0 = letter_offset(c0);
        let l1 = letter_offset(s.get_char(1));
        let d2 = digit_offset(s.get_char(2));
        let d3 = digit_offset(s.get_char(3));
        Ok(((l0 * 18 + l1) * 10 + d2) * 10 + d3)
    } else {
        Err(CodecError::InvalidGridFormat)
    }
}

/// Packs a six-character grid square into its mixed-radix value.
pub fn grid_to_g25(grid: String) -> (r: Result<u32, CodecError>)
    ensures
        r == spec_grid_to_g25(grid@),
{
    let s = grid.as_str();
    if regex_is_match(GRID6_PATTERN, s) {
        let l0 = letter_offset(s.get_char(0));
        let l1 = letter_offset(s.get_char(1));
        let d2 = digit_offset(s.get_char(2));
        let d3 = digit_offset(s.get_char(3));
        let l4 = letter_offset(s.get_char(4));
        let l5 = letter_offset(s.get_char(5));
        Ok(((((l0 * 18 + l1) * 10 + d2) * 10 + d3) * 24 + l4) * 24 + l5)
    } else {
        Err(CodecError::InvalidGridFormat)
    }
}

/// A report: the sign followed by the shortest numeral of `num`.
fn report_string(sign: char, num: u32) -> (r: String)
    ensures
        r@ == seq![sign] + decimal_digits(num as nat),
{
    let mut digits = decimal_chars(num);
    let ghost d = digits@;
    let mut v: Vec<char> = Vec::new();
    v.push(sign);
    v.append(&mut digits);
    assert(v@ =~= seq![sign] + d);
    string_of(&v)
}

/// Unpacks a four-field locator code: the codes above `MAX_GRID` give the
/// tokens and reports, those below give grid squares; `MAX_GRID` itself is
/// out of range.
pub fn g15_to_grid(grid: u32) -> (r: Result<String, CodecError>)
    ensures
        string_result(r) == spec_g15_to_grid(grid),
{
    if grid == MAX_GRID + 1 {
        Ok(String::new())
    } else if grid == MAX_GRID + 2 {
        let v: Vec<char> = vec!['R', 'R', 'R'];
        assert(v@ =~= token_rrr());
        Ok(string_of(&v))
    } else if grid == MAX_GRID + 3 {
        let v: Vec<char> = vec!['R', 'R', '7', '3'];
        assert(v@ =~= token_rr73());
        Ok(string_of(&v))
    } else if grid == MAX_GRID + 4 {
        let v: Vec<char> = vec!['7', '3'];
        assert(v@ =~= token_73());
        Ok(string_of(&v))
    } else if grid >= MAX_GRID + NUM_OFFSET {
        Ok(report_string('+', grid - MAX_GRID - NUM_OFFSET))
    } else if grid > MAX_GRID + 4 {
        Ok(report_string('-', MAX_GRID + NUM_OFFSET - grid))
    } else if grid < MAX_GRID {
        let v: Vec<char> = vec![
            letter_at(grid / 1800),
            letter_at(grid / 100 % 18),
            digit_to_char(grid / 10 % 10),
            digit_to_char(grid % 10),
        ];
        assert(v@ =~= grid4_chars(grid as int));
        Ok(string_of(&v))
    } else {
        Err(CodecError::OutOfRange)
    }
}

/// Unpacks a six-character grid square from its code.
pub fn g25_to_grid(grid: u32) -> (r: Result<String, CodecError>)
    ensures
        string_result(r) == spec_g25_to_grid(grid),
{
    if grid < MAX_GRID6 {
        let v: Vec<char> = vec![
            letter_at(grid / 1036800),
            letter_at(grid / 57600 % 18),
            digit_to_char(grid / 5760 % 10),
            digit_to_char(grid / 576 % 10),
            letter_at(grid / 24 % 24),
            letter_at(grid % 24),
        ];
        assert(v@ =~= grid6_chars(grid as int));
        Ok(string_of(&v))
    } else {
        Err(CodecError::OutOfRange)
    }
}

/// `s` is a four-field locator that its code gives back: the empty field, a
/// token, a grid square, `+N` with `N` in the shortest decimal form, or `-N`
/// in that form with `N` from 1 to 30 (the negative reports whose codes lie
/// above the tokens).
pub open spec fn is_g15_locator(s: Seq<char>) -> bool {
    ||| s.len() == 0
    ||| s == token_rrr()
    ||| s == token_rr73()
    ||| s == token_73()
    ||| is_grid4(s)
    ||| exists|n: u32|
        n <= u32::MAX - (MAX_GRID + NUM_OFFSET) && s == seq!['+'] + decimal_digits(n as nat)
    ||| exists|n: u32| 1 <= n <= 30 && s == seq!['-'] + decimal_digits(n as nat)
}

/// A four-character grid square comes back from its value, which lies below `MAX_GRID`.
proof fn lemma_grid4_chars(s: Seq<char>)
    requires
        is_grid4(s),
    ensures
        0 <= grid4_value(s) < MAX_GRID,
        grid4_chars(grid4_value(s)) == s,
{
    let a = letter_value(s[0]);
    let b = letter_value(s[1]);
    let c = digit_value(s[2]);
    let d = digit_value(s[3]);
    let v = grid4_value(s);
    assert(0 <= v < 32400 && v / 1800 == a && v / 100 % 18 == b && v / 10 % 10 == c && v % 10
        == d) by (nonlinear_arith)
        requires
            v == ((a * 18 + b) * 10 + c) * 10 + d,
            0 <= a < 18,
            0 <= b < 18,
            0 <= c < 10,
            0 <= d < 10,
    ;
    lemma_letter_round_trip(s[0]);
    lemma_letter_round_trip(s[1]);
    lemma_digit_round_trip(s[2]);
    lemma_digit_round_trip(s[3]);
    assert(grid4_chars(v) =~= s);
}

/// Decoding the code of a six-character grid square gives the square back.
pub proof fn lemma_g25_round_trip(s: Seq<char>)
    requires
        is_grid6(s),
    ensures
        spec_grid_to_g25(s) is Ok,
        spec_g25_to_grid(spec_grid_to_g25(s)->Ok_0) == Ok::<Seq<char>, CodecError>(s),
{
    let a = letter_value(s[0]);
    let b = letter_value(s[1]);
    let c = digit_value(s[2]);
    let d = digit_value(s[3]);
    let e = letter_value(s[4]);
    let f = letter_value(s[5]);
    let v = grid6_value(s);
    assert(0 <= v < 18662400 && v / 1036800 == a && v / 57600 % 18 == b && v / 5760 % 10 == c
        && v / 576 % 10 == d && v / 24 % 24 == e && v % 24 == f) by (nonlinear_arith)
        requires
            v == ((((a * 18 + b) * 10 + c) * 10 + d) * 24 + e) * 24 + f,
            0 <= a < 18,
            0 <= b < 18,
            0 <= c < 10,
            0 <= d < 10,
            0 <= e < 24,
            0 <= f < 24,
    ;
    lemma_letter_round_trip(s[0]);
    lemma_letter_round_trip(s[1]);
    lemma_digit_round_trip(s[2]);
    lemma_digit_round_trip(s[3]);
    lemma_letter_round_trip(s[4]);
    lemma_letter_round_trip(s[5]);
    assert(grid6_chars(v) =~= s);
}

/// Decoding the code of a four-field locator gives the locator back.
pub proof fn lemma_g15_round_trip(s: Seq<char>)
    requires
        is_g15_locator(s),
    ensures
        spec_grid_to_g15(s) is Ok,
        spec_g15_to_grid(spec_grid_to_g15(s)->Ok_0) == Ok::<Seq<char>, CodecError>(s),
{
    if s.len() == 0 {
        assert(s =~= Seq::<char>::empty());
    } else if s == token_rrr() || s == token_rr73() || s == token_73() {
    } else if is_grid4(s) {
        lemma_grid4_chars(s);
    } else if exists|n: u32|
        n <= u32::MAX - (MAX_GRID + NUM_OFFSET) && s == seq!['+'] + decimal_digits(n as nat) {
        let n = choose|n: u32|
            n <= u32::MAX - (MAX_GRID + NUM_OFFSET) && s == seq!['+'] + decimal_digits(n as nat);
        lemma_parse_decimal_digits(n);
        assert(s.drop_first() =~= decimal_digits(n as nat));
        assert(s[0] == '+');
    } else {
        let n = choose|n: u32| 1 <= n <= 30 && s == seq!['-'] + decimal_digits(n as nat);
        lemma_parse_decimal_digits(n);
        assert(s.drop_first() =~= decimal_digits(n as nat));
        assert(s[0] == '-');
    }
}

/// A decoded four-field locator is one that its code gives back.
proof fn lemma_g15_decoded_is_locator(n: u32)
    requires
        spec_g15_to_grid(n) is Ok,
    ensures
        is_g15_locator(spec_g15_to_grid(n)->Ok_0),
{
    let t = spec_g15_to_grid(n)->Ok_0;
    if n == MAX_GRID + 1 || n == MAX_GRID + 2 || n == MAX_GRID + 3 || n == MAX_GRID + 4 {
    } else if n >= MAX_GRID + NUM_OFFSET {
        let k = (n - MAX_GRID - NUM_OFFSET) as u32;
        assert(k <= u32::MAX - (MAX_GRID + NUM_OFFSET) && t == seq!['+'] + decimal_digits(
            k as nat,
        ));
    } else if n > MAX_GRID + 4 {
        let k = (MAX_GRID + NUM_OFFSET - n) as u32;
        assert(1 <= k <= 30 && t == seq!['-'] + decimal_digits(k as nat));
    } else {
        assert(is_grid4(t));
    }
}

/// Cycles are stable: a four-field locator obtained by decoding encodes, and
/// decoding its code gives it back, so every later cycle repeats the same
/// code and text.
pub proof fn lemma_g15_cycle_stable(n: u32)
    requires
        spec_g15_to_grid(n) is Ok,
    ensures
        spec_grid_to_g15(spec_g15_to_grid(n)->Ok_0) is Ok,
        spec_g15_to_grid(spec_grid_to_g15(spec_g15_to_grid(n)->Ok_0)->Ok_0) == spec_g15_to_grid(
            n,
        ),
{
    lemma_g15_decoded_is_locator(n);
    lemma_g15_round_trip(spec_g15_to_grid(n)->Ok_0);
}

/// Cycles are stable: a six-character grid square obtained by decoding
/// encodes back to the same code.
pub proof fn lemma_g25_cycle_stable(n: u32)
    requires
        spec_g25_to_grid(n) is Ok,
    ensures
        spec_grid_to_g25(spec_g25_to_grid(n)->Ok_0) == Ok::<u32, CodecError>(n),
{
    let t = grid6_chars(n as int);
    assert(is_grid6(t));
    let x = n as int;
    let q1 = x / 24;
    let q2 = q1 / 24;
    let q3 = q2 / 10;
    let q4 = q3 / 10;
    lemma_div_denominator(x, 24, 24);
    lemma_div_denominator(x, 576, 10);
    lemma_div_denominator(x, 5760, 10);
    lemma_div_denominator(x, 57600, 18);
    lemma_fundamental_div_mod(x, 24);
    lemma_fundamental_div_mod(q1, 24);
    lemma_fundamental_div_mod(q2, 10);
    lemma_fundamental_div_mod(q3, 10);
    lemma_fundamental_div_mod(q4, 18);
    assert(grid6_value(t) == x);
}

} // verus!
