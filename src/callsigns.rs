//! Callsigns: three to six characters, padded to six positions and packed
//! by a mixed-radix scheme into a band above the token and locator codes.
use crate::radix::{
    digit_char, digit_offset, digit_to_char, digit_value, is_digit, lemma_digit_round_trip,
    lemma_letter_round_trip, letter_at, letter_char, letter_offset, letter_value,
};
use crate::text::{blanks, lemma_trim_of_padded, lemma_trimmed, trim_blanks, trimmed_string};
use crate::{string_result, CodecError};
use vstd::prelude::*;

verus! {

/// Codes reserved for protocol tokens.
pub const NTOKENS: u32 = 2063592;

/// Codes reserved below the callsign band for locators (2 to the power 22).
pub const MAX22: u32 = 4194304;

/// Number of padded callsigns: 37 * 36 * 10 * 27 * 27 * 27.
pub const CALLSIGN_CAPACITY: u32 = 262177560;

/// `c` is an upper-case ASCII letter.
pub open spec fn is_upper(c: char) -> bool {
    'A' <= c <= 'Z'
}

/// Index of `c` in the first position's alphabet (blank, digits, letters), or -1.
pub open spec fn first_index(c: char) -> int {
    if c == ' ' {
        0
    } else if is_digit(c) {
        1 + digit_value(c)
    } else if is_upper(c) {
        11 + letter_value(c)
    } else {
        -1
    }
}

/// Index of `c` in the second position's alphabet (digits, letters), or -1.
pub open spec fn second_index(c: char) -> int {
    if is_digit(c) {
        digit_value(c)
    } else if is_upper(c) {
        10 + letter_value(c)
    } else {
        -1
    }
}

/// Index of `c` in the third position's alphabet (digits), or -1.
pub open spec fn third_index(c: char) -> int {
    if is_digit(c) {
        digit_value(c)
    } else {
        -1
    }
}

/// Index of `c` in the alphabet of the last three positions (blank, letters), or -1.
pub open spec fn suffix_index(c: char) -> int {
    if c == ' ' {
        0
    } else if is_upper(c) {
        1 + letter_value(c)
    } else {
        -1
    }
}

/// The character at index `d` of the first position's alphabet.
pub open spec fn first_char(d: int) -> char {
    if d == 0 {
        ' '
    } else if d < 11 {
        digit_char(d - 1)
    } else {
        letter_char(d - 11)
    }
}

/// The character at index `d` of the second position's alphabet.
pub open spec fn second_char(d: int) -> char {
    if d < 10 {
        digit_char(d)
    } else {
        letter_char(d - 10)
    }
}

/// The character at index `d` of the alphabet of the last three positions.
pub open spec fn suffix_char(d: int) -> char {
    if d == 0 {
        ' '
    } else {
        letter_char(d - 1)
    }
}

/// A callsign of 3 to 6 characters padded to six positions: one leading
/// blank unless it has six characters, then trailing blanks.
pub open spec fn pad_callsign(s: Seq<char>) -> Seq<char> {
    if s.len() >= 6 {
        s
    } else {
        seq![' '] + s + blanks((5 - s.len()) as nat)
    }
}

/// Every character of the six positions of `p` is in its position's alphabet.
pub open spec fn callsign_valid(p: Seq<char>) -> bool {
    &&& p.len() == 6
    &&& first_index(p[0]) >= 0
    &&& second_index(p[1]) >= 0
    &&& third_index(p[2]) >= 0
    &&& suffix_index(p[3]) >= 0
    &&& suffix_index(p[4]) >= 0
    &&& suffix_index(p[5]) >= 0
}

/// The mixed-radix value (37, 36, 10, 27, 27, 27) of a padded callsign.
pub open spec fn callsign_value(p: Seq<char>) -> int {
    ((((first_index(p[0]) * 36 + second_index(p[1])) * 10 + third_index(p[2])) * 27
        + suffix_index(p[3])) * 27 + suffix_index(p[4])) * 27 + suffix_index(p[5])
}

/// The padded callsign whose value is `v`, for `v` below `CALLSIGN_CAPACITY`.
pub open spec fn callsign_chars(v: int) -> Seq<char> {
    seq![
        first_char(v / 7085880),
        second_char(v / 196830 % 36),
        digit_char(v / 19683 % 10),
        suffix_char(v / 729 % 27),
        suffix_char(v / 27 % 27),
        suffix_char(v % 27),
    ]
}

/// The code of a callsign.
pub open spec fn spec_callsign_to_int(s: Seq<char>) -> Result<u32, CodecError> {
    if !(3 <= s.len() <= 6) {
        Err(CodecError::InvalidLength)
    } else if !callsign_valid(pad_callsign(s)) {
        Err(CodecError::InvalidCharacter)
    } else {
        Ok((NTOKENS + MAX22 + callsign_value(pad_callsign(s))) as u32)
    }
}

/// The callsign of a code, without its padding blanks.
pub open spec fn spec_int_to_callsign(n: u32) -> Result<Seq<char>, CodecError> {
    if n < NTOKENS + MAX22 {
        Err(CodecError::TooSmall)
    } else if n - (NTOKENS + MAX22) >= CALLSIGN_CAPACITY {
        Err(CodecError::TooLarge)
    } else {
        Ok(trim_blanks(callsign_chars(n - (NTOKENS + MAX22))))
    }
}

/// Index of `c` in the first position's alphabet.
fn first_position(c: char) -> (r: Option<u32>)
    ensures
        r is Some <==> first_index(c) >= 0,
        r is Some ==> r->0 == first_index(c),
{
    if c == ' ' {
        Some(0)
    } else if '0' <= c && c <= '9' {
        Some(1 + digit_offset(c))
    } else if 'A' <= c && c <= 'Z' {
        Some(11 + letter_offset(c))
    } else {
        None
    }
}

/// Index of `c` in the second position's alphabet.
fn second_position(c: char) -> (r: Option<u32>)
    ensures
        r is Some <==> second_index(c) >= 0,
        r is Some ==> r->0 == second_index(c),
{
    if '0' <= c && c <= '9' {
        Some(digit_offset(c))
    } else if 'A' <= c && c <= 'Z' {
        Some(10 + letter_offset(c))
    } else {
        None
    }
}

/// Index of `c` in the third position's alphabet.
fn third_position(c: char) -> (r: Option<u32>)
    ensures
        r is Some <==> third_index(c) >= 0,
        r is Some ==> r->0 == third_index(c),
{
    if '0' <= c && c <= '9' {
        Some(digit_offset(c))
    } else {
        None
    }
}

/// Index of `c` in the alphabet of the last three positions.
fn suffix_position(c: char) -> (r: Option<u32>)
    ensures
        r is Some <==> suffix_index(c) >= 0,
        r is Some ==> r->0 == suffix_index(c),
{
    if c == ' ' {
        Some(0)
    } else if 'A' <= c && c <= 'Z' {
        Some(1 + letter_offset(c))
    } else {
        None
    }
}

/// The characters of a callsign of 3 to 6 characters, padded to six positions.
fn pad_chars(s: &str) -> (r: Vec<char>)
    requires
        3 <= s@.len() <= 6,
    ensures
        r@ == pad_callsign(s@),
{
    let n = s.unicode_len();
    let mut v: Vec<char> = Vec::new();
    if n < 6 {
        v.push(' ');
    }
    let ghost lead: nat = if n < 6 { 1 } else { 0 };
    let mut i: usize = 0;
    while i < n
        invariant
            n == s@.len(),
            3 <= n <= 6,
            i <= n,
            lead == (if n < 6 { 1nat } else { 0nat }),
            v@ == blanks(lead) + s@.subrange(0, i as int),
        decreases n - i,
    {
        v.push(s.get_char(i));
        assert(s@.subrange(0, i + 1) =~= s@.subrange(0, i as int).push(s@[i as int]));
        assert(v@ =~= blanks(lead) + s@.subrange(0, i + 1));
        i = i + 1;
    }
    while v.len() < 6
        invariant
            n == s@.len(),
            3 <= n <= 6,
            lead == (if n < 6 { 1nat } else { 0nat }),
            lead + n <= v@.len() <= 6,
            v@ == blanks(lead) + s@ + blanks((v@.len() - lead - n) as nat),
        decreases 6 - v@.len(),
    {
        let ghost k = (v@.len() - lead - n) as nat;
        v.push(' ');
        assert(blanks(k).push(' ') =~= blanks(k + 1));
        assert(v@ =~= blanks(lead) + s@ + blanks(k + 1));
    }
    assert(s@.subrange(0, n as int) =~= s@);
    if n < 6 {
        assert(blanks(1) =~= seq![' ']);
    } else {
        assert(v@ =~= s@);
    }
    v
}

/// Packs a callsign of 3 to 6 characters into its code: the padded
/// positions' mixed-radix value, placed above the token and locator codes.
pub fn callsign_to_int(callsign: String) -> (r: Result<u32, CodecError>)
    ensures
        r == spec_callsign_to_int(callsign@),
{
    let s = callsign.as_str();
    let n = s.unicode_len();
    if n < 3 || n > 6 {
        return Err(CodecError::InvalidLength);
    }
    let p = pad_chars(s);
    let i0 = match first_position(p[0]) {
        Some(i) => i,
        None => return Err(CodecError::InvalidCharacter),
    };
    let i1 = match second_position(p[1]) {
        Some(i) => i,
        None => return Err(CodecError::InvalidCharacter),
    };
    let i2 = match third_position(p[2]) {
        Some(i) => i,
        None => return Err(CodecError::InvalidCharacter),
    };
    let i3 = match suffix_position(p[3]) {
        Some(i) => i,
        None => return Err(CodecError::InvalidCharacter),
    };
    let i4 = match suffix_position(p[4]) {
        Some(i) => i,
        None => return Err(CodecError::InvalidCharacter),
    };
    let i5 = match suffix_position(p[5]) {
        Some(i) => i,
        None => return Err(CodecError::InvalidCharacter),
    };
    let value = ((((i0 * 36 + i1) * 10 + i2) * 27 + i3) * 27 + i4) * 27 + i5;
    Ok(value + (NTOKENS + MAX22))
}

/// The character at index `d` of the first position's alphabet.
fn first_at(d: u32) -> (c: char)
    requires
        d < 37,
    ensures
        c == first_char(d as int),
{
    if d == 0 {
        ' '
    } else if d < 11 {
        digit_to_char(d - 1)
    } else {
        letter_at(d - 11)
    }
}

/// The character at index `d` of the second position's alphabet.
fn second_at(d: u32) -> (c: char)
    requires
        d < 36,
    ensures
        c == second_char(d as int),
{
    if d < 10 {
        digit_to_char(d)
    } else {
        letter_at(d - 10)
    }
}

/// The character at index `d` of the alphabet of the last three positions.
fn suffix_at(d: u32) -> (c: char)
    requires
        d < 27,
    ensures
        c == suffix_char(d as int),
{
    if d == 0 {
        ' '
    } else {
        letter_at(d - 1)
    }
}

/// Unpacks a callsign code into the callsign, without its padding blanks.
pub fn int_to_callsign(callsign: u32) -> (r: Result<String, CodecError>)
    ensures
        string_result(r) == spec_int_to_callsign(callsign),
{
    if callsign < NTOKENS + MAX22 {
        return Err(CodecError::TooSmall);
    }
    let v = callsign - (NTOKENS + MAX22);
    if v >= CALLSIGN_CAPACITY {
        return Err(CodecError::TooLarge);
    }
    let chars: Vec<char> = vec![
        first_at(v / 7085880),
        second_at(v / 196830 % 36),
        digit_to_char(v / 19683 % 10),
        suffix_at(v / 729 % 27),
        suffix_at(v / 27 % 27),
        suffix_at(v % 27),
    ];
    assert(chars@ =~= callsign_chars(v as int));
    Ok(trimmed_string(&chars))
}

/// Each position's character comes back from its index.
proof fn lemma_position_round_trips(p: Seq<char>)
    requires
        callsign_valid(p),
    ensures
        first_char(first_index(p[0])) == p[0],
        second_char(second_index(p[1])) == p[1],
        digit_char(third_index(p[2])) == p[2],
        suffix_char(suffix_index(p[3])) == p[3],
        suffix_char(suffix_index(p[4])) == p[4],
        suffix_char(suffix_index(p[5])) == p[5],
{
    if is_digit(p[0]) {
        lemma_digit_round_trip(p[0]);
    } else if is_upper(p[0]) {
        lemma_letter_round_trip(p[0]);
    }
    if is_digit(p[1]) {
        lemma_digit_round_trip(p[1]);
    } else {
        lemma_letter_round_trip(p[1]);
    }
    lemma_digit_round_trip(p[2]);
    if p[3] != ' ' {
        lemma_letter_round_trip(p[3]);
    }
    if p[4] != ' ' {
        lemma_letter_round_trip(p[4]);
    }
    if p[5] != ' ' {
        lemma_letter_round_trip(p[5]);
    }
}

/// Decoding the code of a callsign gives the callsign back, for every
/// callsign of 3 to 6 characters, each in its position's alphabet once
/// padded, with no blank at either end.
pub proof fn lemma_callsign_round_trip(s: Seq<char>)
    requires
        3 <= s.len() <= 6,
        callsign_valid(pad_callsign(s)),
        s[0] != ' ',
        s.last() != ' ',
    ensures
        spec_callsign_to_int(s) is Ok,
        spec_int_to_callsign(spec_callsign_to_int(s)->Ok_0) == Ok::<Seq<char>, CodecError>(s),
{
    let p = pad_callsign(s);
    let a = first_index(p[0]);
    let b = second_index(p[1]);
    let c = third_index(p[2]);
    let d = suffix_index(p[3]);
    let e = suffix_index(p[4]);
    let f = suffix_index(p[5]);
    let v = callsign_value(p);
    assert(0 <= v < 262177560 && v / 7085880 == a && v / 196830 % 36 == b && v / 19683 % 10 == c
        && v / 729 % 27 == d && v / 27 % 27 == e && v % 27 == f) by (nonlinear_arith)
        requires
            v == ((((a * 36 + b) * 10 + c) * 27 + d) * 27 + e) * 27 + f,
            0 <= a < 37,
            0 <= b < 36,
            0 <= c < 10,
            0 <= d < 27,
            0 <= e < 27,
            0 <= f < 27,
    ;
    lemma_position_round_trips(p);
    assert(callsign_chars(v) =~= p);
    if s.len() < 6 {
        assert(seq![' '] =~= blanks(1));
        lemma_trim_of_padded(1, s, (5 - s.len()) as nat);
    } else {
        assert(blanks(0) + s + blanks(0) =~= s);
        lemma_trim_of_padded(0, s, 0);
    }
}

/// Cycles are stable: a callsign obtained by decoding that encodes at all
/// decodes back to itself, so every later cycle repeats the same code and text.
pub proof fn lemma_callsign_cycle_stable(n: u32)
    requires
        spec_int_to_callsign(n) is Ok,
        spec_callsign_to_int(spec_int_to_callsign(n)->Ok_0) is Ok,
    ensures
        spec_int_to_callsign(spec_callsign_to_int(spec_int_to_callsign(n)->Ok_0)->Ok_0)
            == spec_int_to_callsign(n),
{
    let x = callsign_chars(n - (NTOKENS + MAX22));
    lemma_trimmed(x, |c: char| true);
    lemma_callsign_round_trip(trim_blanks(x));
}

} // verus!
