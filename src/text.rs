//! Character sequences: blank trimming and building strings.
use vstd::prelude::*;

verus! {

/// `s` without its leading blanks.
pub open spec fn drop_leading_blanks(s: Seq<char>) -> Seq<char>
    decreases s.len(),
{
    if s.len() > 0 && s[0] == ' ' {
        drop_leading_blanks(s.drop_first())
    } else {
        s
    }
}

/// `s` without its trailing blanks.
pub open spec fn drop_trailing_blanks(s: Seq<char>) -> Seq<char>
    decreases s.len(),
{
    if s.len() > 0 && s.last() == ' ' {
        drop_trailing_blanks(s.drop_last())
    } else {
        s
    }
}

/// `s` without blanks at either end.
pub open spec fn trim_blanks(s: Seq<char>) -> Seq<char> {
    drop_trailing_blanks(drop_leading_blanks(s))
}

/// A sequence of `n` blanks.
pub open spec fn blanks(n: nat) -> Seq<char> {
    Seq::new(n, |i: int| ' ')
}

/// Relies on String::push: the character is appended at the end.
#[verifier::external_body]
fn push_char(s: &mut String, c: char)
    ensures
        final(s)@ == old(s)@.push(c),
{
    s.push(c)
}

/// The characters `v[start..end]` as a string.
pub fn string_of_range(v: &Vec<char>, start: usize, end: usize) -> (r: String)
    requires
        start <= end <= v@.len(),
    ensures
        r@ == v@.subrange(start as int, end as int),
{
    let mut r = String::new();
    let mut i: usize = start;
    while i < end
        invariant
            start <= i <= end <= v@.len(),
            r@ == v@.subrange(start as int, i as int),
        decreases end - i,
    {
        push_char(&mut r, v[i]);
        assert(v@.subrange(start as int, i + 1) =~= v@.subrange(start as int, i as int).push(v@[i as int]));
        i = i + 1;
    }
    r
}

/// A string of the given characters.
pub fn string_of(v: &Vec<char>) -> (r: String)
    ensures
        r@ == v@,
{
    let r = string_of_range(v, 0, v.len());
    assert(v@.subrange(0, v@.len() as int) =~= v@);
    r
}

/// The characters of `v` with blanks removed at both ends, as a string.
pub fn trimmed_string(v: &Vec<char>) -> (r: String)
    ensures
        r@ == trim_blanks(v@),
{
    let n = v.len();
    let mut start: usize = 0;
    assert(v@.subrange(0, n as int) =~= v@);
    while start < n && v[start] == ' '
        invariant
            start <= n == v@.len(),
            drop_leading_blanks(v@) == drop_leading_blanks(v@.subrange(start as int, n as int)),
        decreases n - start,
    {
        let ghost rest = v@.subrange(start as int, n as int);
        assert(rest.drop_first() =~= v@.subrange(start + 1, n as int));
        start = start + 1;
    }
    assert(drop_leading_blanks(v@) == v@.subrange(start as int, n as int));
    let mut end: usize = n;
    while end > start && v[end - 1] == ' '
        invariant
            start <= end <= n == v@.len(),
            trim_blanks(v@) == drop_trailing_blanks(v@.subrange(start as int, end as int)),
        decreases end,
    {
        let ghost rest = v@.subrange(start as int, end as int);
        assert(rest.drop_last() =~= v@.subrange(start as int, end - 1));
        end = end - 1;
    }
    string_of_range(v, start, end)
}

/// Blanks in front of a sequence do not survive trimming.
pub proof fn lemma_trim_leading_pad(n: nat, s: Seq<char>)
    ensures
        drop_leading_blanks(blanks(n) + s) == drop_leading_blanks(s),
    decreases n,
{
    if n > 0 {
        assert((blanks(n) + s).drop_first() =~= blanks((n - 1) as nat) + s);
        lemma_trim_leading_pad((n - 1) as nat, s);
    } else {
        assert(blanks(n) + s =~= s);
    }
}

/// Blanks after a sequence do not survive trimming.
pub proof fn lemma_trim_trailing_pad(s: Seq<char>, n: nat)
    ensures
        drop_trailing_blanks(s + blanks(n)) == drop_trailing_blanks(s),
    decreases n,
{
    if n > 0 {
        assert((s + blanks(n)).drop_last() =~= s + blanks((n - 1) as nat));
        lemma_trim_trailing_pad(s, (n - 1) as nat);
    } else {
        assert(s + blanks(n) =~= s);
    }
}

/// A sequence with no blank at either end is its own trimming.
pub proof fn lemma_trim_of_padded(m: nat, s: Seq<char>, n: nat)
    requires
        s.len() > 0,
        s[0] != ' ',
        s.last() != ' ',
    ensures
        trim_blanks(blanks(m) + s + blanks(n)) == s,
{
    lemma_trim_leading_pad(m, s + blanks(n));
    assert(blanks(m) + s + blanks(n) =~= blanks(m) + (s + blanks(n)));
    assert((s + blanks(n))[0] == s[0]);
    lemma_trim_trailing_pad(s, n);
}

/// Dropping leading blanks keeps the last element, leaves no leading blank,
/// and keeps a property of every element.
proof fn lemma_drop_leading(x: Seq<char>, p: spec_fn(char) -> bool)
    ensures
        drop_leading_blanks(x).len() <= x.len(),
        drop_leading_blanks(x).len() > 0 ==> drop_leading_blanks(x)[0] != ' ',
        drop_leading_blanks(x).len() > 0 ==> drop_leading_blanks(x).last() == x.last(),
        (forall|i: int| 0 <= i < x.len() ==> p(#[trigger] x[i])) ==> (forall|i: int|
            0 <= i < drop_leading_blanks(x).len() ==> p(#[trigger] drop_leading_blanks(x)[i])),
    decreases x.len(),
{
    if x.len() > 0 && x[0] == ' ' {
        let y = x.drop_first();
        lemma_drop_leading(y, p);
        if forall|i: int| 0 <= i < x.len() ==> p(#[trigger] x[i]) {
            assert forall|i: int| 0 <= i < y.len() implies p(#[trigger] y[i]) by {
                assert(y[i] == x[i + 1]);
            }
        }
        if y.len() > 0 {
            assert(y.last() == x.last());
        }
    }
}

/// Dropping trailing blanks keeps the first element, leaves no trailing
/// blank, and keeps a property of every element.
proof fn lemma_drop_trailing(x: Seq<char>, p: spec_fn(char) -> bool)
    ensures
        drop_trailing_blanks(x).len() <= x.len(),
        drop_trailing_blanks(x).len() > 0 ==> drop_trailing_blanks(x).last() != ' ',
        drop_trailing_blanks(x).len() > 0 ==> drop_trailing_blanks(x)[0] == x[0],
        (forall|i: int| 0 <= i < x.len() ==> p(#[trigger] x[i])) ==> (forall|i: int|
            0 <= i < drop_trailing_blanks(x).len() ==> p(#[trigger] drop_trailing_blanks(x)[i])),
    decreases x.len(),
{
    if x.len() > 0 && x.last() == ' ' {
        let y = x.drop_last();
        lemma_drop_trailing(y, p);
        if forall|i: int| 0 <= i < x.len() ==> p(#[trigger] x[i]) {
            assert forall|i: int| 0 <= i < y.len() implies p(#[trigger] y[i]) by {
                assert(y[i] == x[i]);
            }
        }
        if y.len() > 0 {
            assert(y[0] == x[0]);
        }
    }
}

/// A trimmed sequence is no longer than the original, has no blank at
/// either end, is its own trimming, and keeps a property of every element.
pub proof fn lemma_trimmed(x: Seq<char>, p: spec_fn(char) -> bool)
    ensures
        trim_blanks(x).len() <= x.len(),
        trim_blanks(x).len() > 0 ==> trim_blanks(x)[0] != ' ' && trim_blanks(x).last() != ' ',
        trim_blanks(trim_blanks(x)) == trim_blanks(x),
        (forall|i: int| 0 <= i < x.len() ==> p(#[trigger] x[i])) ==> (forall|i: int|
            0 <= i < trim_blanks(x).len() ==> p(#[trigger] trim_blanks(x)[i])),
{
    let y = drop_leading_blanks(x);
    lemma_drop_leading(x, p);
    lemma_drop_trailing(y, p);
    let t = trim_blanks(x);
    if t.len() > 0 {
        assert(drop_leading_blanks(t) == t);
        assert(drop_trailing_blanks(t) == t);
    } else {
        assert(drop_leading_blanks(t) == t);
        assert(drop_trailing_blanks(t) == t);
    }
}

} // verus!
