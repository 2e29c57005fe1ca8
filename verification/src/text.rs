//! Text as sequences of characters: decimal numbers, occurrences of a pattern,
//! and the replacement of every occurrence.

use vstd::prelude::*;

verus! {

/// The character of the decimal digit `d`.
pub open spec fn digit_char(d: int) -> char
    recommends
        0 <= d < 10,
{
    (d + 48) as char
}

/// The decimal numeral of `n`, without leading zeros.
pub open spec fn decimal(n: nat) -> Seq<char>
    decreases n,
{
    if n < 10 {
        seq![digit_char(n as int)]
    } else {
        decimal(n / 10).push(digit_char((n % 10) as int))
    }
}

/// `text` with every occurrence of `pat` replaced by `with`. Occurrences are
/// found from left to right and do not overlap; what was put in is not searched
/// again. An empty `pat` occurs nowhere.
pub open spec fn replaced(text: Seq<char>, pat: Seq<char>, with: Seq<char>) -> Seq<char>
    decreases text.len(),
{
    if text.len() == 0 || pat.len() == 0 {
        text
    } else if pat.is_prefix_of(text) {
        with + replaced(text.skip(pat.len() as int), pat, with)
    } else {
        seq![text[0]] + replaced(text.skip(1), pat, with)
    }
}

/// Appends one character: `String::push`.
#[verifier::external_body]
fn push_char(s: &mut String, c: char)
    ensures
        final(s)@ == old(s)@.push(c),
{
    s.push(c)
}

/// The characters of `s`.
pub fn chars_of(s: &str) -> (v: Vec<char>)
    ensures
        v@ == s@,
{
    let mut v: Vec<char> = Vec::new();
    for c in it: s.chars()
        invariant
            it.seq() == s@,
            v@ == it.seq().take(it.index() as int),
    {
        v.push(c);
    }
    v
}

/// The string made of the characters of `v`.
pub fn string_of(v: &Vec<char>) -> (s: String)
    ensures
        s@ == v@,
{
    let mut s = String::new();
    let mut i: usize = 0;
    while i < v.len()
        invariant
            i <= v.len(),
            s@ == v@.take(i as int),
        decreases v.len() - i,
    {
        push_char(&mut s, v[i]);
        i += 1;
    }
    s
}

/// Appends the decimal numeral of `n` to `out`.
pub fn push_decimal(out: &mut Vec<char>, n: usize)
    ensures
        final(out)@ == old(out)@ + decimal(n as nat),
    decreases n,
{
    if n >= 10 {
        push_decimal(out, n / 10);
    }
    let d: u8 = (n % 10) as u8;
    out.push((d + 48) as char);
}

/// Whether `pat` stands in `text` at position `at`.
pub fn occurs_at(text: &Vec<char>, at: usize, pat: &Vec<char>) -> (b: bool)
    requires
        at <= text.len(),
    ensures
        b == pat@.is_prefix_of(text@.skip(at as int)),
{
    if pat.len() > text.len() - at {
        return false;
    }
    let mut k: usize = 0;
    while k < pat.len()
        invariant
            at <= text.len(),
            pat.len() <= text.len() - at,
            k <= pat.len(),
            forall|j: int| 0 <= j < k ==> pat@[j] == text@[at + j],
        decreases pat.len() - k,
    {
        if pat[k] != text[at + k] {
            assert(pat@[k as int] != text@.skip(at as int).subrange(0, pat@.len() as int)[k as int]);
            return false;
        }
        k += 1;
    }
    assert(pat@ =~= text@.skip(at as int).subrange(0, pat@.len() as int));
    true
}

/// Replaces every occurrence of `pat` in `text` by `with`.
pub fn replace_all(text: &Vec<char>, pat: &Vec<char>, with: &Vec<char>) -> (out: Vec<char>)
    ensures
        out@ == replaced(text@, pat@, with@),
{
    let mut out: Vec<char> = Vec::new();
    let mut i: usize = 0;
    assert(text@.skip(0) == text@);
    while i < text.len()
        invariant
            i <= text.len(),
            out@ + replaced(text@.skip(i as int), pat@, with@) == replaced(text@, pat@, with@),
        decreases text.len() - i,
    {
        let ghost rest = text@.skip(i as int);
        if pat.len() > 0 && occurs_at(text, i, pat) {
            out.extend_from_slice(with.as_slice());
            proof {
                assert(rest.skip(pat@.len() as int) == text@.skip(i + pat@.len()));
            }
            i += pat.len();
        } else {
            out.push(text[i]);
            proof {
                assert(rest.skip(1) == text@.skip(i + 1));
            }
            i += 1;
        }
    }
    out
}

} // verus!
