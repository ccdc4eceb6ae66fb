//! Searching and cutting text, seen as a sequence of characters.

use vstd::prelude::*;
use vstd::slice::slice_subrange;
use vstd::string::*;
use crate::text_laws::{lemma_find_first, lemma_find_none, lemma_find_some};

verus! {

/// `pat` stands in `s` at position `i`.
pub open spec fn occurs_at(s: Seq<char>, pat: Seq<char>, i: int) -> bool {
    &&& 0 <= i
    &&& i + pat.len() <= s.len()
    &&& s.subrange(i, i + pat.len()) =~= pat
}

/// `pat` stands in `s` at position `i` and nowhere before it.
pub open spec fn first_occurrence(s: Seq<char>, pat: Seq<char>, i: int) -> bool {
    &&& occurs_at(s, pat, i)
    &&& forall|j: int| 0 <= j < i ==> !occurs_at(s, pat, j)
}

/// The position of the first occurrence of `pat` in `s`, if `pat` occurs at all.
pub open spec fn find(s: Seq<char>, pat: Seq<char>) -> Option<int> {
    if exists|i: int| first_occurrence(s, pat, i) {
        Some(choose|i: int| first_occurrence(s, pat, i))
    } else {
        None
    }
}

/// `pat` stands somewhere in `s`.
pub open spec fn contains_text(s: Seq<char>, pat: Seq<char>) -> bool {
    exists|i: int| occurs_at(s, pat, i)
}

/// No proper end of `pat` is also a beginning of it, so that two occurrences
/// of `pat` never overlap.
pub open spec fn unbordered(pat: Seq<char>) -> bool {
    forall|m: int| 0 < m < pat.len() ==> pat.skip(pat.len() - m) != #[trigger] pat.take(m)
}

/// The pieces of `s` between the occurrences of `pat`, taken from the left
/// and without overlap. There is one piece more than there are such
/// occurrences; an empty `pat` cuts nowhere.
pub open spec fn split(s: Seq<char>, pat: Seq<char>) -> Seq<Seq<char>>
    decreases s.len(),
    via split_decreases
{
    if pat.len() > 0 && find(s, pat) is Some {
        let i = find(s, pat).unwrap();
        seq![s.take(i)] + split(s.skip(i + pat.len()), pat)
    } else {
        seq![s]
    }
}

/// What follows a cut is shorter than the text that was cut.
#[via_fn]
proof fn split_decreases(s: Seq<char>, pat: Seq<char>) {
    lemma_find_first(s, pat);
}

/// `parts` written one after the other with `sep` between each two.
pub open spec fn join(parts: Seq<Seq<char>>, sep: Seq<char>) -> Seq<char>
    decreases parts.len(),
{
    if parts.len() == 0 {
        Seq::empty()
    } else if parts.len() == 1 {
        parts[0]
    } else {
        parts[0] + sep + join(parts.skip(1), sep)
    }
}

/// The text of the decimal digit `d`.
pub open spec fn digit(d: nat) -> char
    recommends
        d < 10,
{
    "0123456789"@[d as int]
}

/// `n` written in decimal, without leading zeros.
pub open spec fn decimal(n: nat) -> Seq<char>
    decreases n,
{
    if n < 10 {
        seq![digit(n)]
    } else {
        decimal(n / 10).push(digit(n % 10))
    }
}

/// Taken on trust, not proved: after `String::push` of the standard library
/// the string holds the characters it held before, in their order, and `ch`
/// as one more character after them.
pub assume_specification[ String::push ](s: &mut String, ch: char)
    ensures
        final(s)@ == old(s)@.push(ch),
;

/// The characters of `s`, one by one.
pub fn to_chars(s: &str) -> (chars: Vec<char>)
    ensures
        chars@ == s@,
{
    let mut chars: Vec<char> = Vec::new();
    for c in it: s.chars()
        invariant
            chars@ == it.seq().take(it.index() as int),
            it.seq() == s@,
    {
        chars.push(c);
    }
    chars
}

/// The string made of `chars`.
pub fn from_chars(chars: &[char]) -> (s: String)
    ensures
        s@ == chars@,
{
    let mut s = String::new();
    let mut i: usize = 0;
    while i < chars.len()
        invariant
            i <= chars.len(),
            s@ == chars@.take(i as int),
        decreases chars.len() - i,
    {
        s.push(chars[i]);
        i += 1;
    }
    s
}

/// Appends `n` in decimal to `out`.
pub fn write_decimal(n: u32, out: &mut String)
    ensures
        final(out)@ == old(out)@ + decimal(n as nat),
    decreases n,
{
    if n >= 10 {
        write_decimal(n / 10, out);
    }
    proof {
        reveal_strlit("0123456789");
    }
    let d: usize = (n % 10) as usize;
    out.push("0123456789".get_char(d));
}

/// Tells whether `pat` stands in `hay` at position `at`.
pub fn matches_at(hay: &[char], pat: &[char], at: usize) -> (found: bool)
    ensures
        found == occurs_at(hay@, pat@, at as int),
{
    if pat.len() > hay.len() || at > hay.len() - pat.len() {
        return false;
    }
    let mut k: usize = 0;
    while k < pat.len()
        invariant
            k <= pat.len(),
            at + pat.len() <= hay.len(),
            forall|j: int| 0 <= j < k ==> hay@[at + j] == pat@[j],
        decreases pat.len() - k,
    {
        if hay[at + k] != pat[k] {
            proof {
                let sub = hay@.subrange(at as int, at + pat.len());
                assert(sub[k as int] == hay@[at + k]);
            }
            return false;
        }
        k += 1;
    }
    true
}

/// Tells whether `hay` begins with `prefix`.
pub fn starts_with(hay: &[char], prefix: &[char]) -> (yes: bool)
    ensures
        yes == prefix@.is_prefix_of(hay@),
{
    matches_at(hay, prefix, 0)
}

/// Tells whether `a` and `b` are the same text.
pub fn same_text(a: &[char], b: &[char]) -> (same: bool)
    ensures
        same == (a@ == b@),
{
    proof {
        assert(a@.subrange(0, a@.len() as int) =~= a@);
    }
    a.len() == b.len() && matches_at(a, b, 0)
}

/// The position of the first occurrence of `pat` in `hay`.
pub fn find_in(hay: &[char], pat: &[char]) -> (found: Option<usize>)
    ensures
        found matches Some(i) ==> find(hay@, pat@) == Some(i as int) && i + pat@.len()
            <= hay@.len(),
        found is None ==> find(hay@, pat@) is None,
{
    let mut i: usize = 0;
    while i < hay.len()
        invariant
            i <= hay.len(),
            forall|j: int| 0 <= j < i ==> !occurs_at(hay@, pat@, j),
        decreases hay.len() - i,
    {
        if matches_at(hay, pat, i) {
            proof {
                lemma_find_some(hay@, pat@, i as int);
            }
            return Some(i);
        }
        i += 1;
    }
    if matches_at(hay, pat, i) {
        proof {
            lemma_find_some(hay@, pat@, i as int);
        }
        return Some(i);
    }
    proof {
        lemma_find_none(hay@, pat@);
    }
    None
}

/// The pieces of `hay` between the occurrences of `pat`.
pub fn split_on<'a>(hay: &'a [char], pat: &[char]) -> (pieces: Vec<&'a [char]>)
    ensures
        pieces@.map_values(|p: &[char]| p@) == split(hay@, pat@),
{
    let mut pieces: Vec<&'a [char]> = Vec::new();
    let mut rest: &'a [char] = hay;
    if pat.len() == 0 {
        pieces.push(hay);
        assert(pieces@.map_values(|p: &[char]| p@) =~= split(hay@, pat@));
        return pieces;
    }
    loop
        invariant
            pat.len() > 0,
            pieces@.map_values(|p: &[char]| p@) + split(rest@, pat@) == split(hay@, pat@),
        decreases rest.len(),
    {
        let ghost before = pieces@.map_values(|p: &[char]| p@);
        match find_in(rest, pat) {
            Some(i) => {
                let piece = slice_subrange(rest, 0, i);
                let tail = slice_subrange(rest, i + pat.len(), rest.len());
                pieces.push(piece);
                proof {
                    assert(piece@ =~= rest@.take(i as int));
                    assert(tail@ =~= rest@.skip(i + pat.len()));
                    assert(pieces@.map_values(|p: &[char]| p@) =~= before + seq![piece@]);
                    assert(before + seq![piece@] + split(tail@, pat@) =~= before + (seq![piece@]
                        + split(tail@, pat@)));
                }
                rest = tail;
            },
            None => {
                pieces.push(rest);
                proof {
                    assert(pieces@.map_values(|p: &[char]| p@) =~= before + seq![rest@]);
                }
                return pieces;
            },
        }
    }
}

} // verus!
