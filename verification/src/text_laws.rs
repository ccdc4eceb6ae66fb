//! What holds of searching, cutting and joining text.

use vstd::prelude::*;
use crate::text::{contains_text, find, first_occurrence, join, occurs_at, split, unbordered};

verus! {

/// A first occurrence is the one that `find` reports.
pub proof fn lemma_find_some(s: Seq<char>, pat: Seq<char>, i: int)
    requires
        first_occurrence(s, pat, i),
    ensures
        find(s, pat) == Some(i),
{
    let j = choose|j: int| first_occurrence(s, pat, j);
    assert(first_occurrence(s, pat, j));
    if j < i {
        assert(!occurs_at(s, pat, j));
    } else if i < j {
        assert(!occurs_at(s, pat, i));
    }
}

/// Where `pat` occurs nowhere, `find` reports nothing.
pub proof fn lemma_find_none(s: Seq<char>, pat: Seq<char>)
    requires
        forall|j: int| 0 <= j && j + pat.len() <= s.len() ==> !occurs_at(s, pat, j),
    ensures
        find(s, pat) is None,
{
    assert forall|i: int| !first_occurrence(s, pat, i) by {
        if first_occurrence(s, pat, i) {
            assert(occurs_at(s, pat, i));
        }
    }
}

/// What `find` reports is a first occurrence.
pub proof fn lemma_find_first(s: Seq<char>, pat: Seq<char>)
    ensures
        find(s, pat) matches Some(i) ==> first_occurrence(s, pat, i),
{
}

/// Before any occurrence there is a first one.
proof fn lemma_first_exists(s: Seq<char>, pat: Seq<char>, i: int)
    requires
        occurs_at(s, pat, i),
    ensures
        exists|j: int| first_occurrence(s, pat, j),
    decreases i,
{
    if exists|j: int| 0 <= j < i && occurs_at(s, pat, j) {
        let j = choose|j: int| 0 <= j < i && occurs_at(s, pat, j);
        lemma_first_exists(s, pat, j);
    } else {
        assert(first_occurrence(s, pat, i));
    }
}

/// `find` reports an occurrence exactly when there is one.
pub proof fn lemma_find_contains(s: Seq<char>, pat: Seq<char>)
    ensures
        find(s, pat) is Some <==> contains_text(s, pat),
{
    if contains_text(s, pat) {
        let i = choose|i: int| occurs_at(s, pat, i);
        lemma_first_exists(s, pat, i);
    }
    if find(s, pat) is Some {
        lemma_find_first(s, pat);
        assert(occurs_at(s, pat, find(s, pat).unwrap()));
    }
}

/// What stands in a part of a text stands in the text.
pub proof fn lemma_subrange_contains(s: Seq<char>, from: int, to: int, pat: Seq<char>)
    requires
        0 <= from <= to <= s.len(),
        contains_text(s.subrange(from, to), pat),
    ensures
        contains_text(s, pat),
{
    let part = s.subrange(from, to);
    let i = choose|i: int| occurs_at(part, pat, i);
    assert(s.subrange(from + i, from + i + pat.len()) =~= part.subrange(i, i + pat.len()));
    assert(occurs_at(s, pat, from + i));
}

/// A pattern of one character stands in a text where that character does.
pub proof fn lemma_contains_char(s: Seq<char>, pat: Seq<char>)
    requires
        pat.len() == 1,
    ensures
        contains_text(s, pat) <==> s.contains(pat[0]),
{
    if contains_text(s, pat) {
        let i = choose|i: int| occurs_at(s, pat, i);
        assert(s.subrange(i, i + 1)[0] == s[i]);
    }
    if s.contains(pat[0]) {
        let i = choose|i: int| 0 <= i < s.len() && s[i] == pat[0];
        assert(s.subrange(i, i + 1) =~= pat);
        assert(occurs_at(s, pat, i));
    }
}

/// A pattern of one character, or of two different ones, is unbordered.
pub proof fn lemma_short_unbordered(pat: Seq<char>)
    requires
        pat.len() <= 2,
        pat.len() == 2 ==> pat[0] != pat[1],
    ensures
        unbordered(pat),
{
    assert forall|m: int| 0 < m < pat.len() implies pat.skip(pat.len() - m) != #[trigger] pat.take(
        m,
    ) by {
        assert(pat.skip(1)[0] == pat[1]);
        assert(pat.take(1)[0] == pat[0]);
    }
}

/// Two occurrences of an unbordered pattern do not overlap.
pub proof fn lemma_no_overlap(s: Seq<char>, pat: Seq<char>, i: int, j: int)
    requires
        unbordered(pat),
        occurs_at(s, pat, i),
        occurs_at(s, pat, j),
        i < j,
    ensures
        i + pat.len() <= j,
{
    let n = pat.len() as int;
    if i + n > j {
        let m = i + n - j;
        let first = s.subrange(i, i + n);
        let second = s.subrange(j, j + n);
        assert forall|k: int| 0 <= k < m implies pat.skip(n - m)[k] == pat.take(m)[k] by {
            assert(first[n - m + k] == s[j + k]);
            assert(second[k] == s[j + k]);
        }
        assert(pat.skip(n - m) =~= pat.take(m));
    }
}

/// In `a`, `pat` and anything more, written one after the other, an
/// unbordered `pat` that `a` does not hold is first found right after `a`.
pub proof fn lemma_find_after(a: Seq<char>, pat: Seq<char>, rest: Seq<char>)
    requires
        unbordered(pat),
        !contains_text(a, pat),
    ensures
        find(a + pat + rest, pat) == Some(a.len() as int),
        (a + pat + rest).take(a.len() as int) == a,
        (a + pat + rest).skip((a.len() + pat.len()) as int) == rest,
{
    let s = a + pat + rest;
    let n = pat.len() as int;
    assert(s.take(a.len() as int) =~= a);
    assert(s.skip((a.len() + pat.len()) as int) =~= rest);
    assert(s.subrange(a.len() as int, a.len() + n) =~= pat);
    assert forall|j: int| 0 <= j < a.len() implies !occurs_at(s, pat, j) by {
        if occurs_at(s, pat, j) {
            let here = s.subrange(j, j + n);
            if j + n <= a.len() {
                assert(a.subrange(j, j + n) =~= here);
                assert(occurs_at(a, pat, j));
            } else {
                let m = j + n - a.len();
                assert forall|k: int| 0 <= k < m implies pat.skip(n - m)[k] == pat.take(m)[k] by {
                    assert(here[n - m + k] == s[a.len() + k]);
                }
                assert(pat.skip(n - m) =~= pat.take(m));
            }
        }
    }
    lemma_find_some(s, pat, a.len() as int);
}

/// In `a`, `pat` and anything more, written one after the other, `pat` is
/// found, and not after the end of `a`; where a `pat` that is not empty is
/// found at the end of `a`, `a` does not hold it.
pub proof fn lemma_find_within(a: Seq<char>, pat: Seq<char>, rest: Seq<char>)
    ensures
        find(a + pat + rest, pat) matches Some(i) && 0 <= i <= a.len(),
        pat.len() > 0 && find(a + pat + rest, pat) == Some(a.len() as int) ==> !contains_text(
            a,
            pat,
        ),
{
    let s = a + pat + rest;
    let end = a.len() as int;
    assert(s.subrange(end, end + pat.len()) =~= pat);
    assert(occurs_at(s, pat, end));
    lemma_find_contains(s, pat);
    lemma_find_first(s, pat);
    if pat.len() > 0 && find(s, pat) == Some(end) && contains_text(a, pat) {
        let j = choose|j: int| occurs_at(a, pat, j);
        assert(s.subrange(j, j + pat.len()) =~= a.subrange(j, j + pat.len()));
        assert(occurs_at(s, pat, j));
        assert(j < end);
    }
}

/// Two texts written one after the other hold `pat` only where one of them
/// holds it, or where `pat` begins at the end of the first and ends at the
/// beginning of the second.
pub proof fn lemma_concat_contains(a: Seq<char>, b: Seq<char>, pat: Seq<char>)
    requires
        contains_text(a + b, pat),
    ensures
        contains_text(a, pat) || contains_text(b, pat) || exists|m: int|
            0 < m < pat.len() && #[trigger] pat.take(m).is_suffix_of(a) && pat.skip(m).is_prefix_of(
                b,
            ),
{
    let s = a + b;
    let n = pat.len() as int;
    let j = choose|j: int| occurs_at(s, pat, j);
    let here = s.subrange(j, j + n);
    if j + n <= a.len() {
        assert(a.subrange(j, j + n) =~= here);
        assert(occurs_at(a, pat, j));
    } else if j >= a.len() {
        assert(b.subrange(j - a.len(), j - a.len() + n) =~= here);
        assert(occurs_at(b, pat, j - a.len()));
    } else {
        let m = a.len() - j;
        assert forall|k: int| 0 <= k < m implies pat.take(m)[k] == a.subrange(
            a.len() - m,
            a.len() as int,
        )[k] by {
            assert(here[k] == s[j + k]);
        }
        assert(pat.take(m) =~= a.subrange(a.len() - m, a.len() as int));
        assert forall|k: int| 0 <= k < n - m implies pat.skip(m)[k] == b.subrange(0, n - m)[k] by {
            assert(here[m + k] == s[j + m + k]);
        }
        assert(pat.skip(m) =~= b.subrange(0, n - m));
        assert(pat.take(m).is_suffix_of(a) && pat.skip(m).is_prefix_of(b));
    }
}

/// Two texts that do not hold a pattern of one or two characters do not hold
/// it when written one after the other, unless the first ends with the
/// pattern's first character and the second begins with its second.
pub proof fn lemma_concat_lacks(a: Seq<char>, b: Seq<char>, pat: Seq<char>)
    requires
        0 < pat.len() <= 2,
        !contains_text(a, pat),
        !contains_text(b, pat),
        pat.len() == 2 ==> a.len() == 0 || b.len() == 0 || a.last() != pat[0] || b[0] != pat[1],
    ensures
        !contains_text(a + b, pat),
{
    if contains_text(a + b, pat) {
        lemma_concat_contains(a, b, pat);
        let m = choose|m: int|
            0 < m < pat.len() && #[trigger] pat.take(m).is_suffix_of(a) && pat.skip(m).is_prefix_of(
                b,
            );
        assert(m == 1);
        assert(a.subrange(a.len() - 1, a.len() as int)[0] == a.last());
        assert(pat.take(1)[0] == pat[0]);
        assert(b.subrange(0, 1)[0] == b[0]);
        assert(pat.skip(1)[0] == pat[1]);
    }
}

/// A text that does not hold `pat` is one piece.
pub proof fn lemma_split_whole(s: Seq<char>, pat: Seq<char>)
    requires
        !contains_text(s, pat),
    ensures
        split(s, pat) == seq![s],
{
    lemma_find_contains(s, pat);
}

/// Cutting a joined text at the separator gives the parts back, where the
/// separator is unbordered and no part holds it.
pub proof fn lemma_split_join(parts: Seq<Seq<char>>, sep: Seq<char>)
    requires
        parts.len() > 0,
        sep.len() > 0,
        unbordered(sep),
        forall|i: int| 0 <= i < parts.len() ==> !contains_text(#[trigger] parts[i], sep),
    ensures
        split(join(parts, sep), sep) == parts,
    decreases parts.len(),
{
    if parts.len() == 1 {
        lemma_split_whole(parts[0], sep);
        assert(seq![parts[0]] =~= parts);
    } else {
        let tail = parts.skip(1);
        assert forall|i: int| 0 <= i < tail.len() implies !contains_text(#[trigger] tail[i], sep) by {
            assert(tail[i] == parts[i + 1]);
        }
        lemma_split_join(tail, sep);
        lemma_find_after(parts[0], sep, join(tail, sep));
        assert(seq![parts[0]] + tail =~= parts);
    }
}

/// Cutting a text gives at least one piece. No piece holds the separator,
/// and none holds a pattern that the text does not hold.
pub proof fn lemma_split_pieces(s: Seq<char>, sep: Seq<char>, pat: Seq<char>)
    requires
        sep.len() > 0,
    ensures
        split(s, sep).len() > 0,
        forall|i: int|
            0 <= i < split(s, sep).len() ==> !contains_text(#[trigger] split(s, sep)[i], sep),
        !contains_text(s, pat) ==> forall|i: int|
            0 <= i < split(s, sep).len() ==> !contains_text(#[trigger] split(s, sep)[i], pat),
    decreases s.len(),
{
    lemma_find_first(s, sep);
    lemma_find_contains(s, sep);
    if find(s, sep) is Some {
        let at = find(s, sep).unwrap();
        let head = s.take(at);
        let tail = s.skip(at + sep.len());
        lemma_split_pieces(tail, sep, pat);
        assert(!contains_text(head, sep)) by {
            if contains_text(head, sep) {
                let j = choose|j: int| occurs_at(head, sep, j);
                assert(s.subrange(j, j + sep.len()) =~= head.subrange(j, j + sep.len()));
                assert(occurs_at(s, sep, j));
            }
        }
        if !contains_text(s, pat) {
            if contains_text(head, pat) {
                lemma_subrange_contains(s, 0, at, pat);
            }
            if contains_text(tail, pat) {
                lemma_subrange_contains(s, at + sep.len(), s.len() as int, pat);
            }
        }
        let pieces = split(s, sep);
        assert forall|i: int| 0 <= i < pieces.len() implies !contains_text(
            #[trigger] pieces[i],
            sep,
        ) && (!contains_text(s, pat) ==> !contains_text(pieces[i], pat)) by {
            if i > 0 {
                assert(pieces[i] == split(tail, sep)[i - 1]);
            }
        }
    }
}

/// Joining one part more writes `sep` and that part after the others.
pub proof fn lemma_join_push(parts: Seq<Seq<char>>, sep: Seq<char>, last: Seq<char>)
    requires
        parts.len() > 0,
    ensures
        join(parts.push(last), sep) == join(parts, sep) + sep + last,
    decreases parts.len(),
{
    let all = parts.push(last);
    assert(all.skip(1) =~= parts.skip(1).push(last));
    if parts.len() == 1 {
        assert(all.skip(1).skip(1).len() == 0);
        assert(join(all.skip(1), sep) == last);
    } else {
        lemma_join_push(parts.skip(1), sep, last);
        assert(parts[0] + sep + (join(parts.skip(1), sep) + sep + last) =~= join(parts, sep) + sep
            + last);
    }
}

/// Parts that do not hold a character, joined by a separator that does not
/// hold it, make a text that does not hold it.
pub proof fn lemma_join_lacks_char(parts: Seq<Seq<char>>, sep: Seq<char>, c: char)
    requires
        !sep.contains(c),
        forall|i: int| 0 <= i < parts.len() ==> !(#[trigger] parts[i]).contains(c),
    ensures
        !join(parts, sep).contains(c),
    decreases parts.len(),
{
    if parts.len() > 1 {
        let tail = parts.skip(1);
        assert forall|i: int| 0 <= i < tail.len() implies !(#[trigger] tail[i]).contains(c) by {
            assert(tail[i] == parts[i + 1]);
        }
        lemma_join_lacks_char(tail, sep, c);
        assert(!parts[0].contains(c));
    } else if parts.len() == 1 {
        assert(!parts[0].contains(c));
    }
}

} // verus!
