//! What reading and writing have to do with each other: a message that is
//! written and read again is the same message.

use vstd::prelude::*;
use crate::http::Method;
use crate::string_map::{has_key, keys_unique, lemma_put};
use crate::text::{contains_text, find, occurs_at, split, unbordered};
use crate::text_laws::{
    lemma_concat_lacks, lemma_contains_char, lemma_find_after, lemma_find_contains,
    lemma_find_first, lemma_find_within, lemma_join_lacks_char, lemma_no_overlap,
    lemma_short_unbordered, lemma_split_join, lemma_split_pieces, lemma_split_whole,
    lemma_subrange_contains,
};
use crate::wire::{
    collect, entry_pairs, entry_text, entry_texts, format_entries, parse_entries, parse_entry,
    parse_headers_and_body, parse_request_line, RequestView, UriView,
};

verus! {

// Entries

/// Neither the key nor the value of any entry holds `pat`.
pub open spec fn entries_lack(entries: Seq<(Seq<char>, Seq<char>)>, pat: Seq<char>) -> bool {
    forall|i: int|
        0 <= i < entries.len() ==> !contains_text((#[trigger] entries[i]).0, pat) && !contains_text(
            entries[i].1,
            pat,
        )
}

/// Pairs with distinct keys, put into an empty map one by one, stay as they
/// are and in their order.
pub proof fn lemma_collect_unique(pairs: Seq<(Seq<char>, Seq<char>)>)
    requires
        keys_unique(pairs),
    ensures
        collect(pairs) == pairs,
    decreases pairs.len(),
{
    if pairs.len() > 0 {
        let front = pairs.drop_last();
        lemma_collect_unique(front);
        if has_key(front, pairs.last().0) {
            let i = choose|i: int| 0 <= i < front.len() && #[trigger] front[i].0 == pairs.last().0;
            assert(pairs[i].0 == pairs[pairs.len() - 1].0);
        }
        assert(front.push(pairs.last()) =~= pairs);
    } else {
        assert(pairs =~= Seq::empty());
    }
}

/// Whatever pairs are put into an empty map one by one, the entries that
/// result have distinct keys, each of them is one of the pairs, and there is
/// one where there is a pair.
pub proof fn lemma_collect(pairs: Seq<(Seq<char>, Seq<char>)>)
    ensures
        keys_unique(collect(pairs)),
        pairs.len() > 0 ==> collect(pairs).len() > 0,
        forall|i: int|
            0 <= i < collect(pairs).len() ==> pairs.contains(#[trigger] collect(pairs)[i]),
    decreases pairs.len(),
{
    if pairs.len() > 0 {
        let front = pairs.drop_last();
        let last = pairs.last();
        let before = collect(front);
        let after = collect(pairs);
        lemma_collect(front);
        lemma_put(before, last.0, last.1);
        assert forall|i: int| 0 <= i < after.len() implies pairs.contains(#[trigger] after[i]) by {
            if i < before.len() && after[i] == before[i] {
                assert(front.contains(before[i]));
                let j = choose|j: int| 0 <= j < front.len() && front[j] == before[i];
                assert(pairs[j] == before[i]);
            } else {
                assert(after[i] == last);
                assert(pairs[pairs.len() - 1] == last);
            }
        }
    }
}

/// An entry is read back from its text where neither its key nor its value
/// holds the separator between them.
pub proof fn lemma_parse_entry_text(entry: (Seq<char>, Seq<char>), kv_sep: Seq<char>)
    requires
        kv_sep.len() > 0,
        unbordered(kv_sep),
        !contains_text(entry.0, kv_sep),
        !contains_text(entry.1, kv_sep),
    ensures
        parse_entry(entry_text(entry, kv_sep), kv_sep) == Some(entry),
{
    lemma_find_after(entry.0, kv_sep, entry.1);
    lemma_split_whole(entry.1, kv_sep);
    assert(split(entry_text(entry, kv_sep), kv_sep) =~= seq![entry.0, entry.1]);
}

/// Entries with distinct keys are read back from their text, in their order,
/// where no key or value holds the separator within an entry and no entry's
/// text holds the separator between entries.
pub proof fn lemma_entries_round_trip(
    entries: Seq<(Seq<char>, Seq<char>)>,
    kv_sep: Seq<char>,
    sep: Seq<char>,
)
    requires
        entries.len() > 0,
        keys_unique(entries),
        kv_sep.len() > 0,
        sep.len() > 0,
        unbordered(kv_sep),
        unbordered(sep),
        forall|i: int|
            0 <= i < entries.len() ==> {
                &&& !contains_text((#[trigger] entries[i]).0, kv_sep)
                &&& !contains_text(entries[i].1, kv_sep)
                &&& !contains_text(entry_text(entries[i], kv_sep), sep)
            },
    ensures
        parse_entries(split(format_entries(entries, kv_sep, sep), sep), kv_sep) == Some(entries),
{
    let texts = entry_texts(entries, kv_sep);
    assert forall|i: int| 0 <= i < texts.len() implies !contains_text(#[trigger] texts[i], sep) by {
        assert(texts[i] == entry_text(entries[i], kv_sep));
    }
    lemma_split_join(texts, sep);
    assert forall|i: int| 0 <= i < texts.len() implies parse_entry(#[trigger] texts[i], kv_sep)
        == Some(entries[i]) by {
        lemma_parse_entry_text(entries[i], kv_sep);
    }
    assert(entry_pairs(texts, kv_sep) =~= entries);
    lemma_collect_unique(entries);
}

/// Entries that are read have distinct keys; there is one where there is an
/// item to read; none of their keys and values holds the separator of key
/// and value, and none holds a pattern that no item holds.
pub proof fn lemma_parsed_entries(items: Seq<Seq<char>>, kv_sep: Seq<char>, pat: Seq<char>)
    requires
        kv_sep.len() > 0,
        parse_entries(items, kv_sep) is Some,
    ensures
        keys_unique(parse_entries(items, kv_sep).unwrap()),
        items.len() > 0 ==> parse_entries(items, kv_sep).unwrap().len() > 0,
        entries_lack(parse_entries(items, kv_sep).unwrap(), kv_sep),
        (forall|j: int| 0 <= j < items.len() ==> !contains_text(#[trigger] items[j], pat))
            ==> entries_lack(parse_entries(items, kv_sep).unwrap(), pat),
{
    let pairs = entry_pairs(items, kv_sep);
    let entries = collect(pairs);
    lemma_collect(pairs);
    assert forall|i: int| 0 <= i < entries.len() implies {
        &&& !contains_text((#[trigger] entries[i]).0, kv_sep)
        &&& !contains_text(entries[i].1, kv_sep)
        &&& (forall|j: int| 0 <= j < items.len() ==> !contains_text(#[trigger] items[j], pat))
            ==> !contains_text(entries[i].0, pat) && !contains_text(entries[i].1, pat)
    } by {
        assert(pairs.contains(entries[i]));
        let j = choose|j: int| 0 <= j < pairs.len() && pairs[j] == entries[i];
        assert(parse_entry(items[j], kv_sep) is Some);
        let parts = split(items[j], kv_sep);
        lemma_split_pieces(items[j], kv_sep, pat);
        assert(entries[i].0 == parts[0] && entries[i].1 == parts[1]);
    }
}

// Request targets

/// Writing a request target and reading the text gives the target back:
/// the same path and the same query parameters, in the same order. This
/// holds of every target whose path holds no `?` and whose keys and values
/// hold neither `&` nor `=`.
pub proof fn lemma_uri_round_trip(uri: UriView)
    requires
        uri.unambiguous(),
    ensures
        UriView::parse(uri.format()) == Some(uri),
        UriView::parse(uri.format()) matches Some(read) && read.same(uri),
{
    reveal_strlit("?");
    reveal_strlit("&");
    reveal_strlit("=");
    let question = "?"@;
    let ampersand = "&"@;
    let equals = "="@;
    lemma_short_unbordered(question);
    lemma_short_unbordered(ampersand);
    lemma_short_unbordered(equals);
    lemma_contains_char(uri.path, question);
    if uri.query_params.len() == 0 {
        lemma_find_contains(uri.path, question);
        assert(uri.query_params =~= Seq::empty());
    } else {
        let entries = uri.query_params;
        let query = format_entries(entries, equals, ampersand);
        lemma_find_after(uri.path, question, query);
        assert forall|i: int| 0 <= i < entries.len() implies {
            &&& !contains_text((#[trigger] entries[i]).0, equals)
            &&& !contains_text(entries[i].1, equals)
            &&& !contains_text(entry_text(entries[i], equals), ampersand)
        } by {
            let (key, value) = entries[i];
            lemma_contains_char(key, equals);
            lemma_contains_char(value, equals);
            lemma_contains_char(key, ampersand);
            lemma_contains_char(value, ampersand);
            lemma_contains_char(equals, ampersand);
            lemma_concat_lacks(key, equals, ampersand);
            lemma_concat_lacks(key + equals, value, ampersand);
        }
        lemma_entries_round_trip(entries, equals, ampersand);
    }
}

/// Every request target that is read is unambiguous.
pub proof fn lemma_parsed_uri_unambiguous(s: Seq<char>)
    requires
        UriView::parse(s) is Some,
    ensures
        UriView::parse(s).unwrap().unambiguous(),
{
    reveal_strlit("?");
    reveal_strlit("&");
    reveal_strlit("=");
    let uri = UriView::parse(s).unwrap();
    lemma_find_first(s, "?"@);
    lemma_find_contains(s, "?"@);
    lemma_contains_char(uri.path, "?"@);
    if find(s, "?"@) is Some {
        let at = find(s, "?"@).unwrap();
        assert(!contains_text(uri.path, "?"@)) by {
            if contains_text(uri.path, "?"@) {
                let j = choose|j: int| occurs_at(uri.path, "?"@, j);
                assert(s.subrange(j, j + 1) =~= uri.path.subrange(j, j + 1));
                assert(occurs_at(s, "?"@, j));
            }
        }
        let items = split(s.skip(at + 1), "&"@);
        lemma_split_pieces(s.skip(at + 1), "&"@, "&"@);
        lemma_parsed_entries(items, "="@, "&"@);
        let entries = uri.query_params;
        assert forall|i: int| 0 <= i < entries.len() implies {
            &&& !(#[trigger] entries[i]).0.contains('&')
            &&& !entries[i].0.contains('=')
            &&& !entries[i].1.contains('&')
            &&& !entries[i].1.contains('=')
        } by {
            lemma_contains_char(entries[i].0, "&"@);
            lemma_contains_char(entries[i].0, "="@);
            lemma_contains_char(entries[i].1, "&"@);
            lemma_contains_char(entries[i].1, "="@);
        }
    }
}

/// Writing a request target and reading the text gives the target back
/// exactly where the target is unambiguous.
pub proof fn lemma_uri_round_trip_exact(uri: UriView)
    ensures
        UriView::parse(uri.format()) == Some(uri) <==> uri.unambiguous(),
{
    if uri.unambiguous() {
        lemma_uri_round_trip(uri);
    }
    if UriView::parse(uri.format()) == Some(uri) {
        lemma_parsed_uri_unambiguous(uri.format());
    }
}

/// A request target that is read holds, in its path and in its keys and
/// values, no pattern that the text does not hold.
proof fn lemma_parsed_uri_lacks(s: Seq<char>, pat: Seq<char>)
    requires
        UriView::parse(s) is Some,
        !contains_text(s, pat),
    ensures
        !contains_text(UriView::parse(s).unwrap().path, pat),
        entries_lack(UriView::parse(s).unwrap().query_params, pat),
{
    reveal_strlit("?");
    reveal_strlit("&");
    reveal_strlit("=");
    let uri = UriView::parse(s).unwrap();
    lemma_find_first(s, "?"@);
    if find(s, "?"@) is Some {
        let at = find(s, "?"@).unwrap();
        let query = s.skip(at + 1);
        if contains_text(uri.path, pat) {
            lemma_subrange_contains(s, 0, at, pat);
        }
        if contains_text(query, pat) {
            lemma_subrange_contains(s, at + 1, s.len() as int, pat);
        }
        lemma_split_pieces(query, "&"@, pat);
        lemma_parsed_entries(split(query, "&"@), "="@, pat);
    }
}

/// The text of a request target holds no character that is none of `?`, `=`
/// and `&` and that neither its path nor any of its keys and values holds.
proof fn lemma_uri_text_lacks_char(uri: UriView, c: char)
    requires
        c != '?' && c != '=' && c != '&',
        !uri.path.contains(c),
        forall|i: int|
            0 <= i < uri.query_params.len() ==> !(#[trigger] uri.query_params[i]).0.contains(c)
                && !uri.query_params[i].1.contains(c),
    ensures
        !uri.format().contains(c),
{
    reveal_strlit("?");
    reveal_strlit("&");
    reveal_strlit("=");
    let texts = entry_texts(uri.query_params, "="@);
    assert forall|i: int| 0 <= i < texts.len() implies !(#[trigger] texts[i]).contains(c) by {
        assert(!uri.query_params[i].0.contains(c));
        assert(!uri.query_params[i].1.contains(c));
    }
    lemma_join_lacks_char(texts, "&"@, c);
}

/// The text of a target that is read from a text without a space holds no
/// space.
proof fn lemma_parsed_uri_text_lacks_space(read: Seq<char>)
    requires
        UriView::parse(read) is Some,
        !contains_text(read, " "@),
    ensures
        !UriView::parse(read).unwrap().format().contains(' '),
{
    lemma_separators();
    let uri = UriView::parse(read).unwrap();
    lemma_parsed_uri_lacks(read, " "@);
    lemma_contains_char(uri.path, " "@);
    assert forall|i: int| 0 <= i < uri.query_params.len() implies !(
    #[trigger] uri.query_params[i]).0.contains(' ') && !uri.query_params[i].1.contains(' ') by {
        lemma_contains_char(uri.query_params[i].0, " "@);
        lemma_contains_char(uri.query_params[i].1, " "@);
    }
    lemma_uri_text_lacks_char(uri, ' ');
}

// The separators in the text of a request

/// What the separators of the wire format are made of.
proof fn lemma_separators()
    ensures
        " "@ == seq![' '],
        "\n"@ == seq!['\n'],
        ": "@ == seq![':', ' '],
        "\r\n"@ == seq!['\r', '\n'],
        unbordered(" "@),
        unbordered("\n"@),
        unbordered(": "@),
        unbordered("\r\n"@),
{
    reveal_strlit(" ");
    reveal_strlit("\n");
    reveal_strlit(": ");
    reveal_strlit("\r\n");
    assert(" "@ =~= seq![' ']);
    assert("\n"@ =~= seq!['\n']);
    assert(": "@ =~= seq![':', ' ']);
    assert("\r\n"@ =~= seq!['\r', '\n']);
    lemma_short_unbordered(" "@);
    lemma_short_unbordered("\n"@);
    lemma_short_unbordered(": "@);
    lemma_short_unbordered("\r\n"@);
}

/// A text without `\r` holds no line break.
proof fn lemma_no_return_no_break(s: Seq<char>)
    requires
        !s.contains('\r'),
    ensures
        !contains_text(s, "\r\n"@),
{
    lemma_separators();
    if contains_text(s, "\r\n"@) {
        let i = choose|i: int| occurs_at(s, "\r\n"@, i);
        assert(s.subrange(i, i + 2)[0] == s[i]);
    }
}

/// The version that is written holds no `\r`, and a text that begins with
/// it begins as every version must.
proof fn lemma_version(rest: Seq<char>)
    ensures
        "HTTP/"@.is_prefix_of("HTTP/1.1"@ + rest),
        !"HTTP/1.1"@.contains('\r'),
{
    reveal_strlit("HTTP/");
    reveal_strlit("HTTP/1.1");
    assert(("HTTP/1.1"@ + rest).subrange(0, 5) =~= "HTTP/"@);
}

/// The token of a method holds neither a space nor a line break.
proof fn lemma_token_clean(method: Method)
    ensures
        !contains_text(method.token(), " "@),
        !contains_text(method.token(), "\r\n"@),
        method.token().len() > 0,
        method.token().last() != '\r',
{
    let token = method.token();
    Method::lemma_token_letters(method);
    lemma_separators();
    lemma_contains_char(token, " "@);
    assert(!token.contains('\r'));
    lemma_no_return_no_break(token);
}

/// In two fields without a space, each followed by a space, and anything
/// more, the first space ends the first field and the next one the second.
proof fn lemma_two_fields(first: Seq<char>, second: Seq<char>, rest: Seq<char>)
    requires
        !contains_text(first, " "@),
        !contains_text(second, " "@),
    ensures
        ({
            let s = first + " "@ + second + " "@ + rest;
            let on = s.skip(first.len() as int + 1);
            &&& find(s, " "@) == Some(first.len() as int)
            &&& s.take(first.len() as int) == first
            &&& find(on, " "@) == Some(second.len() as int)
            &&& on.take(second.len() as int) == second
            &&& on.skip(second.len() as int + 1) == rest
        }),
{
    lemma_separators();
    let s = first + " "@ + second + " "@ + rest;
    assert(s =~= first + " "@ + (second + " "@ + rest));
    lemma_find_after(first, " "@, second + " "@ + rest);
    lemma_find_after(second, " "@, rest);
}

/// In a field without a space, a space, a second field, a space and
/// anything more, the first space ends the first field, and the next space
/// ends a beginning of the second field that holds no space.
proof fn lemma_second_field(first: Seq<char>, second: Seq<char>, rest: Seq<char>)
    requires
        !contains_text(first, " "@),
    ensures
        ({
            let s = first + " "@ + second + " "@ + rest;
            let on = s.skip(first.len() as int + 1);
            &&& find(s, " "@) == Some(first.len() as int)
            &&& s.take(first.len() as int) == first
            &&& find(on, " "@) matches Some(cut)
            &&& 0 <= cut <= second.len()
            &&& on.take(cut) == second.take(cut)
            &&& !contains_text(second.take(cut), " "@)
        }),
{
    lemma_separators();
    let s = first + " "@ + second + " "@ + rest;
    let on = second + " "@ + rest;
    assert(s =~= first + " "@ + on);
    lemma_find_after(first, " "@, on);
    lemma_find_within(second, " "@, rest);
    lemma_find_first(on, " "@);
    let cut = find(on, " "@).unwrap();
    let read = on.take(cut);
    assert(read =~= second.take(cut));
    if contains_text(read, " "@) {
        let j = choose|j: int| occurs_at(read, " "@, j);
        assert(on.subrange(j, j + 1) =~= read.subrange(j, j + 1));
        assert(occurs_at(on, " "@, j));
    }
}

/// In a first line and a header block without a line break, each followed
/// by a line break, and a body, the first line break ends the first line
/// and the next one the header block.
proof fn lemma_two_blocks(first_line: Seq<char>, block: Seq<char>, body: Seq<char>)
    requires
        !contains_text(first_line, "\r\n"@),
        !contains_text(block, "\r\n"@),
    ensures
        ({
            let s = first_line + "\r\n"@ + block + "\r\n"@ + body;
            let after = s.skip(first_line.len() as int + 2);
            &&& find(s, "\r\n"@) == Some(first_line.len() as int)
            &&& find(after, "\r\n"@) == Some(block.len() as int)
            &&& after.take(block.len() as int) == block
            &&& after.skip(block.len() as int + 2) == body
        }),
{
    lemma_separators();
    let s = first_line + "\r\n"@ + block + "\r\n"@ + body;
    assert(s =~= first_line + "\r\n"@ + (block + "\r\n"@ + body));
    lemma_find_after(first_line, "\r\n"@, block + "\r\n"@ + body);
    lemma_find_after(block, "\r\n"@, body);
}

/// Where a text made of a first part, a separator, a second part, a
/// separator and a third part is cut at the first separator in it and at
/// the next one, and what follows is as long as the third part, the cuts
/// are those two separators, and neither the first nor the second part
/// holds a separator.
proof fn lemma_cuts_found(a: Seq<char>, b: Seq<char>, c: Seq<char>, sep: Seq<char>)
    requires
        sep.len() > 0,
        unbordered(sep),
        ({
            let s = a + sep + b + sep + c;
            &&& find(s, sep) matches Some(first)
            &&& find(s.skip(first + sep.len()), sep) matches Some(second)
            &&& s.skip(first + sep.len()).skip(second + sep.len()).len() == c.len()
        }),
    ensures
        find(a + sep + b + sep + c, sep) == Some(a.len() as int),
        (a + sep + b + sep + c).skip((a.len() + sep.len()) as int) == b + sep + c,
        find(b + sep + c, sep) == Some(b.len() as int),
        !contains_text(a, sep),
        !contains_text(b, sep),
{
    let n = sep.len() as int;
    let s = a + sep + b + sep + c;
    let rest = b + sep + c;
    assert(s =~= a + sep + rest);
    lemma_find_within(a, sep, rest);
    lemma_find_first(s, sep);
    let first = find(s, sep).unwrap();
    let after = s.skip(first + n);
    lemma_find_first(after, sep);
    let second = find(after, sep).unwrap();
    if first < a.len() {
        lemma_no_overlap(s, sep, first, a.len() as int);
        let gap = a.subrange(first + n, a.len() as int);
        assert(after =~= gap + sep + rest);
        lemma_find_within(gap, sep, rest);
        assert(second <= gap.len());
        assert(false);
    }
    assert(after =~= rest);
    lemma_find_within(b, sep, c);
}

// A request that is written and read

/// A first line holds no line break where its target holds none.
proof fn lemma_first_line_clean(method: Method, target: Seq<char>)
    requires
        !contains_text(target, "\r\n"@),
    ensures
        !contains_text(method.token() + " "@ + target + " "@ + "HTTP/1.1"@, "\r\n"@),
{
    let token = method.token();
    let line_break = "\r\n"@;
    lemma_separators();
    lemma_version(Seq::empty());
    lemma_token_clean(method);
    assert(!" "@.contains('\r'));
    lemma_no_return_no_break(" "@);
    lemma_no_return_no_break("HTTP/1.1"@);
    lemma_concat_lacks(token, " "@, line_break);
    lemma_concat_lacks(token + " "@, target, line_break);
    lemma_concat_lacks(token + " "@ + target, " "@, line_break);
    lemma_concat_lacks(token + " "@ + target + " "@, "HTTP/1.1"@, line_break);
}

/// What `unambiguous` asks of the header entries, said of patterns.
proof fn lemma_unambiguous_headers(request: RequestView)
    requires
        request.unambiguous(),
    ensures
        entries_lack(request.headers, "\n"@),
        entries_lack(request.headers, ": "@),
{
    lemma_separators();
    let headers = request.headers;
    assert forall|i: int| 0 <= i < headers.len() implies !contains_text(
        (#[trigger] headers[i]).0,
        "\n"@,
    ) && !contains_text(headers[i].1, "\n"@) by {
        lemma_contains_char(headers[i].0, "\n"@);
        lemma_contains_char(headers[i].1, "\n"@);
    }
}

/// Header entries are read back from their block where they have distinct
/// keys and none of their keys and values holds a line feed or `: `.
proof fn lemma_headers_round_trip(headers: Seq<(Seq<char>, Seq<char>)>)
    requires
        headers.len() > 0,
        keys_unique(headers),
        entries_lack(headers, "\n"@),
        entries_lack(headers, ": "@),
    ensures
        parse_entries(split(format_entries(headers, ": "@, "\n"@), "\n"@), ": "@) == Some(headers),
{
    let line_feed = "\n"@;
    let colon_space = ": "@;
    lemma_separators();
    assert forall|i: int| 0 <= i < headers.len() implies {
        &&& !contains_text((#[trigger] headers[i]).0, colon_space)
        &&& !contains_text(headers[i].1, colon_space)
        &&& !contains_text(entry_text(headers[i], colon_space), line_feed)
    } by {
        let (key, value) = headers[i];
        assert(!contains_text(colon_space, line_feed)) by {
            lemma_contains_char(colon_space, line_feed);
        }
        lemma_concat_lacks(key, colon_space, line_feed);
        lemma_concat_lacks(key + colon_space, value, line_feed);
    }
    lemma_entries_round_trip(headers, colon_space, line_feed);
}

/// The start of a written request is read as its method and its target.
proof fn lemma_request_line_round_trip(request: RequestView)
    requires
        request.unambiguous(),
    ensures
        parse_request_line(request.format()) == Some((request.method, request.uri)),
{
    let token = request.method.token();
    let target = request.uri.format();
    let tail = "\r\n"@ + format_entries(request.headers, ": "@, "\n"@) + "\r\n"@ + request.body;
    let rest = "HTTP/1.1"@ + tail;
    let s = request.format();
    assert(s =~= token + " "@ + target + " "@ + rest);
    lemma_token_clean(request.method);
    assert(!contains_text(target, " "@)) by {
        lemma_separators();
        lemma_contains_char(target, " "@);
    }
    lemma_two_fields(token, target, rest);
    Method::lemma_token_round_trip(request.method);
    lemma_uri_round_trip(request.uri);
    lemma_version(tail);
}

/// What follows the first line of a written request is read as its header
/// entries and its body.
proof fn lemma_headers_and_body_round_trip(request: RequestView)
    requires
        request.unambiguous(),
    ensures
        parse_headers_and_body(request.format()) == Some((request.headers, request.body)),
{
    let block = format_entries(request.headers, ": "@, "\n"@);
    lemma_first_line_clean(request.method, request.uri.format());
    lemma_two_blocks(request.request_line(), block, request.body);
    lemma_unambiguous_headers(request);
    lemma_headers_round_trip(request.headers);
}

/// Writing a request and reading the text gives the request back: the same
/// method, target, header entries and body. This holds of every request
/// whose text can be read in one way only. A request without a header entry
/// is not among them: its text has an empty header block, which is read as
/// one line without `: `.
pub proof fn lemma_request_round_trip(request: RequestView)
    requires
        request.unambiguous(),
    ensures
        RequestView::parse(request.format()) == Some(request),
        RequestView::parse(request.format()) matches Some(read) && read.same(request),
{
    lemma_request_line_round_trip(request);
    lemma_headers_and_body_round_trip(request);
}

// A request that is read back

/// The target of a request whose first line is read back from its own text
/// is unambiguous and, as text, not empty and without a space.
proof fn lemma_read_back_target(request: RequestView)
    requires
        parse_request_line(request.format()) == Some((request.method, request.uri)),
    ensures
        request.uri.unambiguous(),
        request.uri.format().len() > 0,
        !request.uri.format().contains(' '),
{
    let s = request.format();
    let token = request.method.token();
    let target = request.uri.format();
    let rest = "HTTP/1.1"@ + "\r\n"@ + format_entries(request.headers, ": "@, "\n"@) + "\r\n"@
        + request.body;
    assert(s =~= token + " "@ + target + " "@ + rest);
    lemma_token_clean(request.method);
    lemma_second_field(token, target, rest);
    let on = s.skip(token.len() as int + 1);
    let cut = find(on, " "@).unwrap();
    let read = target.take(cut);
    assert(UriView::parse(read) == Some(request.uri));
    lemma_parsed_uri_unambiguous(read);
    lemma_parsed_uri_text_lacks_space(read);
}

/// Header entries that are read from a block have distinct keys; there is
/// one at least; none of their keys and values holds a line feed or `: `.
proof fn lemma_parsed_headers(block: Seq<char>)
    requires
        parse_entries(split(block, "\n"@), ": "@) is Some,
    ensures
        ({
            let headers = parse_entries(split(block, "\n"@), ": "@).unwrap();
            &&& headers.len() > 0
            &&& keys_unique(headers)
            &&& entries_lack(headers, ": "@)
            &&& forall|i: int|
                0 <= i < headers.len() ==> !(#[trigger] headers[i]).0.contains('\n')
                    && !headers[i].1.contains('\n')
        }),
{
    lemma_separators();
    let lines = split(block, "\n"@);
    lemma_split_pieces(block, "\n"@, "\n"@);
    lemma_parsed_entries(lines, ": "@, "\n"@);
    let headers = parse_entries(lines, ": "@).unwrap();
    assert forall|i: int| 0 <= i < headers.len() implies !(#[trigger] headers[i]).0.contains('\n')
        && !headers[i].1.contains('\n') by {
        lemma_contains_char(headers[i].0, "\n"@);
        lemma_contains_char(headers[i].1, "\n"@);
    }
}

/// Where the header entries and the body of a request are read back from
/// its own text, neither its first line nor its header block holds a line
/// break, and the entries are those that are read from the block.
proof fn lemma_read_back_breaks(request: RequestView)
    requires
        parse_headers_and_body(request.format()) == Some((request.headers, request.body)),
    ensures
        !contains_text(request.request_line(), "\r\n"@),
        !contains_text(format_entries(request.headers, ": "@, "\n"@), "\r\n"@),
        parse_entries(split(format_entries(request.headers, ": "@, "\n"@), "\n"@), ": "@) == Some(
            request.headers,
        ),
{
    lemma_separators();
    let block = format_entries(request.headers, ": "@, "\n"@);
    lemma_cuts_found(request.request_line(), block, request.body, "\r\n"@);
    let after = block + "\r\n"@ + request.body;
    assert(after.take(block.len() as int) =~= block);
}

/// The target of a first line without a line break holds no line break.
proof fn lemma_target_clean(request: RequestView)
    requires
        !contains_text(request.request_line(), "\r\n"@),
    ensures
        !contains_text(request.uri.format(), "\r\n"@),
{
    let target = request.uri.format();
    if contains_text(target, "\r\n"@) {
        reveal_strlit(" ");
        let line = request.request_line();
        let from = request.method.token().len() as int + 1;
        let to = from + target.len();
        assert(line.subrange(from, to) =~= target);
        lemma_subrange_contains(line, from, to, "\r\n"@);
    }
}

/// A request that is read back from its own text is unambiguous.
proof fn lemma_read_back_unambiguous(request: RequestView)
    requires
        RequestView::parse(request.format()) == Some(request),
    ensures
        request.unambiguous(),
{
    lemma_read_back_target(request);
    lemma_read_back_breaks(request);
    lemma_target_clean(request);
    lemma_parsed_headers(format_entries(request.headers, ": "@, "\n"@));
}

/// Writing a request and reading the text gives the request back exactly
/// where the request is unambiguous.
pub proof fn lemma_request_round_trip_exact(request: RequestView)
    ensures
        RequestView::parse(request.format()) == Some(request) <==> request.unambiguous(),
{
    if request.unambiguous() {
        lemma_request_round_trip(request);
    }
    if RequestView::parse(request.format()) == Some(request) {
        lemma_read_back_unambiguous(request);
    }
}

// Texts that are no request

/// A text with fewer than two spaces is no request.
pub proof fn lemma_second_space_needed(s: Seq<char>)
    requires
        match find(s, " "@) {
            Some(first) => find(s.skip(first + 1), " "@) is None,
            None => true,
        },
    ensures
        RequestView::parse(s) is None,
{
}

/// A text in which something other than `HTTP/` begins after the second
/// space is no request.
pub proof fn lemma_version_prefix_needed(s: Seq<char>, first: int, second: int)
    requires
        find(s, " "@) == Some(first),
        find(s.skip(first + 1), " "@) == Some(second),
        !"HTTP/"@.is_prefix_of(s.skip(first + 1).skip(second + 1)),
    ensures
        RequestView::parse(s) is None,
{
}

} // verus!
