//! The wire format of requests and responses, stated on sequences of
//! characters: what a message looks like as text, and which message a text
//! stands for.

use vstd::prelude::*;
use crate::http::Method;
use crate::string_map::{keys_unique, put, to_map};
use crate::text::{contains_text, decimal, find, join, split};

verus! {

/// One entry as text: its key, `kv_sep`, its value.
pub open spec fn entry_text(entry: (Seq<char>, Seq<char>), kv_sep: Seq<char>) -> Seq<char> {
    entry.0 + kv_sep + entry.1
}

/// The texts of `entries`, in order.
pub open spec fn entry_texts(entries: Seq<(Seq<char>, Seq<char>)>, kv_sep: Seq<char>) -> Seq<
    Seq<char>,
> {
    entries.map_values(|e: (Seq<char>, Seq<char>)| entry_text(e, kv_sep))
}

/// `entries` as text: each entry as key, `kv_sep`, value, with `sep` between
/// each two entries.
pub open spec fn format_entries(
    entries: Seq<(Seq<char>, Seq<char>)>,
    kv_sep: Seq<char>,
    sep: Seq<char>,
) -> Seq<char> {
    join(entry_texts(entries, kv_sep), sep)
}

/// The entry that `item` stands for: `item` must hold `kv_sep` exactly once,
/// between the key and the value.
pub open spec fn parse_entry(item: Seq<char>, kv_sep: Seq<char>) -> Option<(Seq<char>, Seq<char>)> {
    let parts = split(item, kv_sep);
    if parts.len() == 2 {
        Some((parts[0], parts[1]))
    } else {
        None
    }
}

/// The entries that result from putting `pairs` into an empty map one by one:
/// of two pairs with one key the later gives the value.
pub open spec fn collect(pairs: Seq<(Seq<char>, Seq<char>)>) -> Seq<(Seq<char>, Seq<char>)>
    decreases pairs.len(),
{
    if pairs.len() == 0 {
        Seq::empty()
    } else {
        put(collect(pairs.drop_last()), pairs.last().0, pairs.last().1)
    }
}

/// The key and the value in each of `items`, in order.
pub open spec fn entry_pairs(items: Seq<Seq<char>>, kv_sep: Seq<char>) -> Seq<
    (Seq<char>, Seq<char>),
> {
    items.map_values(|item: Seq<char>| parse_entry(item, kv_sep).unwrap())
}

/// The entries that `items` stand for, if each of them stands for one.
pub open spec fn parse_entries(items: Seq<Seq<char>>, kv_sep: Seq<char>) -> Option<
    Seq<(Seq<char>, Seq<char>)>,
> {
    if forall|i: int| 0 <= i < items.len() ==> parse_entry(#[trigger] items[i], kv_sep) is Some {
        Some(collect(entry_pairs(items, kv_sep)))
    } else {
        None
    }
}

/// A request target: a path and the query parameters in the order of their
/// keys' first appearance.
pub struct UriView {
    pub path: Seq<char>,
    pub query_params: Seq<(Seq<char>, Seq<char>)>,
}

impl UriView {
    /// No key comes twice, the path holds no `?`, and no key or value holds
    /// `&` or `=`: the text of such a target can be read in one way only.
    pub open spec fn unambiguous(self) -> bool {
        &&& keys_unique(self.query_params)
        &&& !self.path.contains('?')
        &&& forall|i: int|
            0 <= i < self.query_params.len() ==> {
                &&& !(#[trigger] self.query_params[i]).0.contains('&')
                &&& !self.query_params[i].0.contains('=')
                &&& !self.query_params[i].1.contains('&')
                &&& !self.query_params[i].1.contains('=')
            }
    }

    /// The two targets have the same path and give the same values to the
    /// same keys, in whatever order.
    pub open spec fn same(self, other: UriView) -> bool {
        &&& self.path == other.path
        &&& to_map(self.query_params) == to_map(other.query_params)
    }

    /// The target as text: the path, then, where there are parameters, `?`
    /// and the parameters as `key=value`, joined by `&`.
    pub open spec fn format(self) -> Seq<char> {
        if self.query_params.len() == 0 {
            self.path
        } else {
            self.path + "?"@ + format_entries(self.query_params, "="@, "&"@)
        }
    }

    /// The target that `s` stands for. The path ends before the first `?`.
    /// What follows that `?` is cut at each `&`, and each piece must hold
    /// exactly one `=`.
    pub open spec fn parse(s: Seq<char>) -> Option<UriView> {
        match find(s, "?"@) {
            None => Some(UriView { path: s, query_params: Seq::empty() }),
            Some(i) => match parse_entries(split(s.skip(i + 1), "&"@), "="@) {
                Some(query_params) => Some(UriView { path: s.take(i), query_params }),
                None => None,
            },
        }
    }
}

/// A request: method, target, header entries in the order of their keys'
/// first appearance, and body.
pub struct RequestView {
    pub method: Method,
    pub uri: UriView,
    pub headers: Seq<(Seq<char>, Seq<char>)>,
    pub body: Seq<char>,
}

/// The method and the target at the start of `s`: the method ends at the
/// first space, the target, which may not be empty, at the next one, and
/// what follows begins with `HTTP/`.
pub open spec fn parse_request_line(s: Seq<char>) -> Option<(Method, UriView)> {
    match find(s, " "@) {
        None => None,
        Some(m) => {
            let rest = s.skip(m + 1);
            match (Method::from_token(s.take(m)), find(rest, " "@)) {
                (Some(method), Some(t)) => match UriView::parse(rest.take(t)) {
                    Some(uri) => if t > 0 && "HTTP/"@.is_prefix_of(rest.skip(t + 1)) {
                        Some((method, uri))
                    } else {
                        None
                    },
                    None => None,
                },
                _ => None,
            }
        },
    }
}

/// The header entries and the body of `s`. The header block lies between the
/// first line break (`\r\n`) of `s` and the next one; it holds one entry,
/// written `key: value`, on each of its lines, which a bare `\n` ends. The
/// body is all that follows the second line break.
pub open spec fn parse_headers_and_body(s: Seq<char>) -> Option<
    (Seq<(Seq<char>, Seq<char>)>, Seq<char>),
> {
    match find(s, "\r\n"@) {
        None => None,
        Some(line_end) => {
            let after = s.skip(line_end + 2);
            match find(after, "\r\n"@) {
                None => None,
                Some(block_len) => match parse_entries(
                    split(after.take(block_len), "\n"@),
                    ": "@,
                ) {
                    Some(headers) => Some((headers, after.skip(block_len + 2))),
                    None => None,
                },
            }
        },
    }
}

impl RequestView {
    /// The text of such a request can be read in one way only: its target is
    /// unambiguous and, as text, not empty and without a space or a line
    /// break (`\r\n`); it has a header entry, no header key comes twice, no
    /// header key or value holds a line feed or `: `, and the header block
    /// as text holds no line break.
    pub open spec fn unambiguous(self) -> bool {
        &&& self.uri.unambiguous()
        &&& self.uri.format().len() > 0
        &&& !self.uri.format().contains(' ')
        &&& !contains_text(self.uri.format(), "\r\n"@)
        &&& self.headers.len() > 0
        &&& keys_unique(self.headers)
        &&& forall|i: int|
            0 <= i < self.headers.len() ==> {
                &&& !(#[trigger] self.headers[i]).0.contains('\n')
                &&& !self.headers[i].1.contains('\n')
                &&& !contains_text(self.headers[i].0, ": "@)
                &&& !contains_text(self.headers[i].1, ": "@)
            }
        &&& !contains_text(format_entries(self.headers, ": "@, "\n"@), "\r\n"@)
    }

    /// The two requests have the same method, the same target and the same
    /// body, and their headers give the same values to the same keys, in
    /// whatever order.
    pub open spec fn same(self, other: RequestView) -> bool {
        &&& self.method == other.method
        &&& self.uri.same(other.uri)
        &&& to_map(self.headers) == to_map(other.headers)
        &&& self.body == other.body
    }

    /// The first line of the request as text, without the line break that
    /// ends it: method, target and version, each a space apart.
    pub open spec fn request_line(self) -> Seq<char> {
        self.method.token() + " "@ + self.uri.format() + " "@ + "HTTP/1.1"@
    }

    /// The request as text: the first line, a line break (`\r\n`), the
    /// header entries as `key: value` with a bare `\n` between each two, a
    /// line break, the body.
    pub open spec fn format(self) -> Seq<char> {
        self.request_line() + "\r\n"@ + format_entries(self.headers, ": "@, "\n"@) + "\r\n"@
            + self.body
    }

    /// The request that `s` stands for.
    pub open spec fn parse(s: Seq<char>) -> Option<RequestView> {
        match (parse_request_line(s), parse_headers_and_body(s)) {
            (Some((method, uri)), Some((headers, body))) => Some(
                RequestView { method, uri, headers, body },
            ),
            _ => None,
        }
    }
}

/// A response: status code, status message, header entries and body.
pub struct ResponseView {
    pub code: u32,
    pub message: Seq<char>,
    pub headers: Seq<(Seq<char>, Seq<char>)>,
    pub body: Seq<char>,
}

impl ResponseView {
    /// The two responses have the same code, the same message and the same
    /// body, and their headers give the same values to the same keys, in
    /// whatever order.
    pub open spec fn same(self, other: ResponseView) -> bool {
        &&& self.code == other.code
        &&& self.message == other.message
        &&& to_map(self.headers) == to_map(other.headers)
        &&& self.body == other.body
    }

    /// The first line of the response as text, without the line break that
    /// ends it: version, code in decimal and message, each a space apart.
    pub open spec fn status_line(self) -> Seq<char> {
        "HTTP/1.1"@ + " "@ + decimal(self.code as nat) + " "@ + self.message
    }

    /// The response as text: the first line, a line break (`\r\n`), the
    /// header entries as `key: value` with a bare `\n` between each two, a
    /// line break, the body.
    pub open spec fn format(self) -> Seq<char> {
        self.status_line() + "\r\n"@ + format_entries(self.headers, ": "@, "\n"@) + "\r\n"@
            + self.body
    }
}

} // verus!
