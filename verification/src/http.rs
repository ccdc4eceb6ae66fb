//! Requests and responses: their parts, how a request is read from text and
//! how both are written as text.

use vstd::prelude::*;
use vstd::string::*;
use vstd::slice::slice_subrange;
use vstd::std_specs::cmp::PartialEqSpecImpl;
use crate::string_map::StringMap;
use crate::text::{
    find_in, from_chars, join, same_text, split_on, starts_with, to_chars, write_decimal,
};
use crate::text_laws::lemma_join_push;
use crate::wire::{
    collect, entry_pairs, entry_texts, format_entries, parse_entries, parse_entry,
    parse_headers_and_body, parse_request_line, RequestView, ResponseView, UriView,
};

verus! {

/// The method of a request.
#[derive(Clone, Copy, Debug, PartialEq, Eq, Structural)]
pub enum Method {
    Get,
    Head,
    Post,
    Put,
    Delete,
    Connect,
    Options,
    Trace,
    Patch,
}

/// Why a text is no method.
#[derive(Clone, Copy, Debug)]
pub enum MethodErrKind {
    Empty,
}

/// The failure to read a method.
#[derive(Clone, Copy, Debug)]
pub struct ParseMethodErr {
    kind: MethodErrKind,
}

impl Method {
    /// The token that names the method on the wire.
    pub open spec fn token(self) -> Seq<char> {
        match self {
            Method::Get => "GET"@,
            Method::Head => "HEAD"@,
            Method::Post => "POST"@,
            Method::Put => "PUT"@,
            Method::Delete => "DELETE"@,
            Method::Connect => "CONNECT"@,
            Method::Options => "OPTIONS"@,
            Method::Trace => "TRACE"@,
            Method::Patch => "PATCH"@,
        }
    }

    /// The method that the token `s` names, letter for letter.
    pub open spec fn from_token(s: Seq<char>) -> Option<Method> {
        if exists|m: Method| m.token() == s {
            Some(choose|m: Method| m.token() == s)
        } else {
            None
        }
    }

    /// No two methods share a token.
    pub proof fn lemma_token_injective(a: Method, b: Method)
        requires
            a.token() == b.token(),
        ensures
            a == b,
    {
        reveal_strlit("GET");
        reveal_strlit("HEAD");
        reveal_strlit("POST");
        reveal_strlit("PUT");
        reveal_strlit("DELETE");
        reveal_strlit("CONNECT");
        reveal_strlit("OPTIONS");
        reveal_strlit("TRACE");
        reveal_strlit("PATCH");
        let mark = |m: Method| (m.token().len(), m.token()[0]);
        assert(mark(Method::Get) == (3nat, 'G'));
        assert(mark(Method::Head) == (4nat, 'H'));
        assert(mark(Method::Post) == (4nat, 'P'));
        assert(mark(Method::Put) == (3nat, 'P'));
        assert(mark(Method::Delete) == (6nat, 'D'));
        assert(mark(Method::Connect) == (7nat, 'C'));
        assert(mark(Method::Options) == (7nat, 'O'));
        assert(mark(Method::Trace) == (5nat, 'T'));
        assert(mark(Method::Patch) == (5nat, 'P'));
        assert(mark(a) == mark(b));
    }

    /// A token is made of capital letters.
    pub proof fn lemma_token_letters(m: Method)
        ensures
            m.token().len() > 0,
            forall|i: int| 0 <= i < m.token().len() ==> 'A' <= #[trigger] m.token()[i] <= 'Z',
    {
        reveal_strlit("GET");
        reveal_strlit("HEAD");
        reveal_strlit("POST");
        reveal_strlit("PUT");
        reveal_strlit("DELETE");
        reveal_strlit("CONNECT");
        reveal_strlit("OPTIONS");
        reveal_strlit("TRACE");
        reveal_strlit("PATCH");
    }

    /// Reading the token of a method gives that method back.
    pub proof fn lemma_token_round_trip(m: Method)
        ensures
            Method::from_token(m.token()) == Some(m),
    {
        let found = choose|x: Method| x.token() == m.token();
        Method::lemma_token_injective(found, m);
    }

    /// A text is read as a method exactly when it is the token of one, and
    /// that method then writes the same text.
    pub proof fn lemma_from_token(s: Seq<char>)
        ensures
            Method::from_token(s) matches Some(m) ==> m.token() == s,
            Method::from_token(s) is None <==> forall|m: Method| m.token() != s,
    {
    }

    /// The token of the method.
    pub fn to_string(&self) -> (out: String)
        ensures
            out@ == self.token(),
    {
        match self {
            Method::Get => String::from_str("GET"),
            Method::Head => String::from_str("HEAD"),
            Method::Post => String::from_str("POST"),
            Method::Put => String::from_str("PUT"),
            Method::Delete => String::from_str("DELETE"),
            Method::Connect => String::from_str("CONNECT"),
            Method::Options => String::from_str("OPTIONS"),
            Method::Trace => String::from_str("TRACE"),
            Method::Patch => String::from_str("PATCH"),
        }
    }

    /// Whether `token` is the token of `m`.
    fn names(token: &[char], m: Method) -> (yes: bool)
        ensures
            yes == (token@ == m.token()),
    {
        let name = m.to_string();
        let chars = to_chars(name.as_str());
        same_text(token, chars.as_slice())
    }

    /// The method that `token` names.
    fn parse_chars(token: &[char]) -> (parsed: Option<Method>)
        ensures
            parsed == Method::from_token(token@),
    {
        let parsed = if Method::names(token, Method::Get) {
            Some(Method::Get)
        } else if Method::names(token, Method::Head) {
            Some(Method::Head)
        } else if Method::names(token, Method::Post) {
            Some(Method::Post)
        } else if Method::names(token, Method::Put) {
            Some(Method::Put)
        } else if Method::names(token, Method::Delete) {
            Some(Method::Delete)
        } else if Method::names(token, Method::Connect) {
            Some(Method::Connect)
        } else if Method::names(token, Method::Options) {
            Some(Method::Options)
        } else if Method::names(token, Method::Trace) {
            Some(Method::Trace)
        } else if Method::names(token, Method::Patch) {
            Some(Method::Patch)
        } else {
            None
        };
        proof {
            match parsed {
                Some(m) => Method::lemma_token_round_trip(m),
                None => {
                    assert forall|m: Method| m.token() != token@ by {
                        match m {
                            Method::Get => {},
                            Method::Head => {},
                            Method::Post => {},
                            Method::Put => {},
                            Method::Delete => {},
                            Method::Connect => {},
                            Method::Options => {},
                            Method::Trace => {},
                            Method::Patch => {},
                        }
                    }
                },
            }
        }
        parsed
    }
}

impl std::str::FromStr for Method {
    type Err = ParseMethodErr;

    /// Reads a method from its token. Nothing but the nine tokens, in
    /// capitals, is a method.
    fn from_str(s: &str) -> (parsed: Result<Method, ParseMethodErr>)
        ensures
            match parsed {
                Ok(m) => Method::from_token(s@) == Some(m),
                Err(_) => Method::from_token(s@) is None,
            },
    {
        let chars = to_chars(s);
        match Method::parse_chars(chars.as_slice()) {
            Some(m) => Ok(m),
            None => Err(ParseMethodErr { kind: MethodErrKind::Empty }),
        }
    }
}

/// Why a text is no request target.
#[derive(Clone, Copy, Debug)]
pub enum UriErrKind {
    Empty,
}

/// The failure to read a request target.
#[derive(Clone, Copy, Debug)]
pub struct ParseUriErr {
    kind: UriErrKind,
}

/// Why a text is no request.
#[derive(Clone, Copy, Debug)]
pub enum RequestErrKind {
    Empty,
}

/// The failure to read a request.
#[derive(Clone, Copy, Debug)]
pub struct ParseRequestErr {
    kind: RequestErrKind,
}

/// The target of a request: a path and query parameters.
#[derive(Debug)]
pub struct Uri {
    pub path: String,
    pub query_params: StringMap,
}

/// A request.
#[derive(Debug)]
pub struct Request {
    pub method: Method,
    pub uri: Uri,
    pub headers: StringMap,
    pub body: String,
}

/// A response.
#[derive(Debug)]
pub struct Response {
    pub code: u32,
    pub message: String,
    pub headers: StringMap,
    pub body: String,
}

impl View for Uri {
    type V = UriView;

    open spec fn view(&self) -> UriView {
        UriView { path: self.path@, query_params: self.query_params.entries() }
    }
}

impl View for Request {
    type V = RequestView;

    open spec fn view(&self) -> RequestView {
        RequestView {
            method: self.method,
            uri: self.uri@,
            headers: self.headers.entries(),
            body: self.body@,
        }
    }
}

impl View for Response {
    type V = ResponseView;

    open spec fn view(&self) -> ResponseView {
        ResponseView {
            code: self.code,
            message: self.message@,
            headers: self.headers.entries(),
            body: self.body@,
        }
    }
}

impl PartialEq for Uri {
    /// Two targets are equal when their paths are and their query parameters
    /// give the same values to the same keys, in whatever order.
    fn eq(&self, other: &Uri) -> (equal: bool) {
        self.path == other.path && self.query_params == other.query_params
    }
}

impl PartialEqSpecImpl for Uri {
    open spec fn obeys_eq_spec() -> bool {
        true
    }

    open spec fn eq_spec(&self, other: &Uri) -> bool {
        self@.same(other@)
    }
}

impl PartialEq for Request {
    /// Two requests are equal when their methods, targets and bodies are and
    /// their headers give the same values to the same keys, in whatever
    /// order.
    fn eq(&self, other: &Request) -> (equal: bool) {
        self.method == other.method && self.uri == other.uri && self.headers == other.headers
            && self.body == other.body
    }
}

impl PartialEqSpecImpl for Request {
    open spec fn obeys_eq_spec() -> bool {
        true
    }

    open spec fn eq_spec(&self, other: &Request) -> bool {
        self@.same(other@)
    }
}

impl PartialEq for Response {
    /// Two responses are equal when their codes, messages and bodies are and
    /// their headers give the same values to the same keys, in whatever
    /// order.
    fn eq(&self, other: &Response) -> (equal: bool) {
        self.code == other.code && self.message == other.message && self.headers == other.headers
            && self.body == other.body
    }
}

impl PartialEqSpecImpl for Response {
    open spec fn obeys_eq_spec() -> bool {
        true
    }

    open spec fn eq_spec(&self, other: &Response) -> bool {
        self@.same(other@)
    }
}

/// Appends the entries of `map` to `out`, in their order: each as key,
/// `kv_sep`, value, with `sep` between each two.
fn write_entries(map: &StringMap, kv_sep: &str, sep: &str, out: &mut String)
    ensures
        final(out)@ == old(out)@ + format_entries(map.entries(), kv_sep@, sep@),
{
    let ghost texts = entry_texts(map.entries(), kv_sep@);
    let n = map.len();
    let mut i: usize = 0;
    while i < n
        invariant
            i <= n,
            n == map.entries().len(),
            texts == entry_texts(map.entries(), kv_sep@),
            out@ == old(out)@ + join(texts.take(i as int), sep@),
        decreases n - i,
    {
        if i > 0 {
            out.append(sep);
        }
        if let Some((key, value)) = map.entry(i) {
            out.append(key.as_str());
            out.append(kv_sep);
            out.append(value.as_str());
        }
        proof {
            assert(texts.take(i + 1) =~= texts.take(i as int).push(texts[i as int]));
            if i > 0 {
                lemma_join_push(texts.take(i as int), sep@, texts[i as int]);
            }
            assert(out@ =~= old(out)@ + join(texts.take(i + 1), sep@));
        }
        i += 1;
    }
    proof {
        assert(texts.take(n as int) =~= texts);
    }
}

/// The entries that `items` stand for, each of them key, `kv_sep`, value.
fn read_entries(items: &Vec<&[char]>, kv_sep: &[char]) -> (entries: Option<StringMap>)
    ensures
        match entries {
            Some(map) => parse_entries(items@.map_values(|p: &[char]| p@), kv_sep@) == Some(
                map.entries(),
            ),
            None => parse_entries(items@.map_values(|p: &[char]| p@), kv_sep@) is None,
        },
{
    let ghost texts = items@.map_values(|p: &[char]| p@);
    let ghost pairs = entry_pairs(texts, kv_sep@);
    let mut map = StringMap::new();
    let mut i: usize = 0;
    while i < items.len()
        invariant
            i <= items.len(),
            texts == items@.map_values(|p: &[char]| p@),
            pairs == entry_pairs(texts, kv_sep@),
            forall|j: int| 0 <= j < i ==> parse_entry(#[trigger] texts[j], kv_sep@) is Some,
            map.entries() == collect(pairs.take(i as int)),
        decreases items.len() - i,
    {
        let parts = split_on(items[i], kv_sep);
        assert(parts@.map_values(|p: &[char]| p@).len() == parts.len());
        if parts.len() != 2 {
            assert(parse_entry(texts[i as int], kv_sep@) is None);
            return None;
        }
        let key = from_chars(parts[0]);
        let value = from_chars(parts[1]);
        proof {
            let views = parts@.map_values(|p: &[char]| p@);
            assert(views[0] == parts[0]@ && views[1] == parts[1]@);
            assert(pairs[i as int] == (key@, value@));
            assert(pairs.take(i + 1).drop_last() =~= pairs.take(i as int));
        }
        map.insert(key, value);
        i += 1;
    }
    proof {
        assert(pairs.take(items.len() as int) =~= pairs);
    }
    Some(map)
}

impl Uri {
    /// The target as text: the path, then, where there are query parameters,
    /// `?` and each parameter as `key=value`, with `&` between each two.
    pub fn to_string(&self) -> (out: String)
        ensures
            out@ == self@.format(),
    {
        let mut out = self.path.clone();
        if !self.query_params.is_empty() {
            out.append("?");
            write_entries(&self.query_params, "=", "&", &mut out);
        }
        out
    }

    /// The target that `text` stands for.
    fn parse_chars(text: &[char]) -> (parsed: Option<Uri>)
        ensures
            match parsed {
                Some(uri) => UriView::parse(text@) == Some(uri@),
                None => UriView::parse(text@) is None,
            },
    {
        let question = to_chars("?");
        let ampersand = to_chars("&");
        let equals = to_chars("=");
        proof {
            reveal_strlit("?");
            assert(question@.len() == 1);
        }
        match find_in(text, question.as_slice()) {
            None => Some(Uri { path: from_chars(text), query_params: StringMap::new() }),
            Some(i) => {
                let end = text.len();
                let query = slice_subrange(text, i + 1, end);
                assert(query@ =~= text@.skip(i + 1));
                let items = split_on(query, ampersand.as_slice());
                match read_entries(&items, equals.as_slice()) {
                    Some(query_params) => {
                        let path = from_chars(slice_subrange(text, 0, i));
                        assert(path@ =~= text@.take(i as int));
                        Some(Uri { path, query_params })
                    },
                    None => None,
                }
            },
        }
    }
}

impl std::str::FromStr for Uri {
    type Err = ParseUriErr;

    /// Reads a request target. The path ends before the first `?`; what
    /// follows that `?` is cut at each `&`, and each piece must hold exactly
    /// one `=`, between a key and its value. Of two values for one key the
    /// later one stays.
    fn from_str(s: &str) -> (parsed: Result<Uri, ParseUriErr>)
        ensures
            match parsed {
                Ok(uri) => UriView::parse(s@) == Some(uri@),
                Err(_) => UriView::parse(s@) is None,
            },
    {
        let chars = to_chars(s);
        match Uri::parse_chars(chars.as_slice()) {
            Some(uri) => Ok(uri),
            None => Err(ParseUriErr { kind: UriErrKind::Empty }),
        }
    }
}

impl Request {
    /// The request as text: the method, the target and `HTTP/1.1`, each
    /// a space apart, a line break; the header entries as `key: value`, a
    /// bare `\n` between each two; a line break; the body.
    pub fn to_string(&self) -> (out: String)
        ensures
            out@ == self@.format(),
    {
        let mut out = self.method.to_string();
        out.append(" ");
        out.append(self.uri.to_string().as_str());
        out.append(" ");
        out.append("HTTP/1.1");
        out.append("\r\n");
        write_entries(&self.headers, ": ", "\n", &mut out);
        out.append("\r\n");
        out.append(self.body.as_str());
        out
    }

    /// The method and the target at the start of `text`.
    fn read_request_line(text: &[char]) -> (parsed: Option<(Method, Uri)>)
        ensures
            match parsed {
                Some((method, uri)) => parse_request_line(text@) == Some((method, uri@)),
                None => parse_request_line(text@) is None,
            },
    {
        let space = to_chars(" ");
        let version_prefix = to_chars("HTTP/");
        proof {
            reveal_strlit(" ");
            assert(space@.len() == 1);
        }
        let end = text.len();
        let method_end = match find_in(text, space.as_slice()) {
            Some(i) => i,
            None => {
                return None;
            },
        };
        let rest = slice_subrange(text, method_end + 1, end);
        assert(rest@ =~= text@.skip(method_end + 1));
        let token = slice_subrange(text, 0, method_end);
        assert(token@ =~= text@.take(method_end as int));
        let method = match Method::parse_chars(token) {
            Some(method) => method,
            None => {
                return None;
            },
        };
        let rest_end = rest.len();
        let target_end = match find_in(rest, space.as_slice()) {
            Some(i) => i,
            None => {
                return None;
            },
        };
        let target = slice_subrange(rest, 0, target_end);
        assert(target@ =~= rest@.take(target_end as int));
        let version = slice_subrange(rest, target_end + 1, rest_end);
        assert(version@ =~= rest@.skip(target_end + 1));
        let uri = match Uri::parse_chars(target) {
            Some(uri) => uri,
            None => {
                return None;
            },
        };
        if target_end == 0 || !starts_with(version, version_prefix.as_slice()) {
            return None;
        }
        Some((method, uri))
    }

    /// The header entries and the body of `text`.
    fn read_headers_and_body(text: &[char]) -> (parsed: Option<(StringMap, String)>)
        ensures
            match parsed {
                Some((headers, body)) => parse_headers_and_body(text@) == Some(
                    (headers.entries(), body@),
                ),
                None => parse_headers_and_body(text@) is None,
            },
    {
        let line_break = to_chars("\r\n");
        let line_feed = to_chars("\n");
        let colon_space = to_chars(": ");
        proof {
            reveal_strlit("\r\n");
            assert(line_break@.len() == 2);
        }
        let end = text.len();
        let line_end = match find_in(text, line_break.as_slice()) {
            Some(i) => i,
            None => {
                return None;
            },
        };
        let after = slice_subrange(text, line_end + 2, end);
        assert(after@ =~= text@.skip(line_end + 2));
        let after_end = after.len();
        let block_len = match find_in(after, line_break.as_slice()) {
            Some(i) => i,
            None => {
                return None;
            },
        };
        let block = slice_subrange(after, 0, block_len);
        assert(block@ =~= after@.take(block_len as int));
        let lines = split_on(block, line_feed.as_slice());
        let headers = match read_entries(&lines, colon_space.as_slice()) {
            Some(headers) => headers,
            None => {
                return None;
            },
        };
        let rest = slice_subrange(after, block_len + 2, after_end);
        assert(rest@ =~= after@.skip(block_len + 2));
        Some((headers, from_chars(rest)))
    }
}

impl std::str::FromStr for Request {
    type Err = ParseRequestErr;

    /// Reads a request. The method ends at the first space and the target,
    /// which may not be empty, at the next one; what follows must begin with
    /// `HTTP/`. The header block lies between the first line break (`\r\n`)
    /// of the text and the next one, and holds one entry, written
    /// `key: value`, on each of its lines, which a bare `\n` ends; of two
    /// values for one key the later one stays. The body is all that follows
    /// the second line break.
    fn from_str(s: &str) -> (parsed: Result<Request, ParseRequestErr>)
        ensures
            match parsed {
                Ok(request) => RequestView::parse(s@) == Some(request@),
                Err(_) => RequestView::parse(s@) is None,
            },
    {
        let chars = to_chars(s);
        let text = chars.as_slice();
        let (method, uri) = match Request::read_request_line(text) {
            Some(start) => start,
            None => {
                return Err(ParseRequestErr { kind: RequestErrKind::Empty });
            },
        };
        let (headers, body) = match Request::read_headers_and_body(text) {
            Some(rest) => rest,
            None => {
                return Err(ParseRequestErr { kind: RequestErrKind::Empty });
            },
        };
        Ok(Request { method, uri, headers, body })
    }
}

impl Response {
    /// The response as text: `HTTP/1.1`, the code in decimal and the message,
    /// each a space apart, a line break; the header entries as `key: value`,
    /// a bare `\n` between each two; a line break; the body.
    pub fn to_string(&self) -> (out: String)
        ensures
            out@ == self@.format(),
    {
        let mut out = String::from_str("HTTP/1.1");
        out.append(" ");
        write_decimal(self.code, &mut out);
        out.append(" ");
        out.append(self.message.as_str());
        out.append("\r\n");
        write_entries(&self.headers, ": ", "\n", &mut out);
        out.append("\r\n");
        out.append(self.body.as_str());
        out
    }
}

} // verus!
