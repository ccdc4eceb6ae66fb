use std::str::FromStr;

use mini_http::http::{Method, Request, Response, Uri};
use mini_http::string_map::StringMap;

fn map_of(pairs: &[(&str, &str)]) -> StringMap {
    let mut map = StringMap::new();
    for (key, value) in pairs {
        map.insert(String::from(*key), String::from(*value));
    }
    map
}

#[test]
fn request_formatted_properly() {
    let request = Request {
        method: Method::Get,
        uri: Uri {
            path: String::from("/"),
            query_params: {
                let mut map = StringMap::new();
                map.insert(String::from("user"), String::from("test"));
                map
            },
        },
        headers: {
            let mut map = StringMap::new();
            map.insert(String::from("User-Agent"), String::from("Rust"));
            map
        },
        body: String::from(""),
    };

    assert_eq!(
        "GET /?user=test HTTP/1.1\r\nUser-Agent: Rust\r\n",
        request.to_string()
    );
}

#[test]
fn response_formatted_properly() {
    let response = Response {
        code: 200,
        message: String::from("OK"),
        headers: {
            let mut map = StringMap::new();
            map.insert(String::from("Host"), String::from("192.168.1.123"));
            map
        },
        body: String::from(""),
    };
    assert_eq!(
        "HTTP/1.1 200 OK\r\nHost: 192.168.1.123\r\n",
        response.to_string()
    );
}

#[test]
fn request_parsed_properly() {
    // The version must begin with `HTTP/`: this text is no request.
    let misspelt: Result<Request, _> =
        "GET /index.html?user=test HTML/1.1\r\nUser-Agent: Rust\r\nHello, world!".parse();
    assert!(misspelt.is_err());

    let request: Request = "GET /index.html?user=test HTTP/1.1\r\nUser-Agent: Rust\r\nHello, world!"
        .parse()
        .unwrap();
    assert_eq!(Request {
        method: Method::Get,
        uri: Uri {
            path: String::from("/index.html"),
            query_params: {
                let mut map = StringMap::new();
                map.insert(String::from("user"), String::from("test"));
                map
            },
        },
        headers: {
            let mut map = StringMap::new();
            map.insert(String::from("User-Agent"), String::from("Rust"));
            map
        },
        body: String::from("Hello, world!"),
    }, request);
}

#[test]
fn every_method_token_round_trips() {
    let tokens = [
        ("GET", Method::Get),
        ("HEAD", Method::Head),
        ("POST", Method::Post),
        ("PUT", Method::Put),
        ("DELETE", Method::Delete),
        ("CONNECT", Method::Connect),
        ("OPTIONS", Method::Options),
        ("TRACE", Method::Trace),
        ("PATCH", Method::Patch),
    ];
    for (token, method) in tokens {
        let parsed = Method::from_str(token).unwrap();
        assert_eq!(parsed, method);
        assert_eq!(parsed.to_string(), token);
    }
}

#[test]
fn unknown_method_tokens_are_rejected() {
    for token in ["", "get", "Get", "GET ", " GET", "GETS", "FETCH", "PATC", "POST\n"] {
        assert!(Method::from_str(token).is_err(), "{:?}", token);
    }
}

#[test]
fn uri_without_question_mark_is_all_path() {
    let uri = Uri::from_str("/a/b=c&d").unwrap();
    assert_eq!(uri.path, "/a/b=c&d");
    assert!(uri.query_params.is_empty());
    assert_eq!(uri.to_string(), "/a/b=c&d");
}

#[test]
fn uri_empty_text_is_empty_path() {
    let uri = Uri::from_str("").unwrap();
    assert_eq!(uri.path, "");
    assert_eq!(uri.query_params.len(), 0);
}

#[test]
fn uri_query_without_equals_fails() {
    assert!(Uri::from_str("?k").is_err());
    assert!(Uri::from_str("/p?k").is_err());
    assert!(Uri::from_str("/p?").is_err());
    assert!(Uri::from_str("/p?a=1&").is_err());
    assert!(Uri::from_str("/p?a=1&&b=2").is_err());
}

#[test]
fn uri_query_with_two_equals_fails() {
    assert!(Uri::from_str("?k=v=w").is_err());
    assert!(Uri::from_str("/p?a=1&k=v=w").is_err());
    assert!(Uri::from_str("/p?k==").is_err());
}

#[test]
fn uri_bare_pairs_are_path() {
    // Without a `?` nothing is a query: the whole text is the path.
    let k = Uri::from_str("k").unwrap();
    assert_eq!(k.path, "k");
    assert!(k.query_params.is_empty());
    let kvw = Uri::from_str("k=v=w").unwrap();
    assert_eq!(kvw.path, "k=v=w");
    assert!(kvw.query_params.is_empty());
}

#[test]
fn uri_query_is_read_in_order() {
    let uri = Uri::from_str("/search?q=rust&lang=en&page=2").unwrap();
    assert_eq!(uri.path, "/search");
    assert_eq!(uri.query_params.len(), 3);
    let (k0, v0) = uri.query_params.entry(0).unwrap();
    let (k1, v1) = uri.query_params.entry(1).unwrap();
    let (k2, v2) = uri.query_params.entry(2).unwrap();
    assert!(uri.query_params.entry(3).is_none());
    assert_eq!((k0.as_str(), v0.as_str()), ("q", "rust"));
    assert_eq!((k1.as_str(), v1.as_str()), ("lang", "en"));
    assert_eq!((k2.as_str(), v2.as_str()), ("page", "2"));
    assert_eq!(uri.to_string(), "/search?q=rust&lang=en&page=2");
}

#[test]
fn uri_later_value_wins() {
    let uri = Uri::from_str("/p?a=1&b=2&a=3").unwrap();
    assert_eq!(uri.query_params.len(), 2);
    assert_eq!(uri.query_params.get("a").map(|v| v.as_str()), Some("3"));
    assert_eq!(uri.query_params.get("b").map(|v| v.as_str()), Some("2"));
    assert_eq!(uri.query_params.get("c"), None);
    assert_eq!(uri.to_string(), "/p?a=3&b=2");
}

#[test]
fn uri_second_question_mark_belongs_to_the_query() {
    let uri = Uri::from_str("/p?a=b?c").unwrap();
    assert_eq!(uri.path, "/p");
    assert_eq!(uri.query_params.get("a").map(|v| v.as_str()), Some("b?c"));
}

#[test]
fn uri_empty_key_and_value() {
    let uri = Uri::from_str("?=").unwrap();
    assert_eq!(uri.path, "");
    assert_eq!(uri.query_params.get("").map(|v| v.as_str()), Some(""));
    assert_eq!(uri.to_string(), "?=");
}

#[test]
fn uri_round_trips_through_text() {
    let uri = Uri {
        path: String::from("/a b/\u{e9}"),
        query_params: map_of(&[("x", "1"), ("y z", "\u{4e16}\u{754c}"), ("", "")]),
    };
    let text = uri.to_string();
    assert_eq!(text, "/a b/\u{e9}?x=1&y z=\u{4e16}\u{754c}&=");
    assert_eq!(Uri::from_str(&text).unwrap(), uri);
}

#[test]
fn uri_equality_ignores_order() {
    let ab = Uri { path: String::from("/"), query_params: map_of(&[("a", "1"), ("b", "2")]) };
    let ba = Uri { path: String::from("/"), query_params: map_of(&[("b", "2"), ("a", "1")]) };
    let other = Uri { path: String::from("/"), query_params: map_of(&[("a", "1"), ("b", "3")]) };
    let fewer = Uri { path: String::from("/"), query_params: map_of(&[("a", "1")]) };
    assert_eq!(ab, ba);
    assert_ne!(ab, other);
    assert_ne!(ab, fewer);
    assert_ne!(fewer, ab);
}

#[test]
fn request_with_wrong_version_token_fails() {
    assert!(Request::from_str("GET / HTTX/1.1\r\nA: b\r\n").is_err());
    assert!(Request::from_str("GET / http/1.1\r\nA: b\r\n").is_err());
    assert!(Request::from_str("GET / HTTP\r\nA: b\r\n").is_err());
    assert!(Request::from_str("GET / \r\nA: b\r\n").is_err());
}

#[test]
fn request_version_needs_only_the_prefix() {
    let request = Request::from_str("GET / HTTP/2\r\nA: b\r\n").unwrap();
    assert_eq!(request.method, Method::Get);
    assert_eq!(request.to_string(), "GET / HTTP/1.1\r\nA: b\r\n");
}

#[test]
fn request_without_second_space_fails() {
    assert!(Request::from_str("GET /index.html\r\nA:b\r\n").is_err());
    assert!(Request::from_str("GET /HTTP/1.1\r\nUser-Agent:Rust\r\n").is_err());
    assert!(Request::from_str("GET ").is_err());
}

#[test]
fn request_without_any_space_fails() {
    assert!(Request::from_str("").is_err());
    assert!(Request::from_str("GET").is_err());
    assert!(Request::from_str("GET\r\nA:b\r\n").is_err());
}

#[test]
fn request_with_empty_method_or_target_fails() {
    assert!(Request::from_str(" / HTTP/1.1\r\nA: b\r\n").is_err());
    assert!(Request::from_str("GET  HTTP/1.1\r\nA: b\r\n").is_err());
}

#[test]
fn request_with_unknown_method_fails() {
    assert!(Request::from_str("get / HTTP/1.1\r\nA: b\r\n").is_err());
    assert!(Request::from_str("BREW / HTTP/1.1\r\nA: b\r\n").is_err());
}

#[test]
fn request_with_bad_target_fails() {
    assert!(Request::from_str("GET /?k HTTP/1.1\r\nA: b\r\n").is_err());
    assert!(Request::from_str("GET /?k=v=w HTTP/1.1\r\nA: b\r\n").is_err());
}

#[test]
fn request_without_line_breaks_fails() {
    assert!(Request::from_str("GET / HTTP/1.1").is_err());
    assert!(Request::from_str("GET / HTTP/1.1\nA: b\n").is_err());
    assert!(Request::from_str("GET / HTTP/1.1\r\n").is_err());
    assert!(Request::from_str("GET / HTTP/1.1\r\nA: b").is_err());
    assert!(Request::from_str("GET / HTTP/1.1\r\nA: b\r").is_err());
}

#[test]
fn request_with_bad_header_line_fails() {
    assert!(Request::from_str("GET / HTTP/1.1\r\n\r\nbody").is_err());
    assert!(Request::from_str("GET / HTTP/1.1\r\nA:b\r\n").is_err());
    assert!(Request::from_str("GET / HTTP/1.1\r\nA: b: c\r\n").is_err());
    assert!(Request::from_str("GET / HTTP/1.1\r\nA: b\n\r\n").is_err());
    assert!(Request::from_str("GET / HTTP/1.1\r\nA: b\nC\r\n").is_err());
}

#[test]
fn request_headers_are_split_on_bare_line_feeds() {
    let request =
        Request::from_str("POST /form HTTP/1.1\r\nHost: h\nAccept: */*\nHost: g\r\na=1\r\nb=2")
            .unwrap();
    assert_eq!(request.method, Method::Post);
    assert_eq!(request.uri.path, "/form");
    assert!(request.uri.query_params.is_empty());
    assert_eq!(request.headers.len(), 2);
    assert_eq!(request.headers.get("Host").map(|v| v.as_str()), Some("g"));
    assert_eq!(request.headers.get("host"), None);
    assert_eq!(request.headers.get("Accept").map(|v| v.as_str()), Some("*/*"));
    assert_eq!(request.body, "a=1\r\nb=2");
    assert_eq!(
        request.to_string(),
        "POST /form HTTP/1.1\r\nHost: g\nAccept: */*\r\na=1\r\nb=2"
    );
}

#[test]
fn request_header_keys_keep_their_case() {
    let request = Request::from_str("GET / HTTP/1.1\r\nhost: a\nHost: b\r\n").unwrap();
    assert_eq!(request.headers.len(), 2);
    assert_eq!(request.headers.get("host").map(|v| v.as_str()), Some("a"));
    assert_eq!(request.headers.get("Host").map(|v| v.as_str()), Some("b"));
}

#[test]
fn request_body_may_be_empty() {
    let request = Request::from_str("DELETE /x HTTP/1.1\r\nA: b\r\n").unwrap();
    assert_eq!(request.method, Method::Delete);
    assert_eq!(request.body, "");
}

#[test]
fn request_line_break_in_target_starts_the_headers() {
    // The first line break of the whole text ends the request line, even
    // where it stands inside the target.
    let request = Request::from_str("GET /a\r\nK: HTTP/1.1\r\nbody").unwrap();
    assert_eq!(request.uri.path, "/a\r\nK:");
    assert_eq!(request.headers.get("K").map(|v| v.as_str()), Some("HTTP/1.1"));
    assert_eq!(request.body, "body");
}

#[test]
fn request_round_trips_through_text() {
    let request = Request {
        method: Method::Put,
        uri: Uri {
            path: String::from("/files/\u{fc}ber"),
            query_params: map_of(&[("mode", "w"), ("n", "2")]),
        },
        headers: map_of(&[("Content-Type", "text/plain"), ("X-Trace", "a:b"), ("Empty", "")]),
        body: String::from("line one\r\nline two\n: \r\n"),
    };
    let text = request.to_string();
    assert_eq!(
        text,
        "PUT /files/\u{fc}ber?mode=w&n=2 HTTP/1.1\r\nContent-Type: text/plain\nX-Trace: a:b\nEmpty: \r\nline one\r\nline two\n: \r\n"
    );
    let parsed = Request::from_str(&text).unwrap();
    assert_eq!(parsed, request);
    assert_eq!(parsed.to_string(), text);
}

#[test]
fn request_with_one_header_round_trips() {
    for method in [Method::Get, Method::Head, Method::Options, Method::Trace, Method::Patch, Method::Connect] {
        let request = Request {
            method,
            uri: Uri { path: String::from("/"), query_params: StringMap::new() },
            headers: map_of(&[("Host", "example.org")]),
            body: String::new(),
        };
        assert_eq!(Request::from_str(&request.to_string()).unwrap(), request);
    }
}

#[test]
fn request_without_headers_does_not_round_trip() {
    let request = Request {
        method: Method::Get,
        uri: Uri { path: String::from("/"), query_params: StringMap::new() },
        headers: StringMap::new(),
        body: String::from("x"),
    };
    assert_eq!(request.to_string(), "GET / HTTP/1.1\r\n\r\nx");
    assert!(Request::from_str(&request.to_string()).is_err());
}

#[test]
fn requests_compare_headers_as_maps() {
    let build = |pairs: &[(&str, &str)]| Request {
        method: Method::Get,
        uri: Uri { path: String::from("/"), query_params: StringMap::new() },
        headers: map_of(pairs),
        body: String::new(),
    };
    assert_eq!(build(&[("A", "1"), ("B", "2")]), build(&[("B", "2"), ("A", "1")]));
    assert_ne!(build(&[("A", "1"), ("B", "2")]), build(&[("A", "1")]));
    assert_ne!(build(&[("A", "1")]), build(&[("A", "2")]));
}

#[test]
fn response_without_headers() {
    let response = Response {
        code: 404,
        message: String::from("Not Found"),
        headers: StringMap::new(),
        body: String::from("gone"),
    };
    assert_eq!(response.to_string(), "HTTP/1.1 404 Not Found\r\n\r\ngone");
}

#[test]
fn response_with_several_headers() {
    let response = Response {
        code: 301,
        message: String::from("Moved Permanently"),
        headers: map_of(&[("Location", "/new"), ("Content-Length", "0")]),
        body: String::new(),
    };
    assert_eq!(
        response.to_string(),
        "HTTP/1.1 301 Moved Permanently\r\nLocation: /new\nContent-Length: 0\r\n"
    );
}

#[test]
fn response_code_is_written_in_decimal() {
    for (code, text) in [
        (0u32, "0"),
        (7, "7"),
        (10, "10"),
        (99, "99"),
        (100, "100"),
        (1009, "1009"),
        (4294967295, "4294967295"),
    ] {
        let response = Response {
            code,
            message: String::from("m"),
            headers: StringMap::new(),
            body: String::new(),
        };
        assert_eq!(response.to_string(), format!("HTTP/1.1 {} m\r\n\r\n", text));
    }
}

#[test]
fn ambiguous_targets_are_not_read_back() {
    let with_ampersand = Uri { path: String::from("/"), query_params: map_of(&[("a&b", "1")]) };
    assert_eq!(with_ampersand.to_string(), "/?a&b=1");
    assert!(Uri::from_str(&with_ampersand.to_string()).is_err());

    let with_equals = Uri { path: String::from("/"), query_params: map_of(&[("a", "1=2")]) };
    assert!(Uri::from_str(&with_equals.to_string()).is_err());

    let with_both = Uri { path: String::from("/"), query_params: map_of(&[("a", "1&b=2")]) };
    let read = Uri::from_str(&with_both.to_string()).unwrap();
    assert_ne!(read, with_both);
    assert_eq!(read.query_params.len(), 2);

    let with_question = Uri { path: String::from("/a?b=c"), query_params: StringMap::new() };
    let read = Uri::from_str(&with_question.to_string()).unwrap();
    assert_ne!(read, with_question);
    assert_eq!(read.path, "/a");
}

#[test]
fn ambiguous_requests_are_not_read_back() {
    let build = |path: &str, headers: &[(&str, &str)]| Request {
        method: Method::Post,
        uri: Uri { path: String::from(path), query_params: StringMap::new() },
        headers: map_of(headers),
        body: String::from("body"),
    };
    let reads_back = |request: &Request| match Request::from_str(&request.to_string()) {
        Ok(read) => read == *request,
        Err(_) => false,
    };
    assert!(reads_back(&build("/", &[("A", "b")])));
    assert!(reads_back(&build("/", &[("A", "b\r")])));
    assert!(reads_back(&build("/", &[("A:", " b")])));
    // An empty target, a space or a line break in the target.
    assert!(!reads_back(&build("", &[("A", "b")])));
    assert!(!reads_back(&build("/a b", &[("A", "b")])));
    assert!(!reads_back(&build("/a\r\nb", &[("A", "b")])));
    // No header entry, a line feed or `: ` in a key or a value.
    assert!(!reads_back(&build("/", &[])));
    assert!(!reads_back(&build("/", &[("A\nB", "c")])));
    assert!(!reads_back(&build("/", &[("A", "b\nc")])));
    assert!(!reads_back(&build("/", &[("A: B", "c")])));
    assert!(!reads_back(&build("/", &[("A", "b: c")])));
    // A line break in the header block: `\r` before the line feed between entries.
    assert!(!reads_back(&build("/", &[("A", "b\r"), ("C", "d")])));
}
