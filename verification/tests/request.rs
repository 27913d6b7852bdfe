use tictactoe::request::{parse_headers, split_header, Method, MethodRef, ParseError, Request};

fn path_of(request: &Request) -> (&'static str, String) {
    match request.method.as_ref() {
        MethodRef::Get(path) => ("GET", path.to_string()),
        MethodRef::Post(path) => ("POST", path.to_string()),
    }
}

fn pairs(headers: &[(&str, &str)]) -> Vec<(String, String)> {
    headers.iter().map(|(name, value)| (name.to_string(), value.to_string())).collect()
}

fn wire(method: &str, path: &str, protocol: &str, headers: &[(&str, &str)], body: &str) -> String {
    let mut text = format!("{} {} {}\r\n", method, path, protocol);
    for (name, value) in headers {
        text.push_str(&format!("{}: {}\r\n", name, value));
    }
    text.push_str("\r\n");
    text.push_str(body);
    text
}

#[test]
fn parses_get_with_one_header() {
    let request = Request::from_string("GET / HTTP/1.1\r\nHost: x\r\n\r\n").unwrap();
    match request.method.as_ref() {
        MethodRef::Get(path) => assert_eq!(path, "/"),
        MethodRef::Post(_) => panic!("expected GET"),
    }
    assert_eq!(request.protocol, "HTTP/1.1");
    assert_eq!(request.headers, vec![("Host".to_string(), "x".to_string())]);
}

#[test]
fn refuses_unknown_method() {
    let result = Request::from_string("FOO / HTTP/1.1\r\n\r\n");
    assert!(matches!(result, Err(ParseError::UnsupportedMethod)));
}

#[test]
fn parses_post_with_path() {
    let request = Request::from_string("POST /submit HTTP/1.1\r\n\r\n").unwrap();
    assert_eq!(path_of(&request), ("POST", "/submit".to_string()));
    assert_eq!(request.protocol, "HTTP/1.1");
    assert!(request.headers.is_empty());
}

#[test]
fn empty_input_is_missing_method() {
    assert!(matches!(Request::from_string(""), Err(ParseError::MissingMethod)));
}

#[test]
fn request_line_of_one_token_is_missing_path() {
    assert!(matches!(Request::from_string("GET"), Err(ParseError::MissingPath)));
    assert!(matches!(Request::from_string("GET\r\nHost: x\r\n\r\n"), Err(ParseError::MissingPath)));
}

#[test]
fn request_line_of_two_tokens_is_missing_protocol() {
    assert!(matches!(Request::from_string("GET /"), Err(ParseError::MissingProtocol)));
    assert!(matches!(Request::from_string("GET /\r\n\r\n"), Err(ParseError::MissingProtocol)));
}

#[test]
fn blank_request_line_is_missing_path() {
    assert!(matches!(Request::from_string("\r\n"), Err(ParseError::MissingPath)));
    assert!(matches!(Request::from_string("\n"), Err(ParseError::MissingPath)));
}

#[test]
fn tokens_are_counted_before_the_method_is_matched() {
    assert!(matches!(Request::from_string("FOO"), Err(ParseError::MissingPath)));
    assert!(matches!(Request::from_string("FOO /"), Err(ParseError::MissingProtocol)));
    assert!(matches!(Request::from_string("FOO / HTTP/1.1"), Err(ParseError::UnsupportedMethod)));
}

#[test]
fn method_is_matched_with_case() {
    assert!(matches!(
        Request::from_string("get / HTTP/1.1\r\n\r\n"),
        Err(ParseError::UnsupportedMethod)
    ));
    assert!(matches!(
        Request::from_string("Post / HTTP/1.1\r\n\r\n"),
        Err(ParseError::UnsupportedMethod)
    ));
}

#[test]
fn every_other_method_token_is_unsupported() {
    for token in ["", "PUT", "DELETE", "HEAD", "GE", "GETT", "POS", "POSTS", "G\u{e9}T", "GET\t"] {
        let text = format!("{} /index HTTP/1.1\r\nHost: x\r\n\r\n", token);
        assert!(
            matches!(Request::from_string(&text), Err(ParseError::UnsupportedMethod)),
            "token {:?}",
            token
        );
    }
}

#[test]
fn unsupported_method_comes_before_malformed_header() {
    let result = Request::from_string("PUT / HTTP/1.1\r\nno separator\r\n\r\n");
    assert!(matches!(result, Err(ParseError::UnsupportedMethod)));
}

#[test]
fn adjacent_spaces_give_empty_tokens() {
    let request = Request::from_string("GET  HTTP/1.1\r\n\r\n").unwrap();
    assert_eq!(path_of(&request), ("GET", "".to_string()));
    assert_eq!(request.protocol, "HTTP/1.1");
    assert!(matches!(Request::from_string(" / HTTP/1.1"), Err(ParseError::UnsupportedMethod)));
}

#[test]
fn tokens_after_the_third_are_not_read() {
    let request = Request::from_string("GET / HTTP/1.1 extra tokens\r\n\r\n").unwrap();
    assert_eq!(path_of(&request), ("GET", "/".to_string()));
    assert_eq!(request.protocol, "HTTP/1.1");
}

#[test]
fn malformed_header_carries_the_line() {
    match Request::from_string("GET / HTTP/1.1\r\nHost x\r\n\r\n") {
        Err(ParseError::MalformedHeader(line)) => assert_eq!(line, "Host x"),
        other => panic!("unexpected {:?}", other),
    }
}

#[test]
fn header_with_two_separators_is_malformed() {
    match Request::from_string("GET / HTTP/1.1\r\nA: b: c\r\n\r\n") {
        Err(ParseError::MalformedHeader(line)) => assert_eq!(line, "A: b: c"),
        other => panic!("unexpected {:?}", other),
    }
}

#[test]
fn header_without_space_after_colon_is_malformed() {
    match Request::from_string("GET / HTTP/1.1\r\nHost:x\r\n\r\n") {
        Err(ParseError::MalformedHeader(line)) => assert_eq!(line, "Host:x"),
        other => panic!("unexpected {:?}", other),
    }
}

#[test]
fn first_malformed_header_is_reported() {
    let text = "GET / HTTP/1.1\r\nA: 1\r\nbad one\r\nB: 2\r\nbad two\r\n\r\n";
    match Request::from_string(text) {
        Err(ParseError::MalformedHeader(line)) => assert_eq!(line, "bad one"),
        other => panic!("unexpected {:?}", other),
    }
}

#[test]
fn lines_after_the_blank_line_are_not_read() {
    let text = "GET / HTTP/1.1\r\nA: 1\r\n\r\nthis is: not: a header\r\nnor this";
    let request = Request::from_string(text).unwrap();
    assert_eq!(request.headers, pairs(&[("A", "1")]));
}

#[test]
fn zero_headers_with_blank_line() {
    let request = Request::from_string("GET / HTTP/1.1\r\n\r\n").unwrap();
    assert!(request.headers.is_empty());
}

#[test]
fn zero_headers_at_end_of_text() {
    let request = Request::from_string("GET / HTTP/1.1").unwrap();
    assert!(request.headers.is_empty());
    assert_eq!(request.protocol, "HTTP/1.1");
    let request = Request::from_string("GET / HTTP/1.1\r\n").unwrap();
    assert!(request.headers.is_empty());
}

#[test]
fn headers_may_end_with_the_text() {
    let request = Request::from_string("GET / HTTP/1.1\r\nA: 1\r\nB: 2").unwrap();
    assert_eq!(request.headers, pairs(&[("A", "1"), ("B", "2")]));
}

#[test]
fn headers_keep_order_case_and_duplicates() {
    let text = "GET / HTTP/1.1\r\nb: 2\r\nA: 1\r\nb: 3\r\nB: 2\r\nb: 2\r\n\r\n";
    let request = Request::from_string(text).unwrap();
    assert_eq!(
        request.headers,
        pairs(&[("b", "2"), ("A", "1"), ("b", "3"), ("B", "2"), ("b", "2")])
    );
}

#[test]
fn header_name_or_value_may_be_empty() {
    let request = Request::from_string("GET / HTTP/1.1\r\nHost: \r\n: v\r\n: \r\n\r\n").unwrap();
    assert_eq!(request.headers, pairs(&[("Host", ""), ("", "v"), ("", "")]));
}

#[test]
fn header_value_keeps_colons_and_spaces() {
    let text = "GET / HTTP/1.1\r\nHost: 127.0.0.1:7878\r\nX:: y\r\nUser-Agent:  a b \r\n\r\n";
    let request = Request::from_string(text).unwrap();
    assert_eq!(
        request.headers,
        pairs(&[("Host", "127.0.0.1:7878"), ("X:", "y"), ("User-Agent", " a b ")])
    );
}

#[test]
fn line_feed_alone_ends_a_line() {
    let request = Request::from_string("GET / HTTP/1.1\nHost: x\n\nbody").unwrap();
    assert_eq!(path_of(&request), ("GET", "/".to_string()));
    assert_eq!(request.protocol, "HTTP/1.1");
    assert_eq!(request.headers, pairs(&[("Host", "x")]));
}

#[test]
fn only_one_carriage_return_belongs_to_the_terminator() {
    let request = Request::from_string("GET / HTTP/1.1\r\r\nA: v\r\r\n\r\n").unwrap();
    assert_eq!(request.protocol, "HTTP/1.1\r");
    assert_eq!(request.headers, pairs(&[("A", "v\r")]));
}

#[test]
fn carriage_return_without_line_feed_stays() {
    let request = Request::from_string("GET / HTTP/1.1\r").unwrap();
    assert_eq!(request.protocol, "HTTP/1.1\r");
}

#[test]
fn text_outside_ascii_is_kept() {
    let text = "GET /caf\u{e9}/\u{65e5}\u{672c} HTTP/1.1\r\nX-N\u{e4}me: \u{1f600} ok\r\n\r\n";
    let request = Request::from_string(text).unwrap();
    assert_eq!(path_of(&request), ("GET", "/caf\u{e9}/\u{65e5}\u{672c}".to_string()));
    assert_eq!(request.headers, pairs(&[("X-N\u{e4}me", "\u{1f600} ok")]));
}

#[test]
fn full_browser_request() {
    let text = "GET /favicon.ico HTTP/1.1\r\nHost: 127.0.0.1:7878\r\nConnection: keep-alive\r\n\
sec-ch-ua: \"Chromium\";v=\"112\", \"Google Chrome\";v=\"112\", \"Not:A-Brand\";v=\"99\"\r\n\
sec-ch-ua-mobile: ?0\r\nAccept: image/avif,image/webp,*/*;q=0.8\r\n\r\n";
    let request = Request::from_string(text).unwrap();
    assert_eq!(path_of(&request), ("GET", "/favicon.ico".to_string()));
    assert_eq!(request.headers.len(), 5);
    assert_eq!(request.headers[0], ("Host".to_string(), "127.0.0.1:7878".to_string()));
    assert_eq!(
        request.headers[2].1,
        "\"Chromium\";v=\"112\", \"Google Chrome\";v=\"112\", \"Not:A-Brand\";v=\"99\""
    );
    assert_eq!(request.headers[4], ("Accept".to_string(), "image/avif,image/webp,*/*;q=0.8".to_string()));
}

#[test]
fn wire_form_parses_back() {
    let cases: Vec<(&str, &str, &str, Vec<(&str, &str)>, &str)> = vec![
        ("GET", "/", "HTTP/1.1", vec![], ""),
        ("POST", "/a/b?c=d", "HTTP/1.0", vec![("Host", "example.org")], "body: text\r\n"),
        ("GET", "", "", vec![("", ""), ("a", "b"), ("a", "b")], "x"),
        ("POST", "/\u{e9}", "HTTP/2", vec![("X:", " y"), ("K", "v:"), ("Z", "\r")], "\r\n\r\n"),
    ];
    for (method, path, protocol, headers, body) in cases {
        let text = wire(method, path, protocol, &headers, body);
        let request = Request::from_string(&text).unwrap();
        assert_eq!(path_of(&request), (method, path.to_string()));
        assert_eq!(request.protocol, protocol);
        assert_eq!(request.headers, pairs(&headers));
    }
}

#[test]
fn one_header_for_each_header_line() {
    for count in [0usize, 1, 2, 7, 40] {
        let names: Vec<String> = (0..count).map(|i| format!("Name-{}", i)).collect();
        let headers: Vec<(&str, &str)> = names.iter().map(|n| (n.as_str(), "value")).collect();
        let text = wire("GET", "/", "HTTP/1.1", &headers, "Not: counted\r\n");
        let request = Request::from_string(&text).unwrap();
        assert_eq!(request.headers.len(), count);
    }
}

#[test]
fn bytes_that_are_not_utf8_are_refused() {
    assert!(matches!(Request::parse(&[0xff, 0xfe]), Err(ParseError::InvalidUtf8)));
    assert!(matches!(
        Request::parse(b"GET / HTTP/1.1\r\nX: \xc3\r\n\r\n"),
        Err(ParseError::InvalidUtf8)
    ));
    assert!(matches!(Request::parse(b"GET /\xed\xa0\x80 HTTP/1.1"), Err(ParseError::InvalidUtf8)));
    assert!(matches!(Request::parse(b"FOO\xc0\x80"), Err(ParseError::InvalidUtf8)));
}

#[test]
fn bytes_that_are_utf8_are_parsed() {
    let request = Request::parse(b"GET /\xc3\xa9 HTTP/1.1\r\nHost: x\r\n\r\n").unwrap();
    assert_eq!(path_of(&request), ("GET", "/\u{e9}".to_string()));
    assert_eq!(request.protocol, "HTTP/1.1");
    assert_eq!(request.headers, pairs(&[("Host", "x")]));
    assert!(matches!(Request::parse(b""), Err(ParseError::MissingMethod)));
    assert!(matches!(Request::parse(b"FOO / HTTP/1.1\r\n\r\n"), Err(ParseError::UnsupportedMethod)));
}

#[test]
fn zero_padding_after_the_blank_line_is_not_read() {
    let mut buffer = [0u8; 64];
    let text = b"GET / HTTP/1.1\r\nHost: x\r\n\r\n";
    buffer[..text.len()].copy_from_slice(text);
    let request = Request::parse(&buffer).unwrap();
    assert_eq!(request.headers, pairs(&[("Host", "x")]));
}

#[test]
fn zero_padding_in_place_of_the_blank_line_is_a_malformed_header() {
    let mut buffer = [0u8; 32];
    let text = b"GET / HTTP/1.1\r\nHost: x\r\n";
    buffer[..text.len()].copy_from_slice(text);
    match Request::parse(&buffer) {
        Err(ParseError::MalformedHeader(line)) => assert_eq!(line, "\0".repeat(32 - text.len())),
        other => panic!("unexpected {:?}", other),
    }
}

#[test]
fn method_from_strings() {
    assert!(matches!(Method::from_strings("GET", "/a"), Ok(Method::Get(path)) if path == "/a"));
    assert!(matches!(Method::from_strings("POST", ""), Ok(Method::Post(path)) if path.is_empty()));
    assert!(matches!(Method::from_strings("PATCH", "/"), Err(ParseError::UnsupportedMethod)));
    assert!(matches!(Method::from_strings("", "/"), Err(ParseError::UnsupportedMethod)));
}

#[test]
fn method_as_ref_borrows_the_path() {
    let method = Method::Post("/form".to_string());
    assert!(matches!(method.as_ref(), MethodRef::Post("/form")));
    let method = Method::Get("/".to_string());
    assert!(matches!(method.as_ref(), MethodRef::Get("/")));
}

#[test]
fn split_header_takes_name_and_value() {
    assert_eq!(split_header("Host: x"), Some(("Host", "x")));
    assert_eq!(split_header(": "), Some(("", "")));
    assert_eq!(split_header("a:: b"), Some(("a:", "b")));
    assert_eq!(split_header("a:  b"), Some(("a", " b")));
    assert_eq!(split_header("\u{e9}: \u{e8}"), Some(("\u{e9}", "\u{e8}")));
    assert_eq!(split_header(""), None);
    assert_eq!(split_header(":"), None);
    assert_eq!(split_header("a:b"), None);
    assert_eq!(split_header("a : b"), Some(("a ", "b")));
    assert_eq!(split_header("a: b: "), None);
    assert_eq!(split_header("a: : b"), None);
}

#[test]
fn parse_headers_stops_at_the_blank_line() {
    let headers = parse_headers("A: 1\r\nB: 2\r\n\r\nC: 3\r\n").unwrap();
    assert_eq!(headers, pairs(&[("A", "1"), ("B", "2")]));
    assert!(parse_headers("").unwrap().is_empty());
    assert!(parse_headers("\r\nA: 1").unwrap().is_empty());
    assert!(matches!(parse_headers("A: 1\nB\n"), Err(ParseError::MalformedHeader(line)) if line == "B"));
}

#[test]
fn error_messages() {
    assert_eq!(ParseError::InvalidUtf8.message(), "request is not valid UTF-8");
    assert_eq!(ParseError::MissingMethod.message(), "failed to get first line");
    assert_eq!(ParseError::MissingPath.message(), "failed to get path");
    assert_eq!(ParseError::MissingProtocol.message(), "failed to get protocol");
    assert_eq!(ParseError::UnsupportedMethod.message(), "did not match");
    assert_eq!(
        ParseError::MalformedHeader("Host x".to_string()).message(),
        "failed to parse previous line: 'Host x'"
    );
}
