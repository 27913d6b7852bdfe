//! The request parser: from the bytes of one request to its method, path,
//! protocol version and headers.
//!
//! The grammar is stated over bytes. A request is a request line followed by
//! header lines, closed by a blank line or by the end of the text. Lines end
//! with CRLF; a line feed alone is accepted as a terminator too. Nothing
//! after the blank line is read.

use vstd::prelude::*;
use vstd::string::*;
use vstd::utf8::*;
use crate::text::{
    after_first_line, find_pair, first_line, lemma_after_first_line_shorter, lemma_pair_position,
    lemma_split_on, next_line, pair_position, same_bytes, split_around, split_on, split_once,
    COLON, SP,
};

verus! {

/// The request method, with the request target it was sent for.
#[derive(Debug)]
pub enum Method {
    Get(String),
    Post(String),
}

/// A borrowed form of [`Method`], for matching on the path.
pub enum MethodRef<'a> {
    Get(&'a str),
    Post(&'a str),
}

/// What a method is, with the path as text.
pub enum MethodView {
    Get(Seq<char>),
    Post(Seq<char>),
}

impl View for Method {
    type V = MethodView;

    open spec fn view(&self) -> MethodView {
        match self {
            Method::Get(path) => MethodView::Get(path@),
            Method::Post(path) => MethodView::Post(path@),
        }
    }
}

impl<'a> View for MethodRef<'a> {
    type V = MethodView;

    open spec fn view(&self) -> MethodView {
        match self {
            MethodRef::Get(path) => MethodView::Get(path@),
            MethodRef::Post(path) => MethodView::Post(path@),
        }
    }
}

/// Why a request could not be parsed.
#[derive(Debug)]
pub enum ParseError {
    /// The bytes are not UTF-8 text.
    InvalidUtf8,
    /// The text is empty: there is no request line.
    MissingMethod,
    /// The request line ends after the method.
    MissingPath,
    /// The request line ends after the path.
    MissingProtocol,
    /// The method is neither `GET` nor `POST`.
    UnsupportedMethod,
    /// A header line is not `name: value`; carries the line.
    MalformedHeader(String),
}

/// What a parse error is, with the offending line as text.
pub enum ParseErrorView {
    InvalidUtf8,
    MissingMethod,
    MissingPath,
    MissingProtocol,
    UnsupportedMethod,
    MalformedHeader(Seq<char>),
}

impl View for ParseError {
    type V = ParseErrorView;

    open spec fn view(&self) -> ParseErrorView {
        match self {
            ParseError::InvalidUtf8 => ParseErrorView::InvalidUtf8,
            ParseError::MissingMethod => ParseErrorView::MissingMethod,
            ParseError::MissingPath => ParseErrorView::MissingPath,
            ParseError::MissingProtocol => ParseErrorView::MissingProtocol,
            ParseError::UnsupportedMethod => ParseErrorView::UnsupportedMethod,
            ParseError::MalformedHeader(line) => ParseErrorView::MalformedHeader(line@),
        }
    }
}

/// What a parse error says, in words.
pub open spec fn message_of(error: ParseErrorView) -> Seq<char> {
    match error {
        ParseErrorView::InvalidUtf8 => "request is not valid UTF-8"@,
        ParseErrorView::MissingMethod => "failed to get first line"@,
        ParseErrorView::MissingPath => "failed to get path"@,
        ParseErrorView::MissingProtocol => "failed to get protocol"@,
        ParseErrorView::UnsupportedMethod => "did not match"@,
        ParseErrorView::MalformedHeader(line) => "failed to parse previous line: '"@ + line + "'"@,
    }
}

impl ParseError {
    /// What the error says, in words.
    pub fn message(&self) -> (s: String)
        ensures
            s@ == message_of(self@),
    {
        match self {
            ParseError::InvalidUtf8 => "request is not valid UTF-8".to_owned(),
            ParseError::MissingMethod => "failed to get first line".to_owned(),
            ParseError::MissingPath => "failed to get path".to_owned(),
            ParseError::MissingProtocol => "failed to get protocol".to_owned(),
            ParseError::UnsupportedMethod => "did not match".to_owned(),
            ParseError::MalformedHeader(line) => {
                let mut s: String = "failed to parse previous line: '".to_owned();
                s.append(line.as_str());
                s.append("'");
                s
            },
        }
    }
}

/// A parsed request. Headers stand in the order in which they arrived, with
/// their names as sent and duplicates kept.
#[derive(Debug)]
pub struct Request {
    pub method: Method,
    pub protocol: String,
    pub headers: Vec<(String, String)>,
}

/// What a request is: its fields as text.
pub struct RequestView {
    pub method: MethodView,
    pub protocol: Seq<char>,
    pub headers: Seq<(Seq<char>, Seq<char>)>,
}

/// A list of headers as text.
pub open spec fn headers_view(headers: Seq<(String, String)>) -> Seq<(Seq<char>, Seq<char>)> {
    Seq::new(headers.len(), |i: int| (headers[i].0@, headers[i].1@))
}

impl View for Request {
    type V = RequestView;

    open spec fn view(&self) -> RequestView {
        RequestView {
            method: self.method@,
            protocol: self.protocol@,
            headers: headers_view(self.headers@),
        }
    }
}

/// The method that a method token and a path token stand for, if the token is supported.
pub open spec fn method_of(token: Seq<u8>, path: Seq<u8>) -> Option<MethodView> {
    if token == "GET".spec_bytes() {
        Some(MethodView::Get(decode_utf8(path)))
    } else if token == "POST".spec_bytes() {
        Some(MethodView::Post(decode_utf8(path)))
    } else {
        None
    }
}

/// A header line is well formed when `": "` occurs in it exactly once.
pub open spec fn well_formed_header(line: Seq<u8>) -> bool {
    let i = pair_position(line, COLON, SP);
    &&& 0 <= i < line.len()
    &&& pair_position(line.skip(i + 2), COLON, SP) == line.skip(i + 2).len()
}

/// The name of a well-formed header line: what stands before `": "`.
pub open spec fn header_name(line: Seq<u8>) -> Seq<u8> {
    line.take(pair_position(line, COLON, SP))
}

/// The value of a well-formed header line: what stands after `": "`.
pub open spec fn header_value(line: Seq<u8>) -> Seq<u8> {
    line.skip(pair_position(line, COLON, SP) + 2)
}

/// The header that a well-formed header line stands for.
pub open spec fn header_of(line: Seq<u8>) -> (Seq<char>, Seq<char>) {
    (decode_utf8(header_name(line)), decode_utf8(header_value(line)))
}

/// The header lines at the start of `text`: its lines up to the first blank
/// line, or up to the end of the text where no line is blank.
pub open spec fn header_lines(text: Seq<u8>) -> Seq<Seq<u8>>
    decreases text.len(),
{
    if text.len() == 0 {
        Seq::empty()
    } else {
        let line = first_line(text);
        if line.len() == 0 {
            Seq::empty()
        } else {
            seq![line] + header_lines(after_first_line(text))
        }
    }
}

/// Index of the first line that is not a well-formed header, or `lines.len()` when all are.
pub open spec fn first_malformed(lines: Seq<Seq<u8>>) -> int
    decreases lines.len(),
{
    if lines.len() == 0 || !well_formed_header(lines[0]) {
        0
    } else {
        1 + first_malformed(lines.drop_first())
    }
}

/// What a list of header lines parses to: the headers in order, or the
/// first line that is malformed.
pub open spec fn parse_header_lines(lines: Seq<Seq<u8>>) -> Result<
    Seq<(Seq<char>, Seq<char>)>,
    ParseErrorView,
> {
    let bad = first_malformed(lines);
    if 0 <= bad < lines.len() {
        Err(ParseErrorView::MalformedHeader(decode_utf8(lines[bad])))
    } else {
        Ok(Seq::new(lines.len(), |i: int| header_of(lines[i])))
    }
}

/// What UTF-8 text parses to.
///
/// The request line is cut at single spaces; its first three tokens are
/// method, path and protocol, and further tokens are not read. The checks
/// come in this order: a request line must be there, then a path, then a
/// protocol; the method must be supported; each header line must be well
/// formed.
pub open spec fn parse_text(text: Seq<u8>) -> Result<RequestView, ParseErrorView> {
    let tokens = split_on(first_line(text), SP);
    if text.len() == 0 {
        Err(ParseErrorView::MissingMethod)
    } else if tokens.len() < 2 {
        Err(ParseErrorView::MissingPath)
    } else if tokens.len() < 3 {
        Err(ParseErrorView::MissingProtocol)
    } else {
        match method_of(tokens[0], tokens[1]) {
            None => Err(ParseErrorView::UnsupportedMethod),
            Some(method) => match parse_header_lines(header_lines(after_first_line(text))) {
                Err(e) => Err(e),
                Ok(headers) => Ok(
                    RequestView { method, protocol: decode_utf8(tokens[2]), headers },
                ),
            },
        }
    }
}

/// What the bytes of a request parse to: bytes that are not UTF-8 are
/// refused, and UTF-8 text parses as `parse_text` says.
pub open spec fn parse_request(raw: Seq<u8>) -> Result<RequestView, ParseErrorView> {
    if valid_utf8(raw) {
        parse_text(raw)
    } else {
        Err(ParseErrorView::InvalidUtf8)
    }
}

/// `first_malformed` is in range, every line before it is well formed, and
/// the line at it is not, unless it is the length.
pub proof fn lemma_first_malformed(lines: Seq<Seq<u8>>)
    ensures
        0 <= first_malformed(lines) <= lines.len(),
        forall|i: int| 0 <= i < first_malformed(lines) ==> well_formed_header(#[trigger] lines[i]),
        first_malformed(lines) < lines.len() ==> !well_formed_header(lines[first_malformed(lines)]),
    decreases lines.len(),
{
    if lines.len() == 0 || !well_formed_header(lines[0]) {
    } else {
        let rest = lines.drop_first();
        lemma_first_malformed(rest);
        assert forall|i: int| 0 <= i < first_malformed(lines) implies well_formed_header(
            #[trigger] lines[i],
        ) by {
            if i > 0 {
                assert(lines[i] == rest[i - 1]);
            }
        }
    }
}

/// An index with only well-formed lines before it, and a malformed line at
/// it unless it is the length, is `first_malformed`.
pub proof fn lemma_first_malformed_is(lines: Seq<Seq<u8>>, n: int)
    requires
        0 <= n <= lines.len(),
        forall|i: int| 0 <= i < n ==> well_formed_header(#[trigger] lines[i]),
        n < lines.len() ==> !well_formed_header(lines[n]),
    ensures
        first_malformed(lines) == n,
    decreases lines.len(),
{
    if n > 0 {
        let rest = lines.drop_first();
        assert forall|i: int| 0 <= i < n - 1 implies well_formed_header(#[trigger] rest[i]) by {
            assert(rest[i] == lines[i + 1]);
        }
        lemma_first_malformed_is(rest, n - 1);
    }
}

/// A request line of three or more tokens whose first token is neither
/// `GET` nor `POST` is refused as `UnsupportedMethod`, and as nothing else,
/// whatever the other tokens and the lines after it hold.
pub proof fn lemma_unsupported_method(text: Seq<u8>)
    requires
        split_on(first_line(text), SP).len() >= 3,
        split_on(first_line(text), SP)[0] != "GET".spec_bytes(),
        split_on(first_line(text), SP)[0] != "POST".spec_bytes(),
    ensures
        parse_text(text) == Err::<RequestView, ParseErrorView>(ParseErrorView::UnsupportedMethod),
        valid_utf8(text) ==> parse_request(text) == Err::<RequestView, ParseErrorView>(
            ParseErrorView::UnsupportedMethod,
        ),
{
}

/// Where text parses, the request has one header for each line between the
/// request line and the blank line that closes the headers: every one of
/// those lines is a well-formed header line, and header `i` is what line `i`
/// holds. Bytes that parse are text that parses to the same request.
pub proof fn lemma_header_count(text: Seq<u8>)
    requires
        parse_text(text) is Ok,
    ensures
        ({
            let request = parse_text(text)->Ok_0;
            let lines = header_lines(after_first_line(text));
            &&& request.headers.len() == lines.len()
            &&& forall|i: int|
                0 <= i < lines.len() ==> well_formed_header(#[trigger] lines[i])
                    && request.headers[i] == header_of(lines[i])
        }),
        parse_request(text) is Ok ==> parse_request(text) == parse_text(text),
{
    lemma_first_malformed(header_lines(after_first_line(text)));
}

impl Method {
    /// Makes a method from the first two tokens of a request line. The
    /// method token is matched exactly, with upper and lower case distinct.
    pub fn from_strings(method: &str, path: &str) -> (r: Result<Method, ParseError>)
        ensures
            match r {
                Ok(m) => method_of(method.spec_bytes(), path.spec_bytes()) == Some(m@),
                Err(e) => e@ == ParseErrorView::UnsupportedMethod && method_of(
                    method.spec_bytes(),
                    path.spec_bytes(),
                ) is None,
            },
    {
        broadcast use encode_utf8_decode_utf8;

        if same_bytes(method.as_bytes(), "GET".as_bytes()) {
            Ok(Method::Get(path.to_owned()))
        } else if same_bytes(method.as_bytes(), "POST".as_bytes()) {
            Ok(Method::Post(path.to_owned()))
        } else {
            Err(ParseError::UnsupportedMethod)
        }
    }

    /// Borrows the method, so that a caller can match on the path as a `&str`.
    pub fn as_ref<'a>(&'a self) -> (r: MethodRef<'a>)
        ensures
            r@ == self@,
    {
        match self {
            Method::Get(s) => MethodRef::Get(s.as_str()),
            Method::Post(s) => MethodRef::Post(s.as_str()),
        }
    }
}

/// Splits a header line into name and value, if it is well formed.
pub fn split_header(line: &str) -> (r: Option<(&str, &str)>)
    ensures
        match r {
            Some((name, value)) => {
                &&& well_formed_header(line.spec_bytes())
                &&& name.spec_bytes() == header_name(line.spec_bytes())
                &&& value.spec_bytes() == header_value(line.spec_bytes())
            },
            None => !well_formed_header(line.spec_bytes()),
        },
{
    let bytes = line.as_bytes();
    let i: usize = find_pair(bytes, COLON, SP);
    proof {
        lemma_pair_position(bytes@, COLON, SP);
    }
    if i >= bytes.len() {
        return None;
    }
    let (name, after_colon) = split_around(line, i);
    let (_, value) = split_around(after_colon, 0);
    assert(value.spec_bytes() =~= bytes@.skip(i + 2));
    let rest = value.as_bytes();
    let j: usize = find_pair(rest, COLON, SP);
    proof {
        lemma_pair_position(rest@, COLON, SP);
    }
    if j < rest.len() {
        None
    } else {
        Some((name, value))
    }
}

/// Parses the header lines at the start of `text`, up to the first blank
/// line or the end of the text.
pub fn parse_headers(text: &str) -> (r: Result<Vec<(String, String)>, ParseError>)
    ensures
        match r {
            Ok(headers) => parse_header_lines(header_lines(text.spec_bytes())) == Ok::<
                Seq<(Seq<char>, Seq<char>)>,
                ParseErrorView,
            >(headers_view(headers@)),
            Err(e) => parse_header_lines(header_lines(text.spec_bytes())) == Err::<
                Seq<(Seq<char>, Seq<char>)>,
                ParseErrorView,
            >(e@),
        },
{
    let ghost lines = header_lines(text.spec_bytes());
    let mut rest: &str = text;
    let mut headers: Vec<(String, String)> = Vec::new();
    loop
        invariant
            lines == header_lines(text.spec_bytes()),
            0 <= headers.len() <= lines.len(),
            header_lines(rest.spec_bytes()) == lines.skip(headers.len() as int),
            forall|i: int| 0 <= i < headers.len() ==> well_formed_header(#[trigger] lines[i]),
            forall|i: int|
                0 <= i < headers.len() ==> (#[trigger] headers@[i]).0@ == header_of(lines[i]).0
                    && headers@[i].1@ == header_of(lines[i]).1,
        ensures
            headers.len() == lines.len(),
        decreases rest.spec_bytes().len(),
    {
        let ghost done = headers.len() as int;
        assert(lines.skip(done).len() == lines.len() - done);
        if rest.as_bytes().len() == 0 {
            break ;
        }
        let (line, next) = next_line(rest);
        if line.as_bytes().len() == 0 {
            break ;
        }
        proof {
            lemma_after_first_line_shorter(rest.spec_bytes());
            let here = header_lines(rest.spec_bytes());
            assert(here == seq![line.spec_bytes()] + header_lines(next.spec_bytes()));
            assert(lines[done] == here[0]);
            assert(header_lines(next.spec_bytes()) =~= here.skip(1));
            assert(here.skip(1) =~= lines.skip(done + 1));
        }
        match split_header(line) {
            Some((name, value)) => {
                proof {
                    encode_utf8_decode_utf8(name@);
                    encode_utf8_decode_utf8(value@);
                }
                headers.push((name.to_owned(), value.to_owned()));
            },
            None => {
                proof {
                    encode_utf8_decode_utf8(line@);
                    lemma_first_malformed_is(lines, done);
                }
                return Err(ParseError::MalformedHeader(line.to_owned()));
            },
        }
        rest = next;
    }
    proof {
        lemma_first_malformed_is(lines, lines.len() as int);
        assert(headers_view(headers@) =~= Seq::new(lines.len(), |i: int| header_of(lines[i])));
    }
    Ok(headers)
}

impl Request {
    /// Parses the bytes of a request, as they were read off a connection.
    ///
    /// Bytes that are not UTF-8 give `InvalidUtf8`; UTF-8 text is parsed as
    /// [`Request::from_string`] parses it.
    pub fn parse(raw: &[u8]) -> (r: Result<Request, ParseError>)
        ensures
            match r {
                Ok(request) => parse_request(raw@) == Ok::<RequestView, ParseErrorView>(request@),
                Err(e) => parse_request(raw@) == Err::<RequestView, ParseErrorView>(e@),
            },
    {
        match core::str::from_utf8(raw) {
            Ok(text) => Request::from_string(text),
            Err(_) => Err(ParseError::InvalidUtf8),
        }
    }

    /// Parses the text of a request.
    ///
    /// Empty text has no request line and gives `MissingMethod`. A request
    /// line of one token gives `MissingPath`, one of two tokens
    /// `MissingProtocol`; tokens after the third are not read. A method
    /// other than `GET` or `POST` gives `UnsupportedMethod`. The lines after
    /// the request line, up to the first blank line or the end of the text,
    /// are the headers; the first of them that is not `name: value` gives
    /// `MalformedHeader` with that line.
    pub fn from_string(string: &str) -> (r: Result<Request, ParseError>)
        ensures
            match r {
                Ok(request) => parse_text(string.spec_bytes()) == Ok::<RequestView, ParseErrorView>(
                    request@,
                ),
                Err(e) => parse_text(string.spec_bytes()) == Err::<RequestView, ParseErrorView>(
                    e@,
                ),
            },
    {
        broadcast use encode_utf8_decode_utf8;

        if string.as_bytes().len() == 0 {
            return Err(ParseError::MissingMethod);
        }
        let (request_line, rest) = next_line(string);
        let ghost tokens = split_on(request_line.spec_bytes(), SP);
        let (method, after_method) = split_once(request_line, SP);
        proof {
            lemma_split_on(request_line.spec_bytes(), SP);
        }
        let after_method = match after_method {
            Some(t) => t,
            None => {
                return Err(ParseError::MissingPath);
            },
        };
        let (path, after_path) = split_once(after_method, SP);
        proof {
            lemma_split_on(after_method.spec_bytes(), SP);
        }
        let after_path = match after_path {
            Some(t) => t,
            None => {
                return Err(ParseError::MissingProtocol);
            },
        };
        let (protocol, _) = split_once(after_path, SP);
        proof {
            lemma_split_on(after_path.spec_bytes(), SP);
            assert(tokens[0] == method.spec_bytes());
            assert(tokens[1] == path.spec_bytes());
            assert(tokens[2] == protocol.spec_bytes());
        }
        let method = match Method::from_strings(method, path) {
            Ok(m) => m,
            Err(e) => {
                return Err(e);
            },
        };
        let protocol = protocol.to_owned();
        match parse_headers(rest) {
            Ok(headers) => Ok(Request { method, protocol, headers }),
            Err(e) => Err(e),
        }
    }
}

} // verus!
