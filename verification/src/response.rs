//! The response model: a builder for status, content and content type, and
//! its serialization to the bytes that go on the wire.

use vstd::prelude::*;
use vstd::string::*;
use vstd::utf8::*;
use crate::request::{header_name, header_value, well_formed_header};
use crate::text::{lemma_pair_position_is, pair_at, COLON, SP};

verus! {

/// The media type of a response body.
pub enum ContentType {
    Html,
    Javascript,
    CSS,
    /// Any other media type, given as it is to be sent. It is not validated.
    Custom(String),
}

/// What a content type is, with a custom type as text.
pub enum ContentTypeView {
    Html,
    Javascript,
    CSS,
    Custom(Seq<char>),
}

impl View for ContentType {
    type V = ContentTypeView;

    open spec fn view(&self) -> ContentTypeView {
        match self {
            ContentType::Html => ContentTypeView::Html,
            ContentType::Javascript => ContentTypeView::Javascript,
            ContentType::CSS => ContentTypeView::CSS,
            ContentType::Custom(name) => ContentTypeView::Custom(name@),
        }
    }
}

/// The media type that a content type is sent as.
pub open spec fn media_type(content_type: ContentTypeView) -> Seq<char> {
    match content_type {
        ContentTypeView::Html => "text/html"@,
        ContentTypeView::Javascript => "text/javascript"@,
        ContentTypeView::CSS => "text/css"@,
        ContentTypeView::Custom(name) => name,
    }
}

impl ContentType {
    /// The media type as it is sent in the `Content-Type` header.
    pub fn to_string(&self) -> (s: String)
        ensures
            s@ == media_type(self@),
    {
        match self {
            ContentType::Html => "text/html".to_owned(),
            ContentType::Javascript => "text/javascript".to_owned(),
            ContentType::CSS => "text/css".to_owned(),
            ContentType::Custom(name) => name.clone(),
        }
    }
}

/// The ASCII digit for `d`, which is below ten.
pub open spec fn digit(d: nat) -> u8 {
    (0x30 + d) as u8
}

/// `n` in decimal digits, without leading zeros.
pub open spec fn decimal(n: nat) -> Seq<u8>
    decreases n,
{
    if n < 10 {
        seq![digit(n)]
    } else {
        decimal(n / 10).push(digit(n % 10))
    }
}

/// The number that a string of decimal digits denotes.
pub open spec fn decimal_value(digits: Seq<u8>) -> nat
    decreases digits.len(),
{
    if digits.len() == 0 {
        0
    } else {
        (10 * decimal_value(digits.drop_last()) + (digits.last() - 0x30)) as nat
    }
}

/// `decimal` gives at least one digit, and digits only.
pub proof fn lemma_decimal_digits(n: nat)
    ensures
        decimal(n).len() >= 1,
        forall|i: int| 0 <= i < decimal(n).len() ==> 0x30 <= #[trigger] decimal(n)[i] <= 0x39,
    decreases n,
{
    if n >= 10 {
        lemma_decimal_digits(n / 10);
    }
}

/// The digits that `decimal` gives for a number denote that number.
pub proof fn lemma_decimal_value(n: nat)
    ensures
        decimal_value(decimal(n)) == n,
    decreases n,
{
    if n < 10 {
        assert(decimal(n).drop_last() =~= Seq::<u8>::empty());
        assert(decimal_value(Seq::<u8>::empty()) == 0);
    } else {
        lemma_decimal_value(n / 10);
        assert(decimal(n).drop_last() =~= decimal(n / 10));
    }
}

/// The status that is sent where none was set.
pub open spec fn default_status() -> Seq<char> {
    "200 OK"@
}

/// The status that is sent: the one that was set, or the default.
pub open spec fn status_or_default(status: Option<Seq<char>>) -> Seq<char> {
    match status {
        Some(s) => s,
        None => default_status(),
    }
}

/// The `Content-Length` header line of a body, without its terminator. The
/// length is that of the body in bytes.
pub open spec fn content_length_line(content: Seq<char>) -> Seq<u8> {
    "Content-Length: ".spec_bytes() + decimal(encode_utf8(content).len())
}

/// The `Content-Length` line of a body is a well-formed header line named
/// `Content-Length`, and its value denotes, in decimal, the length of the
/// body in bytes: for text outside ASCII that is more than its number of
/// characters.
pub proof fn lemma_content_length(content: Seq<char>)
    ensures
        well_formed_header(content_length_line(content)),
        header_name(content_length_line(content)) == "Content-Length".spec_bytes(),
        decimal_value(header_value(content_length_line(content))) == encode_utf8(content).len(),
{
    let line = content_length_line(content);
    let prefix = "Content-Length: ".spec_bytes();
    let digits = decimal(encode_utf8(content).len());
    reveal_strlit("Content-Length: ");
    reveal_strlit("Content-Length");
    is_ascii_chars_encode_utf8("Content-Length: "@);
    is_ascii_chars_encode_utf8("Content-Length"@);
    lemma_decimal_digits(encode_utf8(content).len());
    lemma_decimal_value(encode_utf8(content).len());
    assert(prefix.len() == 16);
    assert(prefix[14] == COLON && prefix[15] == SP);
    assert(line[14] == prefix[14] && line[15] == prefix[15]);
    assert forall|j: int| 0 <= j < 14 implies !pair_at(line, j, COLON, SP) by {
        assert(line[j] == prefix[j]);
    }
    lemma_pair_position_is(line, COLON, SP, 14);
    assert(line.skip(16) =~= digits);
    assert forall|j: int| 0 <= j < digits.len() implies !pair_at(digits, j, COLON, SP) by {
        assert(0x30 <= digits[j] <= 0x39);
    }
    lemma_pair_position_is(digits, COLON, SP, digits.len() as int);
    assert(line.take(14) =~= "Content-Length".spec_bytes());
}

/// A response on the wire: status line, `Content-Length` and
/// `Content-Type` headers, a blank line, and the body.
pub open spec fn wire_response(
    status: Seq<char>,
    content_type: Seq<char>,
    content: Seq<char>,
) -> Seq<u8> {
    "HTTP/1.1 ".spec_bytes() + encode_utf8(status) + "\r\n".spec_bytes() + content_length_line(
        content,
    ) + "\r\n".spec_bytes() + "Content-Type: ".spec_bytes() + encode_utf8(content_type)
        + "\r\n\r\n".spec_bytes() + encode_utf8(content)
}

/// Where a page of the front end is kept: in the directory of its kind,
/// under its name with the kind as extension.
pub open spec fn frontend_path_of(kind: Seq<char>, file_name: Seq<char>) -> Seq<char> {
    "./frontend/"@ + kind + "/"@ + file_name + "."@ + kind
}

/// The path of the file `file_name` of kind `kind`, such as `html` or `css`.
pub fn frontend_path(kind: &str, file_name: &str) -> (path: String)
    ensures
        path@ == frontend_path_of(kind@, file_name@),
{
    let mut path: String = "./frontend/".to_owned();
    path.append(kind);
    path.append("/");
    path.append(file_name);
    path.append(".");
    path.append(kind);
    path
}

/// A response under construction. Content and content type must be set
/// before it is serialized; the status may be left to its default.
pub struct Response {
    status: Option<String>,
    content: Option<String>,
    content_type: Option<ContentType>,
}

/// What a response is: what has been set so far.
pub struct ResponseView {
    pub status: Option<Seq<char>>,
    pub content: Option<Seq<char>>,
    pub content_type: Option<ContentTypeView>,
}

impl View for Response {
    type V = ResponseView;

    closed spec fn view(&self) -> ResponseView {
        ResponseView {
            status: match self.status {
                Some(s) => Some(s@),
                None => None,
            },
            content: match self.content {
                Some(s) => Some(s@),
                None => None,
            },
            content_type: match self.content_type {
                Some(t) => Some(t@),
                None => None,
            },
        }
    }
}

/// Appends `bytes` to `out`.
pub fn append(out: &mut Vec<u8>, bytes: &[u8])
    ensures
        final(out)@ == old(out)@ + bytes@,
{
    out.extend_from_slice(bytes);
    assert(out@ =~= old(out)@ + bytes@);
}

/// Appends `n` in decimal digits to `out`.
pub fn append_decimal(out: &mut Vec<u8>, n: usize)
    ensures
        final(out)@ == old(out)@ + decimal(n as nat),
    decreases n,
{
    if n >= 10 {
        append_decimal(out, n / 10);
    }
    let d: u8 = (n % 10) as u8;
    out.push(0x30 + d);
    assert(out@ =~= old(out)@ + decimal(n as nat));
}

impl Response {
    /// A response with nothing set.
    pub fn new() -> (r: Response)
        ensures
            r@ == (ResponseView { status: None, content: None, content_type: None }),
    {
        Response { content: None, status: None, content_type: None }
    }

    /// Sets the body.
    pub fn with_content(self, content: String) -> (r: Self)
        ensures
            r@ == (ResponseView { content: Some(content@), ..self@ }),
    {
        let mut response = self;
        response.content = Some(content);
        response
    }

    /// Sets the status, such as `404 NOT FOUND`.
    pub fn with_status(self, status: String) -> (r: Self)
        ensures
            r@ == (ResponseView { status: Some(status@), ..self@ }),
    {
        let mut response = self;
        response.status = Some(status);
        response
    }

    /// Sets the content type.
    pub fn with_content_type(self, content_type: ContentType) -> (r: Self)
        ensures
            r@ == (ResponseView { content_type: Some(content_type@), ..self@ }),
    {
        let mut response = self;
        response.content_type = Some(content_type);
        response
    }

    /// Whether content and content type are set, so that the response can be serialized.
    pub fn is_complete(&self) -> (b: bool)
        ensures
            b == (self@.content is Some && self@.content_type is Some),
    {
        self.content.is_some() && self.content_type.is_some()
    }

    /// Sets the status to `200 OK` where none is set.
    pub fn fill_default(&mut self)
        ensures
            final(self)@ == (ResponseView {
                status: Some(status_or_default(old(self)@.status)),
                ..old(self)@
            }),
    {
        if self.status.is_none() {
            self.status = Some("200 OK".to_owned());
        }
    }

    /// Serializes the response. A status that was not set becomes `200 OK`,
    /// in the response as well as in the bytes.
    pub fn to_bytes(&mut self) -> (bytes: Vec<u8>)
        requires
            old(self)@.content is Some,
            old(self)@.content_type is Some,
        ensures
            final(self)@ == (ResponseView {
                status: Some(status_or_default(old(self)@.status)),
                ..old(self)@
            }),
            bytes@ == wire_response(
                status_or_default(old(self)@.status),
                media_type(old(self)@.content_type->Some_0),
                old(self)@.content->Some_0,
            ),
    {
        self.fill_default();
        let content: &String = self.content.as_ref().unwrap();
        let status: &String = self.status.as_ref().unwrap();
        let content_type: String = self.content_type.as_ref().unwrap().to_string();
        let body = content.as_str().as_bytes();

        let mut out: Vec<u8> = Vec::new();
        append(&mut out, "HTTP/1.1 ".as_bytes());
        append(&mut out, status.as_str().as_bytes());
        append(&mut out, "\r\n".as_bytes());
        append(&mut out, "Content-Length: ".as_bytes());
        append_decimal(&mut out, body.len());
        append(&mut out, "\r\n".as_bytes());
        append(&mut out, "Content-Type: ".as_bytes());
        append(&mut out, content_type.as_str().as_bytes());
        append(&mut out, "\r\n\r\n".as_bytes());
        append(&mut out, body);
        assert(out@ =~= wire_response(status@, content_type@, content@));
        out
    }
}

} // verus!
