//! What the parser guarantees of requests as they are sent: a request
//! written out in wire form parses back to itself.

use vstd::prelude::*;
use vstd::string::*;
use vstd::utf8::*;
use crate::encoding::{
    free_of, lacks, lacks_pair, lemma_encoding_lacks, lemma_encoding_lacks_pair,
};
use crate::request::{
    header_lines, header_of, lemma_first_malformed_is, method_of, parse_header_lines,
    parse_request, parse_text, well_formed_header, MethodView, ParseErrorView, RequestView,
};
use crate::text::{
    after_first_line, first_line, lemma_byte_position_is, lemma_pair_position,
    lemma_pair_position_is, pair_at, pair_position, split_on, COLON, CR, LF, SP,
};

verus! {

/// The line terminator, CRLF.
pub open spec fn crlf() -> Seq<u8> {
    seq![CR, LF]
}

/// The token that a method is sent as.
pub open spec fn method_token(method: MethodView) -> Seq<u8> {
    match method {
        MethodView::Get(_) => "GET".spec_bytes(),
        MethodView::Post(_) => "POST".spec_bytes(),
    }
}

/// The path that a method carries.
pub open spec fn method_path(method: MethodView) -> Seq<char> {
    match method {
        MethodView::Get(path) => path,
        MethodView::Post(path) => path,
    }
}

/// The request line of a request, without its terminator.
pub open spec fn request_line(request: RequestView) -> Seq<u8> {
    method_token(request.method) + seq![SP] + encode_utf8(method_path(request.method)) + seq![SP]
        + encode_utf8(request.protocol)
}

/// One header as a line, without its terminator.
pub open spec fn header_line(header: (Seq<char>, Seq<char>)) -> Seq<u8> {
    encode_utf8(header.0) + seq![COLON, SP] + encode_utf8(header.1)
}

/// The headers as lines, each with its terminator.
pub open spec fn header_block(headers: Seq<(Seq<char>, Seq<char>)>) -> Seq<u8>
    decreases headers.len(),
{
    if headers.len() == 0 {
        Seq::empty()
    } else {
        header_line(headers[0]) + crlf() + header_block(headers.drop_first())
    }
}

/// A request in wire form: request line, headers, and the blank line that closes them.
pub open spec fn wire_request(request: RequestView) -> Seq<u8> {
    request_line(request) + crlf() + header_block(request.headers) + crlf()
}

/// A token of the request line holds neither a space nor a line feed.
pub open spec fn is_token(s: Seq<char>) -> bool {
    lacks(s, ' ') && lacks(s, '\n')
}

/// A header name or value holds neither a line feed nor a colon directly followed by a space.
pub open spec fn is_header_part(s: Seq<char>) -> bool {
    lacks(s, '\n') && lacks_pair(s, ':', ' ')
}

/// Whether every name and value of a header list can stand in a header line.
pub open spec fn sendable_headers(headers: Seq<(Seq<char>, Seq<char>)>) -> bool {
    forall|i: int|
        0 <= i < headers.len() ==> is_header_part((#[trigger] headers[i]).0) && is_header_part(
            headers[i].1,
        )
}

/// Whether a request can be sent without its parts running into each
/// other: path and protocol are tokens, and the headers can stand in lines.
pub open spec fn sendable(request: RequestView) -> bool {
    &&& is_token(method_path(request.method))
    &&& is_token(request.protocol)
    &&& sendable_headers(request.headers)
}

/// The bytes of a token hold neither a space nor a line feed.
pub proof fn lemma_token_bytes(s: Seq<char>)
    requires
        is_token(s),
    ensures
        free_of(encode_utf8(s), SP),
        free_of(encode_utf8(s), LF),
{
    lemma_encoding_lacks(s, ' ');
    lemma_encoding_lacks(s, '\n');
}

/// The bytes of a header name or value hold neither a line feed nor `": "`.
pub proof fn lemma_header_part_bytes(s: Seq<char>)
    requires
        is_header_part(s),
    ensures
        free_of(encode_utf8(s), LF),
        pair_position(encode_utf8(s), COLON, SP) == encode_utf8(s).len(),
{
    lemma_encoding_lacks(s, '\n');
    lemma_encoding_lacks_pair(s, ':', ' ');
}

/// The first line of `line + CRLF + rest` is `line`, and `rest` is what follows it.
pub proof fn lemma_first_line(line: Seq<u8>, rest: Seq<u8>)
    requires
        free_of(line, LF),
    ensures
        first_line(line + crlf() + rest) == line,
        after_first_line(line + crlf() + rest) == rest,
{
    let text = line + crlf() + rest;
    let n = line.len() as int;
    assert(text[n] == CR);
    assert(text[n + 1] == LF);
    assert forall|j: int| 0 <= j < n + 1 implies text[j] != LF by {
        if j < n {
            assert(text[j] == line[j]);
        }
    }
    lemma_byte_position_is(text, LF, n + 1);
    assert(text.take(n + 1) =~= line.push(CR));
    assert(line.push(CR).drop_last() =~= line);
    assert(text.skip(n + 2) =~= rest);
}

/// A piece without the delimiter, followed by the delimiter, is the first
/// piece of the split; the other pieces are those of what follows.
pub proof fn lemma_split_on_first(piece: Seq<u8>, b: u8, rest: Seq<u8>)
    requires
        free_of(piece, b),
    ensures
        split_on(piece + seq![b] + rest, b) == seq![piece] + split_on(rest, b),
{
    let s = piece + seq![b] + rest;
    let n = piece.len() as int;
    assert(s[n] == b);
    assert forall|j: int| 0 <= j < n implies s[j] != b by {
        assert(s[j] == piece[j]);
    }
    lemma_byte_position_is(s, b, n);
    assert(s.take(n) =~= piece);
    assert(s.skip(n + 1) =~= rest);
}

/// A piece without the delimiter splits into itself.
pub proof fn lemma_split_on_last(piece: Seq<u8>, b: u8)
    requires
        free_of(piece, b),
    ensures
        split_on(piece, b) == seq![piece],
{
    lemma_byte_position_is(piece, b, piece.len() as int);
}

/// The bytes of the two method tokens.
pub proof fn lemma_method_tokens()
    ensures
        "GET".spec_bytes() == seq![0x47u8, 0x45u8, 0x54u8],
        "POST".spec_bytes() == seq![0x50u8, 0x4fu8, 0x53u8, 0x54u8],
{
    reveal_strlit("GET");
    reveal_strlit("POST");
    is_ascii_chars_encode_utf8("GET"@);
    is_ascii_chars_encode_utf8("POST"@);
    assert("GET".spec_bytes() =~= seq![0x47u8, 0x45u8, 0x54u8]);
    assert("POST".spec_bytes() =~= seq![0x50u8, 0x4fu8, 0x53u8, 0x54u8]);
}

/// A header written as a line is a well-formed header line that holds no
/// line feed and reads back as the same header.
pub proof fn lemma_header_line(header: (Seq<char>, Seq<char>))
    requires
        is_header_part(header.0),
        is_header_part(header.1),
    ensures
        well_formed_header(header_line(header)),
        header_of(header_line(header)) == header,
        free_of(header_line(header), LF),
        header_line(header).len() > 0,
{
    let name = encode_utf8(header.0);
    let value = encode_utf8(header.1);
    let line = header_line(header);
    let n = name.len() as int;
    lemma_header_part_bytes(header.0);
    lemma_header_part_bytes(header.1);
    lemma_pair_position(name, COLON, SP);
    assert(line[n] == COLON);
    assert(line[n + 1] == SP);
    assert(pair_at(line, n, COLON, SP));
    assert forall|j: int| 0 <= j < n implies !pair_at(line, j, COLON, SP) by {
        assert(line[j] == name[j]);
        if j + 1 < n {
            assert(line[j + 1] == name[j + 1]);
            assert(!pair_at(name, j, COLON, SP));
        }
    }
    lemma_pair_position_is(line, COLON, SP, n);
    assert(line.take(n) =~= name);
    assert(line.skip(n + 2) =~= value);
    encode_utf8_decode_utf8(header.0);
    encode_utf8_decode_utf8(header.1);
    assert forall|j: int| 0 <= j < line.len() implies line[j] != LF by {
        if j < n {
            assert(line[j] == name[j]);
        } else if j >= n + 2 {
            assert(line[j] == value[j - n - 2]);
        }
    }
}

/// The header lines of a header block are its headers, line by line,
/// whatever follows the blank line that closes the block.
pub proof fn lemma_header_lines(headers: Seq<(Seq<char>, Seq<char>)>, body: Seq<u8>)
    requires
        sendable_headers(headers),
    ensures
        header_lines(header_block(headers) + crlf() + body) == Seq::new(
            headers.len(),
            |i: int| header_line(headers[i]),
        ),
    decreases headers.len(),
{
    let text = header_block(headers) + crlf() + body;
    let lines = Seq::new(headers.len(), |i: int| header_line(headers[i]));
    if headers.len() == 0 {
        assert(text =~= Seq::<u8>::empty() + crlf() + body);
        lemma_first_line(Seq::<u8>::empty(), body);
        assert(header_lines(text) =~= lines);
    } else {
        let rest = headers.drop_first();
        let tail = header_block(rest) + crlf() + body;
        assert(sendable_headers(rest)) by {
            assert forall|i: int| 0 <= i < rest.len() implies is_header_part(
                (#[trigger] rest[i]).0,
            ) && is_header_part(rest[i].1) by {
                assert(rest[i] == headers[i + 1]);
            }
        }
        lemma_header_lines(rest, body);
        lemma_header_line(headers[0]);
        assert(text =~= header_line(headers[0]) + crlf() + tail);
        lemma_first_line(header_line(headers[0]), tail);
        assert(header_lines(text) == seq![header_line(headers[0])] + header_lines(tail));
        assert(header_lines(text) =~= lines);
    }
}

/// A list of sendable headers, written as lines, parses back to itself.
pub proof fn lemma_parse_header_lines(headers: Seq<(Seq<char>, Seq<char>)>)
    requires
        sendable_headers(headers),
    ensures
        parse_header_lines(Seq::new(headers.len(), |i: int| header_line(headers[i]))) == Ok::<
            Seq<(Seq<char>, Seq<char>)>,
            ParseErrorView,
        >(headers),
{
    let lines = Seq::new(headers.len(), |i: int| header_line(headers[i]));
    assert forall|i: int| 0 <= i < lines.len() implies well_formed_header(#[trigger] lines[i])
        && header_of(lines[i]) == headers[i] by {
        lemma_header_line(headers[i]);
    }
    lemma_first_malformed_is(lines, lines.len() as int);
    assert(Seq::new(lines.len(), |i: int| header_of(lines[i])) =~= headers);
}

/// Round trip: a sendable request in wire form, with any body after it,
/// parses to that request: the same method, path and protocol, and the same
/// headers in the same order.
pub proof fn lemma_parse_roundtrip(request: RequestView, body: Seq<u8>)
    requires
        sendable(request),
    ensures
        parse_text(wire_request(request) + body) == Ok::<RequestView, ParseErrorView>(request),
{
    let text = wire_request(request) + body;
    let line = request_line(request);
    let token = method_token(request.method);
    let path = encode_utf8(method_path(request.method));
    let protocol = encode_utf8(request.protocol);
    let tail = header_block(request.headers) + crlf() + body;
    lemma_method_tokens();
    lemma_token_bytes(method_path(request.method));
    lemma_token_bytes(request.protocol);
    assert(free_of(token, SP) && free_of(token, LF));
    assert forall|j: int| 0 <= j < line.len() implies line[j] != LF by {
        let a = token.len() as int;
        let b = a + 1 + path.len();
        if j < a {
            assert(line[j] == token[j]);
        } else if a < j < b {
            assert(line[j] == path[j - a - 1]);
        } else if j > b {
            assert(line[j] == protocol[j - b - 1]);
        }
    }
    assert(text =~= line + crlf() + tail);
    lemma_first_line(line, tail);
    lemma_split_on_last(protocol, SP);
    lemma_split_on_first(path, SP, protocol);
    lemma_split_on_first(token, SP, path + seq![SP] + protocol);
    assert(line =~= token + seq![SP] + (path + seq![SP] + protocol));
    let tokens = split_on(line, SP);
    assert(tokens =~= seq![token, path, protocol]);
    encode_utf8_decode_utf8(method_path(request.method));
    encode_utf8_decode_utf8(request.protocol);
    assert(method_of(tokens[0], tokens[1]) == Some(request.method));
    lemma_header_lines(request.headers, body);
    lemma_parse_header_lines(request.headers);
}

/// Bytes below 0x80 are UTF-8 text.
pub proof fn lemma_ascii_is_utf8(s: Seq<u8>)
    requires
        forall|i: int| 0 <= i < s.len() ==> s[i] < 0x80,
    ensures
        valid_utf8(s),
{
    assert(s.subrange(0, 0) =~= Seq::<u8>::empty());
    assert(partial_valid_utf8(s, 0));
    partial_valid_utf8_extend_ascii_block(s, 0, s.len() as int);
    assert(s.subrange(0, s.len() as int) =~= s);
}

/// A header block is UTF-8 text.
pub proof fn lemma_header_block_is_utf8(headers: Seq<(Seq<char>, Seq<char>)>)
    ensures
        valid_utf8(header_block(headers)),
    decreases headers.len(),
{
    if headers.len() > 0 {
        let name = encode_utf8(headers[0].0);
        let value = encode_utf8(headers[0].1);
        lemma_header_block_is_utf8(headers.drop_first());
        lemma_ascii_is_utf8(seq![COLON, SP]);
        lemma_ascii_is_utf8(crlf());
        encode_utf8_valid_utf8(headers[0].0);
        encode_utf8_valid_utf8(headers[0].1);
        valid_utf8_concat(name, seq![COLON, SP]);
        valid_utf8_concat(name + seq![COLON, SP], value);
        valid_utf8_concat(header_line(headers[0]), crlf());
        valid_utf8_concat(header_line(headers[0]) + crlf(), header_block(headers.drop_first()));
    }
}

/// A request in wire form is UTF-8 text.
pub proof fn lemma_wire_request_is_utf8(request: RequestView)
    ensures
        valid_utf8(wire_request(request)),
{
    let token = method_token(request.method);
    let path = encode_utf8(method_path(request.method));
    let protocol = encode_utf8(request.protocol);
    lemma_method_tokens();
    lemma_ascii_is_utf8(token);
    lemma_ascii_is_utf8(seq![SP]);
    lemma_ascii_is_utf8(crlf());
    encode_utf8_valid_utf8(method_path(request.method));
    encode_utf8_valid_utf8(request.protocol);
    lemma_header_block_is_utf8(request.headers);
    valid_utf8_concat(token, seq![SP]);
    valid_utf8_concat(token + seq![SP], path);
    valid_utf8_concat(token + seq![SP] + path, seq![SP]);
    valid_utf8_concat(token + seq![SP] + path + seq![SP], protocol);
    valid_utf8_concat(request_line(request), crlf());
    valid_utf8_concat(request_line(request) + crlf(), header_block(request.headers));
    valid_utf8_concat(request_line(request) + crlf() + header_block(request.headers), crlf());
}

/// Round trip from bytes: the wire form of a sendable request, with any
/// UTF-8 body after it, is accepted and parses to that request.
pub proof fn lemma_parse_request_roundtrip(request: RequestView, body: Seq<u8>)
    requires
        sendable(request),
        valid_utf8(body),
    ensures
        parse_request(wire_request(request) + body) == Ok::<RequestView, ParseErrorView>(request),
{
    lemma_wire_request_is_utf8(request);
    valid_utf8_concat(wire_request(request), body);
    lemma_parse_roundtrip(request, body);
}

} // verus!
