//! The request parser: the request line, the header lines and the body of one
//! HTTP/1.x request, each turned into plain values.

use vstd::prelude::*;
use vstd::utf8::{decode_utf8, valid_utf8};
use crate::json::{is_json, json_accepts};
use crate::text::{
    char_vec, clean_chars, cleaned, decimal_of, parse_decimal, split_words, sub_chars, text_of, views,
    words, clean_string,
};

verus! {

/// Why a connection is dropped without a response.
#[derive(Debug, Clone, Copy, PartialEq, Eq, Structural)]
pub enum ParseError {
    /// The request line holds fewer than three words.
    IncompleteRequestLine,
    /// The body is not as long as its `Content-Length` says.
    IncompleteBody,
}

/// Method, target and version of a request, with quotes and backslashes removed.
#[derive(Debug)]
pub struct RequestLine {
    pub method: String,
    pub path: String,
    pub version: String,
}

/// The three cleaned words that open a request line, if it has at least three.
pub open spec fn request_line_of(s: Seq<char>) -> Option<(Seq<char>, Seq<char>, Seq<char>)> {
    let w = words(s);
    if w.len() < 3 {
        None
    } else {
        Some((cleaned(w[0]), cleaned(w[1]), cleaned(w[2])))
    }
}

/// Reads method, target and version from the first line of a request.
pub fn parse_request_line(request_line: &str) -> (r: Result<RequestLine, ParseError>)
    ensures
        request_line_of(request_line@) is None ==> r == Err::<RequestLine, ParseError>(
            ParseError::IncompleteRequestLine,
        ),
        request_line_of(request_line@) matches Some((m, p, v)) ==> (r matches Ok(l) && l.method@
            == m && l.path@ == p && l.version@ == v),
{
    let chars = char_vec(request_line);
    let w = split_words(chars.as_slice());
    if w.len() < 3 {
        return Err(ParseError::IncompleteRequestLine);
    }
    proof {
        assert(views(w@)[0] == w@[0]@);
        assert(views(w@)[1] == w@[1]@);
        assert(views(w@)[2] == w@[2]@);
    }
    let method = text_of(clean_chars(w[0].as_slice()).as_slice());
    let path = text_of(clean_chars(w[1].as_slice()).as_slice());
    let version = text_of(clean_chars(w[2].as_slice()).as_slice());
    Ok(RequestLine { method, path, version })
}

/// A header: its name and its value, with quotes and backslashes removed.
#[derive(Debug)]
pub struct Header {
    pub name: String,
    pub value: String,
}

impl View for Header {
    type V = (Seq<char>, Seq<char>);

    open spec fn view(&self) -> (Seq<char>, Seq<char>) {
        (self.name@, self.value@)
    }
}

/// The views of a list of headers.
pub open spec fn header_views(hs: Seq<Header>) -> Seq<(Seq<char>, Seq<char>)> {
    hs.map_values(|h: Header| h@)
}

/// The first place, at `from` or after, where `": "` stands in the text.
pub open spec fn first_separator(s: Seq<char>, from: nat) -> Option<nat>
    decreases s.len() - from,
{
    if from + 1 >= s.len() {
        None
    } else if s[from as int] == ':' && s[from as int + 1] == ' ' {
        Some(from)
    } else {
        first_separator(s, from + 1)
    }
}

/// A header line split at its first `": "` and cleaned; a line without one is no header.
pub open spec fn header_of(s: Seq<char>) -> Option<(Seq<char>, Seq<char>)> {
    match first_separator(s, 0) {
        Some(i) => Some((cleaned(s.take(i as int)), cleaned(s.skip(i as int + 2)))),
        None => None,
    }
}

/// Reads one header line.
pub fn parse_header_line(line: &str) -> (r: Option<Header>)
    ensures
        header_of(line@) is None ==> r is None,
        header_of(line@) matches Some(h) ==> (r matches Some(x) && x@ == h),
{
    let chars = char_vec(line);
    let n = chars.len();
    let mut i: usize = 0;
    while i < n && n - i >= 2
        invariant
            i <= n,
            n == line@.len(),
            chars@ == line@,
            first_separator(line@, 0) == first_separator(line@, i as nat),
        decreases n - i,
    {
        if chars[i] == ':' && chars[i + 1] == ' ' {
            let name = text_of(clean_chars(sub_chars(chars.as_slice(), 0, i).as_slice()).as_slice());
            let value = text_of(
                clean_chars(sub_chars(chars.as_slice(), i + 2, n).as_slice()).as_slice(),
            );
            proof {
                assert(line@.subrange(0, i as int) =~= line@.take(i as int));
                assert(line@.subrange(i + 2, n as int) =~= line@.skip(i + 2));
            }
            return Some(Header { name, value });
        }
        i += 1;
    }
    None
}

/// The views of a list of lines.
pub open spec fn line_views(ls: Seq<String>) -> Seq<Seq<char>> {
    ls.map_values(|l: String| l@)
}

/// The view of an optional text.
pub open spec fn text_option(o: Option<String>) -> Option<Seq<char>> {
    match o {
        Some(s) => Some(s@),
        None => None,
    }
}

/// The headers that the lines hold, in order; lines without `": "` are passed over.
pub open spec fn headers_of(lines: Seq<Seq<char>>) -> Seq<(Seq<char>, Seq<char>)>
    decreases lines.len(),
{
    if lines.len() == 0 {
        Seq::empty()
    } else {
        let hs = headers_of(lines.drop_last());
        match header_of(lines.last()) {
            Some(h) => hs.push(h),
            None => hs,
        }
    }
}

/// The value of the last header whose name passes the test.
pub open spec fn last_value(
    hs: Seq<(Seq<char>, Seq<char>)>,
    wanted: spec_fn(Seq<char>) -> bool,
) -> Option<Seq<char>>
    decreases hs.len(),
{
    if hs.len() == 0 {
        None
    } else if wanted(hs.last().0) {
        Some(hs.last().1)
    } else {
        last_value(hs.drop_last(), wanted)
    }
}

/// A character with ASCII capitals made small.
pub open spec fn ascii_lower(c: char) -> char {
    if 'A' <= c && c <= 'Z' {
        ((c as u32) + 32) as char
    } else {
        c
    }
}

pub open spec fn content_length_name() -> Seq<char> {
    seq!['c', 'o', 'n', 't', 'e', 'n', 't', '-', 'l', 'e', 'n', 'g', 't', 'h']
}

pub open spec fn cookie_name() -> Seq<char> {
    seq!['C', 'o', 'o', 'k', 'i', 'e']
}

/// `Content-Length`, in any mix of ASCII case.
pub open spec fn is_content_length(n: Seq<char>) -> bool {
    n.len() == content_length_name().len() && forall|i: int|
        0 <= i < n.len() ==> ascii_lower(#[trigger] n[i]) == content_length_name()[i]
}

/// The body length that the headers declare: the last `Content-Length`, read as a
/// decimal number; zero where there is none or it is not a number.
pub open spec fn content_length_of(hs: Seq<(Seq<char>, Seq<char>)>) -> nat {
    match last_value(hs, |n: Seq<char>| is_content_length(n)) {
        Some(v) => match decimal_of(v) {
            Some(k) => k,
            None => 0,
        },
        None => 0,
    }
}

/// The value of the last `Cookie` header.
pub open spec fn cookie_of(hs: Seq<(Seq<char>, Seq<char>)>) -> Option<Seq<char>> {
    last_value(hs, |n: Seq<char>| n == cookie_name())
}

fn is_content_length_name(name: &String) -> (r: bool)
    ensures
        r == is_content_length(name@),
{
    let chars = char_vec(name.as_str());
    let wanted = char_vec("content-length");
    proof {
        reveal_strlit("content-length");
        assert(wanted@ =~= content_length_name());
    }
    if chars.len() != wanted.len() {
        return false;
    }
    let mut i: usize = 0;
    while i < chars.len()
        invariant
            chars@ == name@,
            wanted@ == content_length_name(),
            chars@.len() == wanted@.len(),
            i <= chars@.len(),
            forall|j: int| 0 <= j < i ==> ascii_lower(#[trigger] chars@[j]) == wanted@[j],
        decreases chars@.len() - i,
    {
        let c = chars[i];
        let lower = if 'A' <= c && c <= 'Z' {
            ((c as u32) + 32) as u8 as char
        } else {
            c
        };
        assert(lower == ascii_lower(c));
        if lower != wanted[i] {
            return false;
        }
        i += 1;
    }
    true
}

fn is_cookie_name(name: &String) -> (r: bool)
    ensures
        r == (name@ == cookie_name()),
{
    let wanted = "Cookie".to_owned();
    proof {
        reveal_strlit("Cookie");
        assert(wanted@ =~= cookie_name());
    }
    *name == wanted
}

/// Request line and headers of a request, before its body is read.
#[derive(Debug)]
pub struct RequestHead {
    pub line: RequestLine,
    pub headers: Vec<Header>,
    /// How many body bytes follow the headers.
    pub content_length: usize,
    /// The `Cookie` header's value, offered to the session store.
    pub cookie: Option<String>,
}

/// Reads the request line and the header lines that stand before the empty line.
pub fn parse_head(request_line: &str, header_lines: &[String]) -> (r: Result<RequestHead, ParseError>)
    ensures
        request_line_of(request_line@) is None ==> r == Err::<RequestHead, ParseError>(
            ParseError::IncompleteRequestLine,
        ),
        request_line_of(request_line@) matches Some((m, p, v)) ==> (r matches Ok(h) && h.line.method@
            == m && h.line.path@ == p && h.line.version@ == v && header_views(h.headers@)
            == headers_of(line_views(header_lines@)) && h.content_length as nat == content_length_of(
            headers_of(line_views(header_lines@)),
        ) && text_option(h.cookie) == cookie_of(headers_of(line_views(header_lines@)))),
{
    let line = match parse_request_line(request_line) {
        Ok(l) => l,
        Err(e) => {
            return Err(e);
        },
    };
    let ghost lines = line_views(header_lines@);
    let mut headers: Vec<Header> = Vec::new();
    let mut content_length: usize = 0;
    let mut cookie: Option<String> = None;
    let mut i: usize = 0;
    while i < header_lines.len()
        invariant
            i <= header_lines@.len(),
            lines == line_views(header_lines@),
            header_views(headers@) == headers_of(lines.take(i as int)),
            content_length as nat == content_length_of(headers_of(lines.take(i as int))),
            text_option(cookie) == cookie_of(headers_of(lines.take(i as int))),
        decreases header_lines@.len() - i,
    {
        proof {
            assert(lines.take(i as int + 1).drop_last() =~= lines.take(i as int));
            assert(lines.take(i as int + 1).last() == header_lines@[i as int]@);
        }
        let ghost before = headers_of(lines.take(i as int));
        match parse_header_line(header_lines[i].as_str()) {
            Some(h) => {
                if is_content_length_name(&h.name) {
                    let value = char_vec(h.value.as_str());
                    content_length = match parse_decimal(value.as_slice()) {
                        Some(k) => k,
                        None => 0,
                    };
                }
                if is_cookie_name(&h.name) {
                    cookie = Some(h.value.clone());
                }
                let ghost hv = h@;
                headers.push(h);
                proof {
                    assert(header_views(headers@) =~= before.push(hv));
                    assert(before.push(hv).drop_last() =~= before);
                }
            },
            None => {},
        }
        i += 1;
    }
    proof {
        assert(lines.take(header_lines@.len() as int) =~= lines);
    }
    Ok(RequestHead { line, headers, content_length, cookie })
}

/// Relies on `std::str::from_utf8`: it accepts exactly the well-formed UTF-8 byte
/// strings, and decodes them.
#[verifier::external_body]
fn utf8_text(b: &[u8]) -> (r: Option<String>)
    ensures
        r is Some <==> valid_utf8(b@),
        r matches Some(t) ==> t@ == decode_utf8(b@),
{
    match std::str::from_utf8(b) {
        Ok(t) => Some(t.to_string()),
        Err(_) => None,
    }
}

/// A request body: kept as it came where it is JSON, else with quotes and
/// backslashes removed.
#[derive(Debug)]
pub enum Body {
    Json(String),
    Text(String),
}

/// The text of body bytes: their UTF-8 decoding, or nothing where they are not UTF-8.
pub open spec fn body_text(b: Seq<u8>) -> Seq<char> {
    if valid_utf8(b) {
        decode_utf8(b)
    } else {
        Seq::empty()
    }
}

/// The body that a text gives.
pub open spec fn body_holds(body: Body, t: Seq<char>) -> bool {
    if json_accepts(t) {
        body matches Body::Json(x) && x@ == t
    } else {
        body matches Body::Text(x) && x@ == cleaned(t)
    }
}

/// One parsed request.
#[derive(Debug)]
pub struct Request {
    pub method: String,
    pub path: String,
    pub version: String,
    pub headers: Vec<Header>,
    pub cookie: Option<String>,
    pub body: Option<Body>,
}

/// Completes a request with the body bytes that followed its headers.
pub fn attach_body(head: RequestHead, body: &[u8]) -> (r: Result<Request, ParseError>)
    ensures
        body@.len() != head.content_length ==> r == Err::<Request, ParseError>(
            ParseError::IncompleteBody,
        ),
        body@.len() == head.content_length ==> (r matches Ok(req) && req.method == head.line.method
            && req.path == head.line.path && req.version == head.line.version && req.headers
            == head.headers && req.cookie == head.cookie && (head.content_length == 0
            ==> req.body is None) && (head.content_length > 0 ==> (req.body matches Some(b)
            && body_holds(b, body_text(body@))))),
{
    if body.len() != head.content_length {
        return Err(ParseError::IncompleteBody);
    }
    let parsed = if head.content_length == 0 {
        None
    } else {
        let text = match utf8_text(body) {
            Some(t) => t,
            None => String::new(),
        };
        if is_json(text.as_str()) {
            Some(Body::Json(text))
        } else {
            Some(Body::Text(clean_string(text)))
        }
    };
    Ok(
        Request {
            method: head.line.method,
            path: head.line.path,
            version: head.line.version,
            headers: head.headers,
            cookie: head.cookie,
            body: parsed,
        },
    )
}

} // verus!
