//! Responses and their form on the wire.
//!
//! A response is written as `HTTP/1.1 <code> <reason>\r\n\r\n<body>`: a
//! status line, an empty line and the body. No header is written.
use super::status_code::StatusCode;
use vstd::prelude::*;
use vstd::string::StringExecFns;
use vstd::utf8::encode_utf8;

verus! {

/// The character of a decimal digit.
pub open spec fn digit(d: nat) -> char
    recommends
        d < 10,
{
    (d + 48) as u8 as char
}

/// A number in decimal notation, without leading zeros.
pub open spec fn decimal(n: nat) -> Seq<char>
    decreases n,
{
    if n < 10 {
        seq![digit(n)]
    } else {
        decimal(n / 10).push(digit(n % 10))
    }
}

/// The mathematical content of a [`Response`].
#[verifier::ext_equal]
pub struct ResponseView {
    pub status: StatusCode,
    pub body: Option<Seq<char>>,
}

impl ResponseView {
    /// The body of the response; a response without body has the empty one.
    pub open spec fn body_text(self) -> Seq<char> {
        match self.body {
            Some(body) => body,
            None => Seq::empty(),
        }
    }

    /// The response as text: `HTTP/1.1 <code> <reason>\r\n\r\n<body>`.
    pub open spec fn wire_text(self) -> Seq<char> {
        "HTTP/1.1 "@ + decimal(self.status.number() as nat) + " "@ + self.status.reason()
            + "\r\n\r\n"@ + self.body_text()
    }

    /// The bytes of the response on the wire: its text in UTF-8.
    pub open spec fn wire_bytes(self) -> Seq<u8> {
        encode_utf8(self.wire_text())
    }
}

/// A status with an optional body, as a handler produces it.
#[derive(Debug)]
pub struct Response {
    status_code: StatusCode,
    body: Option<String>,
}

/// The text of an optional body.
pub open spec fn body_view(body: Option<String>) -> Option<Seq<char>> {
    match body {
        Some(text) => Some(text@),
        None => None,
    }
}

impl View for Response {
    type V = ResponseView;

    closed spec fn view(&self) -> ResponseView {
        ResponseView { status: self.status_code, body: body_view(self.body) }
    }
}

/// The one-character text of a decimal digit.
fn digit_str(d: u16) -> (text: &'static str)
    requires
        d < 10,
    ensures
        text@ == seq![digit(d as nat)],
{
    let text = match d {
        0 => "0",
        1 => "1",
        2 => "2",
        3 => "3",
        4 => "4",
        5 => "5",
        6 => "6",
        7 => "7",
        8 => "8",
        _ => "9",
    };
    proof {
        reveal_strlit("0");
        reveal_strlit("1");
        reveal_strlit("2");
        reveal_strlit("3");
        reveal_strlit("4");
        reveal_strlit("5");
        reveal_strlit("6");
        reveal_strlit("7");
        reveal_strlit("8");
        reveal_strlit("9");
        assert(text@ =~= seq![digit(d as nat)]);
    }
    text
}

/// Appends `n` in decimal notation to `out`.
fn push_decimal(out: &mut String, n: u16)
    ensures
        final(out)@ == old(out)@ + decimal(n as nat),
    decreases n,
{
    if n >= 10 {
        push_decimal(out, n / 10);
    }
    out.append(digit_str(n % 10));
    assert(out@ =~= old(out)@ + decimal(n as nat));
}

impl Response {
    /// A response with the given status and body.
    pub fn new(status_code: StatusCode, body: Option<String>) -> (response: Response)
        ensures
            response@.status == status_code,
            response@.body == body_view(body),
    {
        Response { status_code, body }
    }

    /// The status of the response.
    pub fn status_code(&self) -> (status: StatusCode)
        ensures
            status == self@.status,
    {
        self.status_code
    }

    /// The body of the response, if it has one.
    pub fn body(&self) -> (body: Option<&str>)
        ensures
            body is Some <==> self@.body is Some,
            body matches Some(text) ==> self@.body == Some(text@),
    {
        match &self.body {
            Some(text) => Some(text.as_str()),
            None => None,
        }
    }

    /// Writes the response to `stream` in its wire form. What `stream`
    /// held before stays in front of it.
    pub fn send(&self, stream: &mut Vec<u8>)
        ensures
            final(stream)@ == old(stream)@ + self@.wire_bytes(),
    {
        let mut text = String::from_str("HTTP/1.1 ");
        push_decimal(&mut text, self.status_code.code());
        text.append(" ");
        text.append(self.status_code.reason_phrase());
        text.append("\r\n\r\n");
        match &self.body {
            Some(body) => text.append(body.as_str()),
            None => {
                assert(text@ + Seq::<char>::empty() =~= text@);
            },
        }
        assert(text@ == self@.wire_text());
        stream.extend_from_slice(text.as_str().as_bytes());
        assert(stream@ =~= old(stream)@ + self@.wire_bytes());
    }
}

} // verus!
