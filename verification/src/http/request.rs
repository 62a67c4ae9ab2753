//! Parsing the request line of an HTTP/1.1 request.
//!
//! A request is built from the bytes read from a connection and borrows
//! its path and query string from them. Only the first line is read:
//! `METHOD SP PATH[?QUERY] SP HTTP/1.1 CR`. What follows it is ignored.
use super::method::{Method, MethodError};
use super::query_string::{parse_query, QueryString, ValueView};
use super::text::{
    cut_at, cut_at_first, is_free_of, lemma_split_first_none, lemma_split_first_of_parts,
    lemma_split_first_parts, split_first, split_once, str_eq,
};
use core::str::Utf8Error;
use vstd::prelude::*;
use vstd::std_specs::convert::FromSpecImpl;
use vstd::string::StringSliceAdditionalSpecFns;
use vstd::utf8::{
    decode_utf8, encode_utf8, encode_utf8_decode_utf8, encode_utf8_valid_utf8, valid_utf8,
};

verus! {

/// The error of `core::str::from_utf8`, declared so that it can be named.
/// Nothing is read from it.
#[verifier::external_type_specification]
#[verifier::external_body]
pub struct ExUtf8Error(core::str::Utf8Error);

/// Assumed of `core::str::from_utf8`, not proved: it succeeds exactly on
/// the byte sequences that are well-formed UTF-8, and the text it returns
/// is made of the very bytes it was given.
pub assume_specification[ core::str::from_utf8 ](v: &[u8]) -> (r: Result<
    &str,
    core::str::Utf8Error,
>)
    ensures
        r is Ok <==> valid_utf8(v@),
        r matches Ok(s) ==> s.spec_bytes() == v@,
;

/// Why a buffer is not a request.
#[derive(Debug, Clone, Copy, PartialEq, Eq, Structural)]
pub enum ParseError {
    /// The request line has fewer than three tokens.
    InvalidRequest,
    /// The buffer is not UTF-8 text.
    InvalidEncoding,
    /// The third token is not `HTTP/1.1`.
    InvalidProtocol,
    /// The first token names no method.
    InvalidMethod,
}

impl ParseError {
    /// The description of each error.
    pub open spec fn description(self) -> Seq<char> {
        match self {
            ParseError::InvalidRequest => "Invalid Request"@,
            ParseError::InvalidEncoding => "Invalid Encoding"@,
            ParseError::InvalidProtocol => "Invalid Protocol"@,
            ParseError::InvalidMethod => "Invalid Method"@,
        }
    }

    /// A short description of the error, fit for a log line.
    pub fn message(&self) -> (text: &'static str)
        ensures
            text@ == self.description(),
    {
        match self {
            ParseError::InvalidRequest => "Invalid Request",
            ParseError::InvalidEncoding => "Invalid Encoding",
            ParseError::InvalidProtocol => "Invalid Protocol",
            ParseError::InvalidMethod => "Invalid Method",
        }
    }
}

impl From<MethodError> for ParseError {
    fn from(_e: MethodError) -> (error: ParseError) {
        ParseError::InvalidMethod
    }
}

impl FromSpecImpl<MethodError> for ParseError {
    open spec fn obeys_from_spec() -> bool {
        true
    }

    open spec fn from_spec(_e: MethodError) -> ParseError {
        ParseError::InvalidMethod
    }
}

impl From<Utf8Error> for ParseError {
    fn from(_e: Utf8Error) -> (error: ParseError) {
        ParseError::InvalidEncoding
    }
}

impl FromSpecImpl<Utf8Error> for ParseError {
    open spec fn obeys_from_spec() -> bool {
        true
    }

    open spec fn from_spec(_e: Utf8Error) -> ParseError {
        ParseError::InvalidEncoding
    }
}

/// The next token of a request line and what follows it: the text is cut
/// at its first space or carriage return. `None` when it holds neither.
pub open spec fn next_word(text: Seq<char>) -> Option<(Seq<char>, Seq<char>)> {
    split_first(text, set![' ', '\r'])
}

/// Cuts the next token off a request line. The remainder starts right
/// after the delimiter that ended the token.
pub fn get_next_word<'a>(request: &'a str) -> (word: Option<(&'a str, &'a str)>)
    ensures
        word is Some <==> next_word(request@) is Some,
        word matches Some((token, rest)) ==> next_word(request@) == Some((token@, rest@)),
{
    cut_at_first(request, ' ', '\r')
}

/// The mathematical content of a [`Request`].
#[verifier::ext_equal]
pub struct RequestView {
    pub method: Method,
    pub path: Seq<char>,
    pub query: Option<Map<Seq<char>, ValueView>>,
}

/// A request target without its query: what stands before the first `?`.
pub open spec fn target_path(target: Seq<char>) -> Seq<char> {
    match split_once(target, '?') {
        Some((path, _)) => path,
        None => target,
    }
}

/// The query of a request target: the parse of what follows the first
/// `?`, if there is a `?`.
pub open spec fn target_query(target: Seq<char>) -> Option<Map<Seq<char>, ValueView>> {
    match split_once(target, '?') {
        Some((_, raw)) => Some(parse_query(raw)),
        None => None,
    }
}

/// The request that a text denotes, or the reason why it denotes none.
/// The checks are made in this order: three tokens, then the protocol,
/// then the method.
pub open spec fn parse_request_line(text: Seq<char>) -> Result<RequestView, ParseError> {
    match next_word(text) {
        None => Err(ParseError::InvalidRequest),
        Some((method, after_method)) => match next_word(after_method) {
            None => Err(ParseError::InvalidRequest),
            Some((target, after_target)) => match next_word(after_target) {
                None => Err(ParseError::InvalidRequest),
                Some((protocol, _)) => if protocol != "HTTP/1.1"@ {
                    Err(ParseError::InvalidProtocol)
                } else {
                    match Method::of_token(method) {
                        None => Err(ParseError::InvalidMethod),
                        Some(method) => Ok(
                            RequestView {
                                method,
                                path: target_path(target),
                                query: target_query(target),
                            },
                        ),
                    }
                },
            },
        },
    }
}

/// The request that a buffer denotes, or the reason why it denotes none.
pub open spec fn parse_request(buf: Seq<u8>) -> Result<RequestView, ParseError> {
    if valid_utf8(buf) {
        parse_request_line(decode_utf8(buf))
    } else {
        Err(ParseError::InvalidEncoding)
    }
}

/// A parsed request line.
#[derive(Debug)]
pub struct Request<'buf> {
    path: &'buf str,
    query_string: Option<QueryString<'buf>>,
    method: Method,
}

impl<'buf> View for Request<'buf> {
    type V = RequestView;

    closed spec fn view(&self) -> RequestView {
        RequestView {
            method: self.method,
            path: self.path@,
            query: match self.query_string {
                Some(query) => Some(query@),
                None => None,
            },
        }
    }
}

impl<'buf> Request<'buf> {
    /// The path never holds a `?`: the query was cut off it.
    #[verifier::type_invariant]
    spec fn well_formed(self) -> bool {
        !self.path@.contains('?')
    }

    /// The path of the request target, without the query.
    pub fn path(&self) -> (path: &str)
        ensures
            path@ == self@.path,
            !path@.contains('?'),
    {
        proof {
            use_type_invariant(self);
        }
        self.path
    }

    /// The method of the request.
    pub fn method(&self) -> (method: &Method)
        ensures
            *method == self@.method,
    {
        &self.method
    }

    /// The query string of the request target, if it has one.
    pub fn query_string(&self) -> (query: Option<&QueryString<'buf>>)
        ensures
            query is Some <==> self@.query is Some,
            query matches Some(q) ==> self@.query == Some(q@),
    {
        self.query_string.as_ref()
    }

    /// Parses the request line at the start of `buf`.
    ///
    /// The buffer must be UTF-8 text as a whole; its first three tokens,
    /// each ended by a space or a carriage return, are the method, the
    /// target and the protocol. The first failure decides the error.
    pub fn try_from(buf: &'buf [u8]) -> (parsed: Result<Request<'buf>, ParseError>)
        ensures
            !valid_utf8(buf@) ==> parsed matches Err(ParseError::InvalidEncoding),
            parsed matches Ok(request) ==> parse_request(buf@) == Ok::<RequestView, ParseError>(
                request@,
            ),
            parsed matches Err(error) ==> parse_request(buf@) == Err::<RequestView, ParseError>(
                error,
            ),
    {
        let text = match core::str::from_utf8(buf) {
            Ok(text) => text,
            Err(e) => {
                return Err(ParseError::from(e));
            },
        };
        proof {
            encode_utf8_decode_utf8(text@);
        }
        let (method, rest) = match get_next_word(text) {
            Some(word) => word,
            None => {
                return Err(ParseError::InvalidRequest);
            },
        };
        let (target, rest) = match get_next_word(rest) {
            Some(word) => word,
            None => {
                return Err(ParseError::InvalidRequest);
            },
        };
        let (protocol, _) = match get_next_word(rest) {
            Some(word) => word,
            None => {
                return Err(ParseError::InvalidRequest);
            },
        };
        if !str_eq(protocol, "HTTP/1.1") {
            return Err(ParseError::InvalidProtocol);
        }
        let method = match Method::from_str(method) {
            Ok(method) => method,
            Err(e) => {
                return Err(ParseError::from(e));
            },
        };
        let (path, query_string) = match cut_at(target, '?') {
            Some((path, raw)) => (path, Some(QueryString::from(raw))),
            None => (target, None),
        };
        proof {
            lemma_target_path_has_no_query(target@);
        }
        Ok(Request { path, query_string, method })
    }
}

/// The path of a target holds no `?`.
pub proof fn lemma_target_path_has_no_query(target: Seq<char>)
    ensures
        !target_path(target).contains('?'),
{
    let path = target_path(target);
    if split_once(target, '?') is Some {
        lemma_split_first_parts(target, set!['?']);
    } else {
        lemma_split_first_none(target, set!['?']);
    }
    if path.contains('?') {
        let i = choose|i: int| 0 <= i < path.len() && path[i] == '?';
        assert(set!['?'].contains(path[i]));
    }
}

/// A target `path?query` has that path and the parse of that query, if
/// the path holds no `?`.
pub proof fn lemma_target_with_query(path: Seq<char>, raw: Seq<char>)
    requires
        is_free_of(path, set!['?']),
    ensures
        target_path(path + seq!['?'] + raw) == path,
        target_query(path + seq!['?'] + raw) == Some(parse_query(raw)),
{
    lemma_split_first_of_parts(path, '?', raw, set!['?']);
}

/// A target without `?` is a path without a query.
pub proof fn lemma_target_without_query(path: Seq<char>)
    requires
        is_free_of(path, set!['?']),
    ensures
        target_path(path) == path,
        target_query(path) is None,
{
    lemma_split_first_none(path, set!['?']);
}

/// True when `c` ends a token of a request line.
pub open spec fn is_word_end(c: char) -> bool {
    c == ' ' || c == '\r'
}

/// True when no character of `text` ends a token.
pub open spec fn is_word(text: Seq<char>) -> bool {
    is_free_of(text, set![' ', '\r'])
}

/// Three tokens in a line, each followed by the character that ends it.
pub open spec fn request_line(
    first: Seq<char>,
    target: Seq<char>,
    protocol: Seq<char>,
    ends: (char, char, char),
) -> Seq<char> {
    first + seq![ends.0] + target + seq![ends.1] + protocol + seq![ends.2]
}

/// A token followed by the end of a word is the next word of a line.
pub proof fn lemma_next_word_of_parts(token: Seq<char>, end: char, rest: Seq<char>)
    requires
        is_word(token),
        is_word_end(end),
    ensures
        next_word(token + seq![end] + rest) == Some((token, rest)),
{
    lemma_split_first_of_parts(token, end, rest, set![' ', '\r']);
}

/// What a text that starts with three tokens denotes is decided by the
/// tokens alone: the third must be `HTTP/1.1`, then the first must name a
/// method, and then the text is the request for the second. What follows
/// the three tokens has no part in it.
pub proof fn lemma_three_words_decide(
    first: Seq<char>,
    target: Seq<char>,
    protocol: Seq<char>,
    ends: (char, char, char),
    rest: Seq<char>,
)
    requires
        is_word(first),
        is_word(target),
        is_word(protocol),
        is_word_end(ends.0),
        is_word_end(ends.1),
        is_word_end(ends.2),
    ensures
        parse_request_line(request_line(first, target, protocol, ends) + rest) == (if protocol
            != "HTTP/1.1"@ {
            Err::<RequestView, ParseError>(ParseError::InvalidProtocol)
        } else {
            match Method::of_token(first) {
                None => Err(ParseError::InvalidMethod),
                Some(method) => Ok(
                    RequestView { method, path: target_path(target), query: target_query(target) },
                ),
            }
        }),
{
    let after_target = protocol + seq![ends.2] + rest;
    let after_method = target + seq![ends.1] + after_target;
    assert(request_line(first, target, protocol, ends) + rest =~= first + seq![ends.0]
        + after_method);
    lemma_next_word_of_parts(first, ends.0, after_method);
    lemma_next_word_of_parts(target, ends.1, after_target);
    lemma_next_word_of_parts(protocol, ends.2, rest);
}

/// Every buffer of UTF-8 text that starts with the token of a method, a
/// target and `HTTP/1.1`, each followed by a space or a carriage return,
/// is a request: for that method, with the path and the query of that
/// target.
pub proof fn lemma_request_parses(
    buf: Seq<u8>,
    method: Method,
    target: Seq<char>,
    ends: (char, char, char),
    rest: Seq<char>,
)
    requires
        valid_utf8(buf),
        decode_utf8(buf) == request_line(method.token(), target, "HTTP/1.1"@, ends) + rest,
        is_word(target),
        is_word_end(ends.0),
        is_word_end(ends.1),
        is_word_end(ends.2),
    ensures
        parse_request(buf) == Ok::<RequestView, ParseError>(
            RequestView { method, path: target_path(target), query: target_query(target) },
        ),
{
    assert(is_word("HTTP/1.1"@)) by {
        reveal_strlit("HTTP/1.1");
    }
    Method::lemma_token_is_word(method);
    Method::lemma_of_token(method);
    lemma_three_words_decide(method.token(), target, "HTTP/1.1"@, ends, rest);
}

/// The number of characters of `text` that end a token.
pub open spec fn word_ends(text: Seq<char>) -> nat
    decreases text.len(),
{
    if text.len() == 0 {
        0
    } else if is_word_end(text.last()) {
        word_ends(text.drop_last()) + 1
    } else {
        word_ends(text.drop_last())
    }
}

/// The word ends of two texts in a row are those of the one and those of
/// the other.
proof fn lemma_word_ends_add(a: Seq<char>, b: Seq<char>)
    ensures
        word_ends(a + b) == word_ends(a) + word_ends(b),
    decreases b.len(),
{
    if b.len() == 0 {
        assert(a + b =~= a);
    } else {
        lemma_word_ends_add(a, b.drop_last());
        assert((a + b).drop_last() =~= a + b.drop_last());
    }
}

/// A text without word end is a word, and a word has no word end.
proof fn lemma_word_ends_none(text: Seq<char>)
    ensures
        word_ends(text) == 0 <==> is_word(text),
    decreases text.len(),
{
    if text.len() > 0 {
        let init = text.drop_last();
        lemma_word_ends_none(init);
        if is_word(text) {
            assert forall|i: int| 0 <= i < init.len() implies !set![' ', '\r'].contains(
                #[trigger] init[i],
            ) by {
                assert(init[i] == text[i]);
            }
            assert(!set![' ', '\r'].contains(text[text.len() - 1]));
        } else if is_word(init) && !is_word_end(text.last()) {
            assert forall|i: int| 0 <= i < text.len() implies !set![' ', '\r'].contains(
                #[trigger] text[i],
            ) by {
                if i < init.len() {
                    assert(text[i] == init[i]);
                }
            }
        }
    }
}

/// Cutting the next word off a text takes one word end away; a text
/// without word end has no next word.
proof fn lemma_next_word_takes_one_end(text: Seq<char>)
    ensures
        next_word(text) is None <==> word_ends(text) == 0,
        next_word(text) matches Some((_, rest)) ==> word_ends(text) == word_ends(rest) + 1,
{
    lemma_word_ends_none(text);
    lemma_split_first_none(text, set![' ', '\r']);
    if next_word(text) is Some {
        lemma_split_first_parts(text, set![' ', '\r']);
        let (head, rest) = next_word(text)->0;
        let end = text[head.len() as int];
        lemma_word_ends_none(head);
        lemma_word_ends_add(head + seq![end], rest);
        lemma_word_ends_add(head, seq![end]);
        assert(word_ends(seq![end]) == 1) by {
            assert(seq![end].drop_last() =~= Seq::<char>::empty());
            assert(word_ends(Seq::<char>::empty()) == 0);
        }
    }
}

/// A text is rejected for its structure exactly when fewer than three of
/// its characters end a token.
pub proof fn lemma_invalid_request(text: Seq<char>)
    ensures
        parse_request_line(text) == Err::<RequestView, ParseError>(ParseError::InvalidRequest)
            <==> word_ends(text) < 3,
{
    lemma_next_word_takes_one_end(text);
    if let Some((_, after_method)) = next_word(text) {
        lemma_next_word_takes_one_end(after_method);
        if let Some((_, after_target)) = next_word(after_method) {
            lemma_next_word_takes_one_end(after_target);
        }
    }
}

/// A buffer is rejected for its encoding exactly when it is not UTF-8
/// text, whatever else it holds.
pub proof fn lemma_invalid_encoding(buf: Seq<u8>)
    ensures
        parse_request(buf) == Err::<RequestView, ParseError>(ParseError::InvalidEncoding)
            <==> !valid_utf8(buf),
{
}

/// The bytes of a text are read as that text again.
pub proof fn lemma_parse_request_of_text(text: Seq<char>)
    ensures
        parse_request(encode_utf8(text)) == parse_request_line(text),
{
    encode_utf8_valid_utf8(text);
    encode_utf8_decode_utf8(text);
}

/// The path of a parsed request holds no `?`.
pub proof fn lemma_path_has_no_query(buf: Seq<u8>)
    requires
        parse_request(buf) is Ok,
    ensures
        !parse_request(buf)->Ok_0.path.contains('?'),
{
    let text = decode_utf8(buf);
    let (_, after_method) = next_word(text)->0;
    let (target, _) = next_word(after_method)->0;
    lemma_target_path_has_no_query(target);
}

} // verus!
