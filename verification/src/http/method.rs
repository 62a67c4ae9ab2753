//! The closed set of HTTP request methods.
use super::text::str_eq;
use vstd::prelude::*;

verus! {

/// An HTTP request method.
#[derive(Debug, Clone, Copy, PartialEq, Eq, Structural)]
pub enum Method {
    GET,
    POST,
    PUT,
    HEAD,
    CONNECT,
    OPTIONS,
    TRACE,
    PATCH,
    DELETE,
}

/// The error of converting a token that names none of the methods.
#[derive(Debug, Clone, Copy, PartialEq, Eq, Structural)]
pub struct MethodError;

impl Method {
    /// The token that names this method in a request line.
    pub open spec fn token(self) -> Seq<char> {
        match self {
            Method::GET => "GET"@,
            Method::POST => "POST"@,
            Method::PUT => "PUT"@,
            Method::HEAD => "HEAD"@,
            Method::CONNECT => "CONNECT"@,
            Method::OPTIONS => "OPTIONS"@,
            Method::TRACE => "TRACE"@,
            Method::PATCH => "PATCH"@,
            Method::DELETE => "DELETE"@,
        }
    }

    /// The method that `token` names, if it names one. The match is exact
    /// and case-sensitive.
    pub open spec fn of_token(token: Seq<char>) -> Option<Method> {
        if exists|m: Method| m.token() == token {
            Some(choose|m: Method| m.token() == token)
        } else {
            None
        }
    }

    /// No two methods share a token.
    pub proof fn lemma_token_injective(a: Method, b: Method)
        requires
            a.token() == b.token(),
        ensures
            a == b,
    {
        Method::lemma_token_shape(a);
        Method::lemma_token_shape(b);
    }

    /// The length and the first character of each token, which tell the
    /// nine apart.
    proof fn lemma_token_shape(m: Method)
        ensures
            m.token().len() == (match m {
                Method::GET | Method::PUT => 3nat,
                Method::POST | Method::HEAD => 4nat,
                Method::TRACE | Method::PATCH => 5nat,
                Method::DELETE => 6nat,
                Method::CONNECT | Method::OPTIONS => 7nat,
            }),
            m.token()[0] == (match m {
                Method::GET => 'G',
                Method::POST | Method::PUT | Method::PATCH => 'P',
                Method::HEAD => 'H',
                Method::CONNECT => 'C',
                Method::OPTIONS => 'O',
                Method::TRACE => 'T',
                Method::DELETE => 'D',
            }),
    {
        reveal_strlit("GET");
        reveal_strlit("POST");
        reveal_strlit("PUT");
        reveal_strlit("HEAD");
        reveal_strlit("CONNECT");
        reveal_strlit("OPTIONS");
        reveal_strlit("TRACE");
        reveal_strlit("PATCH");
        reveal_strlit("DELETE");
    }

    /// No token holds a space or a carriage return.
    pub proof fn lemma_token_is_word(m: Method)
        ensures
            forall|i: int|
                0 <= i < m.token().len() ==> (#[trigger] m.token()[i]) != ' ' && m.token()[i]
                    != '\r',
    {
        reveal_strlit("GET");
        reveal_strlit("POST");
        reveal_strlit("PUT");
        reveal_strlit("HEAD");
        reveal_strlit("CONNECT");
        reveal_strlit("OPTIONS");
        reveal_strlit("TRACE");
        reveal_strlit("PATCH");
        reveal_strlit("DELETE");
    }

    /// The token of a method names that method and no other.
    pub proof fn lemma_of_token(m: Method)
        ensures
            Method::of_token(m.token()) == Some(m),
    {
        let found = choose|x: Method| x.token() == m.token();
        Method::lemma_token_injective(found, m);
    }

    /// Converts a request-line token to the method it names.
    pub fn from_str(s: &str) -> (r: Result<Method, MethodError>)
        ensures
            r.ok() == Method::of_token(s@),
            r matches Ok(m) ==> m.token() == s@,
            r is Err ==> forall|m: Method| m.token() != s@,
    {
        let r = if str_eq(s, "GET") {
            Ok(Method::GET)
        } else if str_eq(s, "POST") {
            Ok(Method::POST)
        } else if str_eq(s, "PUT") {
            Ok(Method::PUT)
        } else if str_eq(s, "HEAD") {
            Ok(Method::HEAD)
        } else if str_eq(s, "CONNECT") {
            Ok(Method::CONNECT)
        } else if str_eq(s, "DELETE") {
            Ok(Method::DELETE)
        } else if str_eq(s, "OPTIONS") {
            Ok(Method::OPTIONS)
        } else if str_eq(s, "TRACE") {
            Ok(Method::TRACE)
        } else if str_eq(s, "PATCH") {
            Ok(Method::PATCH)
        } else {
            Err(MethodError)
        };
        proof {
            if let Ok(m) = r {
                Method::lemma_of_token(m);
            }
        }
        r
    }
}

} // verus!
