//! The server and the handler it hands requests to.
//!
//! The server answers one request per connection: the bytes read from the
//! connection are parsed, the handler produces a response for the request
//! or for the parse failure, and the response is written back.
use crate::http::request::{parse_request, ParseError, Request, RequestView};
use crate::http::response::{Response, ResponseView};
use crate::http::status_code::StatusCode;
use vstd::prelude::*;

verus! {

/// The size in bytes of the buffer that one connection is read into, once.
/// A request that does not fit is cut short.
pub const BUFFER_SIZE: usize = 1024;

/// What the server asks of the program that embeds it.
pub trait Handler {
    /// Produces the response to a request.
    fn handle_request(&mut self, request: &Request) -> Response;

    /// Produces the response to a buffer that is not a request. Unless a
    /// handler overrides it, the response is `400 Bad Request` without a
    /// body.
    fn handle_bad_request(&mut self, e: &ParseError) -> (response: Response)
        default_ensures
            response@ == (ResponseView { status: StatusCode::BadRequest, body: None }),
    {
        Response::new(StatusCode::BadRequest, None)
    }
}

/// A server, known by the address it listens on.
#[derive(Debug)]
pub struct Server {
    addr: String,
}

impl View for Server {
    type V = Seq<char>;

    closed spec fn view(&self) -> Seq<char> {
        self.addr@
    }
}

impl Server {
    /// A server for the address `addr`. Nothing is bound yet.
    pub fn new(addr: String) -> (server: Server)
        ensures
            server@ == addr@,
    {
        Server { addr }
    }

    /// The address that the server was made for.
    pub fn addr(&self) -> (addr: &str)
        ensures
            addr@ == self@,
    {
        self.addr.as_str()
    }
}

/// Answers what was read from one connection: parses `input`, asks
/// `handler` for the response to the request, or to the failure if `input`
/// is no request, and writes the response to `output`.
///
/// Whatever the handler answers, exactly one response is written. The
/// result tells whether `input` was a request, and if not, why.
pub fn handle_connection<H: Handler>(
    handler: &mut H,
    input: &[u8],
    output: &mut Vec<u8>,
) -> (outcome: Result<(), ParseError>)
    ensures
        outcome is Ok ==> parse_request(input@) is Ok,
        outcome matches Err(error) ==> parse_request(input@) == Err::<RequestView, ParseError>(
            error,
        ),
        exists|response: ResponseView|
            final(output)@ == old(output)@ + #[trigger] response.wire_bytes(),
{
    let (response, outcome) = match Request::try_from(input) {
        Ok(request) => (handler.handle_request(&request), Ok(())),
        Err(error) => (handler.handle_bad_request(&error), Err(error)),
    };
    response.send(output);
    assert(output@ == old(output)@ + response@.wire_bytes());
    outcome
}

} // verus!
