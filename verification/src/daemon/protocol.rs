//! The messages exchanged between the command-line client and the daemon.

use vstd::prelude::*;

use crate::text::owned;

verus! {

/// A request sent from the client to the daemon.
#[derive(Debug)]
pub struct Request {
    pub command: String,
    pub args: String,
    /// Output format (`text` or `json`).
    pub format: String,
}

/// A response sent from the daemon back to the client.
#[derive(Debug)]
pub struct Response {
    pub status: String,
    pub output: Option<String>,
    pub message: Option<String>,
}

impl Request {
    /// A request for `command` with `args` in `format`.
    pub fn new(command: &str, args: &str, format: &str) -> (r: Request)
        ensures
            r.command@ == command@,
            r.args@ == args@,
            r.format@ == format@,
    {
        Request { command: owned(command), args: owned(args), format: owned(format) }
    }

    /// The format a request has when it names none.
    pub fn default_format() -> (r: String)
        ensures
            r@ == "text"@,
    {
        owned("text")
    }
}

impl Response {
    /// A successful response carrying `output`.
    pub fn ok(output: String) -> (r: Response)
        ensures
            r.status@ == "ok"@,
            r.output == Some(output),
            r.message is None,
    {
        Response { status: owned("ok"), output: Some(output), message: None }
    }

    /// A failed response carrying `message`.
    pub fn error(message: String) -> (r: Response)
        ensures
            r.status@ == "error"@,
            r.output is None,
            r.message == Some(message),
    {
        Response { status: owned("error"), output: None, message: Some(message) }
    }
}

} // verus!
