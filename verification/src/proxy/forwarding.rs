//! What is passed on between a client and a media server.

use vstd::prelude::*;
use crate::text::{chars_of, contains_text, holds_text, is_at, occurs_at, same_text, text_of};

verus! {

/// Whether a header of a request about playing something is passed on: its length and the
/// encodings that the client accepts are not. The name is in lower case.
pub fn forwards_request_header(name: &str) -> (b: bool)
    ensures
        b == (name@ != "content-length"@ && name@ != "accept-encoding"@),
{
    !same_text(name, "content-length") && !same_text(name, "accept-encoding")
}

/// Whether a header of the response is passed on: what says how its body was sent is not. The
/// name is in lower case.
pub fn forwards_response_header(name: &str) -> (b: bool)
    ensures
        b == (name@ != "content-length"@ && name@ != "content-encoding"@ && name@
            != "transfer-encoding"@ && name@ != "connection"@),
{
    !same_text(name, "content-length") && !same_text(name, "content-encoding") && !same_text(
        name,
        "transfer-encoding",
    ) && !same_text(name, "connection")
}

/// Whether the body of a response is changed: if it is JSON, and the request was successful.
pub fn changes_response(content_type: Option<&str>, success: bool) -> (b: bool)
    ensures
        b == (success && match content_type {
            Some(t) => holds_text(t@, "application/json"@),
            None => false,
        }),
{
    success && match content_type {
        Some(t) => contains_text(t, "application/json"),
        None => false,
    }
}

/// The URL of the media server that a request goes to.
pub fn upstream_url(server: &str, path_and_query: &str) -> (url: String)
    ensures
        url@ == server@ + path_and_query@,
{
    let mut url: String = server.to_owned();
    url.push_str(path_and_query);
    url
}

/// The address of the media server for web sockets: the same with `ws` for a leading `http`.
pub open spec fn socket_server(server: Seq<char>) -> Seq<char> {
    if occurs_at(server, "http"@, 0) {
        "ws"@ + server.skip(4)
    } else {
        server
    }
}

/// The URL of the media server that a web socket is connected to.
pub fn upstream_socket_url(server: &str, path_and_query: &str) -> (url: String)
    ensures
        url@ == socket_server(server@) + path_and_query@,
{
    let chars: Vec<char> = chars_of(server);
    let mut url: String = if is_at(chars.as_slice(), chars_of("http").as_slice(), 0) {
        proof {
            reveal_strlit("http");
            assert(server@.subrange(4, server@.len() as int) =~= server@.skip(4));
        }
        let mut ws: String = "ws".to_owned();
        ws.push_str(text_of(chars.as_slice(), 4, chars.len()).as_str());
        ws
    } else {
        server.to_owned()
    };
    url.push_str(path_and_query);
    url
}

/// Whether a request says that a playback has ended, so that its stream is no longer needed.
pub fn ends_playback(method: &str, path: &str) -> (b: bool)
    ensures
        b == (method@ == "DELETE"@ && path@ == "/Videos/ActiveEncodings"@),
{
    same_text(method, "DELETE") && same_text(path, "/Videos/ActiveEncodings")
}

/// Where the answering of a request failed.
#[derive(Debug, Clone, Copy, PartialEq, Eq, Structural)]
pub enum Failure {
    /// The request could not be read.
    DecodeRequest,
    /// The media server could not be reached.
    Send,
    /// The answer of the media server broke off.
    ReadBody,
    /// The answer of the media server could not be read.
    DecodeResponse,
    /// A URL in the answer could not be rewritten.
    Rewrite,
    /// The response could not be put together.
    BuildResponse,
    /// The URL is none that is known.
    UnknownUrl,
    /// There is no such media file.
    NoFile,
    /// The media file could not be opened.
    OpenMedia,
    /// The playlist or segment could not be made.
    Generate,
}

/// The HTTP status of a failure.
pub open spec fn status_of(f: Failure) -> u16 {
    match f {
        Failure::DecodeRequest => 400,
        Failure::DecodeResponse => 400,
        Failure::Rewrite => 400,
        Failure::UnknownUrl => 400,
        Failure::NoFile => 404,
        Failure::Send => 502,
        _ => 500,
    }
}

impl Failure {
    /// The HTTP status of the failure.
    pub fn status(&self) -> (code: u16)
        ensures
            code == status_of(*self),
    {
        match self {
            Failure::DecodeRequest => 400,
            Failure::DecodeResponse => 400,
            Failure::Rewrite => 400,
            Failure::UnknownUrl => 400,
            Failure::NoFile => 404,
            Failure::Send => 502,
            _ => 500,
        }
    }
}

} // verus!
