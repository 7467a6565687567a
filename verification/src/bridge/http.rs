//! Requests and responses of the bridge's minimal HTTP/1.1 service, and
//! the content type of a static file.
use vstd::prelude::*;

use crate::text::{chars_of, owned, str_eq, string_of};

verus! {

/// A request as read from the connection.
#[derive(Clone, Debug)]
pub struct Request {
    /// Method, such as `GET`.
    pub method: String,
    /// Path without the query.
    pub path: String,
    /// Body bytes.
    pub body: Vec<u8>,
}

/// A response to send.
#[derive(Clone, Debug)]
pub struct Response {
    /// Status code.
    pub status: u16,
    /// Value of the `Content-Type` header.
    pub content_type: String,
    /// Body bytes.
    pub body: Vec<u8>,
    /// Further headers.
    pub extra_headers: Vec<(String, String)>,
}

/// Reason phrase of a status code.
pub open spec fn reason_of(status: u16) -> Seq<char> {
    if status == 200 {
        "OK"@
    } else if status == 204 {
        "No Content"@
    } else if status == 400 {
        "Bad Request"@
    } else if status == 404 {
        "Not Found"@
    } else if status == 405 {
        "Method Not Allowed"@
    } else if status == 500 {
        "Internal Server Error"@
    } else if status == 501 {
        "Not Implemented"@
    } else {
        "Unknown"@
    }
}

impl Response {
    /// A 200 response with a JSON body.
    pub fn json(body: String) -> (r: Response)
        ensures
            r.status == 200,
            r.content_type@ == "application/json; charset=utf-8"@,
            r.body@ == vstd::utf8::encode_utf8(body@),
            r.extra_headers@.len() == 0,
    {
        Response {
            status: 200,
            content_type: owned("application/json; charset=utf-8"),
            body: vstd::slice::slice_to_vec(body.as_str().as_bytes()),
            extra_headers: Vec::new(),
        }
    }

    /// A plain-text response with the given status.
    pub fn text(status: u16, body: String) -> (r: Response)
        ensures
            r.status == status,
            r.content_type@ == "text/plain; charset=utf-8"@,
            r.body@ == vstd::utf8::encode_utf8(body@),
            r.extra_headers@.len() == 0,
    {
        Response {
            status,
            content_type: owned("text/plain; charset=utf-8"),
            body: vstd::slice::slice_to_vec(body.as_str().as_bytes()),
            extra_headers: Vec::new(),
        }
    }

    /// A 200 response with raw bytes of the given type.
    pub fn bytes(content_type: &str, body: Vec<u8>) -> (r: Response)
        ensures
            r.status == 200,
            r.content_type@ == content_type@,
            r.body@ == body@,
            r.extra_headers@.len() == 0,
    {
        Response { status: 200, content_type: owned(content_type), body, extra_headers: Vec::new() }
    }

    /// The reason phrase of the status line.
    pub fn status_text(&self) -> (r: &'static str)
        ensures
            r@ == reason_of(self.status),
    {
        match self.status {
            200 => "OK",
            204 => "No Content",
            400 => "Bad Request",
            404 => "Not Found",
            405 => "Method Not Allowed",
            500 => "Internal Server Error",
            501 => "Not Implemented",
            _ => "Unknown",
        }
    }
}

/// Index of the last `.` among the first `n` characters of `p`, or -1.
pub open spec fn last_dot(p: Seq<char>, n: int) -> int
    decreases n,
{
    if n <= 0 {
        -1
    } else if p[n - 1] == '.' {
        n - 1
    } else {
        last_dot(p, n - 1)
    }
}

/// What follows the last `.` of a path (the whole path when it has none).
pub open spec fn extension(p: Seq<char>) -> Seq<char> {
    p.skip(last_dot(p, p.len() as int) + 1)
}

/// Content type of a file extension (`application/octet-stream` when
/// unknown).
pub open spec fn mime_for(ext: Seq<char>) -> Seq<char> {
    if ext == "html"@ || ext == "htm"@ {
        "text/html; charset=utf-8"@
    } else if ext == "js"@ || ext == "mjs"@ {
        "text/javascript; charset=utf-8"@
    } else if ext == "css"@ {
        "text/css; charset=utf-8"@
    } else if ext == "json"@ {
        "application/json; charset=utf-8"@
    } else if ext == "svg"@ {
        "image/svg+xml"@
    } else if ext == "png"@ {
        "image/png"@
    } else if ext == "jpg"@ || ext == "jpeg"@ {
        "image/jpeg"@
    } else if ext == "webp"@ {
        "image/webp"@
    } else if ext == "ico"@ {
        "image/x-icon"@
    } else if ext == "woff2"@ {
        "font/woff2"@
    } else if ext == "woff"@ {
        "font/woff"@
    } else if ext == "map"@ {
        "application/json; charset=utf-8"@
    } else if ext == "txt"@ {
        "text/plain; charset=utf-8"@
    } else {
        "application/octet-stream"@
    }
}

/// Content type of a file, guessed from its extension.
pub fn mime_of(path: &str) -> (r: &'static str)
    ensures
        r@ == mime_for(extension(path@)),
{
    let cs = chars_of(path);
    let mut n: usize = cs.len();
    while n > 0 && cs[n - 1] != '.'
        invariant
            n <= cs@.len(),
            last_dot(cs@, cs@.len() as int) == last_dot(cs@, n as int),
        decreases n,
    {
        n -= 1;
    }
    let mut ext: Vec<char> = Vec::new();
    let mut i: usize = n;
    while i < cs.len()
        invariant
            n <= i <= cs@.len(),
            ext@ == cs@.subrange(n as int, i as int),
        decreases cs@.len() - i,
    {
        ext.push(cs[i]);
        i += 1;
        assert(ext@ =~= cs@.subrange(n as int, i as int));
    }
    assert(ext@ =~= extension(path@));
    let e = string_of(&ext);
    let e = e.as_str();
    if str_eq(e, "html") || str_eq(e, "htm") {
        "text/html; charset=utf-8"
    } else if str_eq(e, "js") || str_eq(e, "mjs") {
        "text/javascript; charset=utf-8"
    } else if str_eq(e, "css") {
        "text/css; charset=utf-8"
    } else if str_eq(e, "json") {
        "application/json; charset=utf-8"
    } else if str_eq(e, "svg") {
        "image/svg+xml"
    } else if str_eq(e, "png") {
        "image/png"
    } else if str_eq(e, "jpg") || str_eq(e, "jpeg") {
        "image/jpeg"
    } else if str_eq(e, "webp") {
        "image/webp"
    } else if str_eq(e, "ico") {
        "image/x-icon"
    } else if str_eq(e, "woff2") {
        "font/woff2"
    } else if str_eq(e, "woff") {
        "font/woff"
    } else if str_eq(e, "map") {
        "application/json; charset=utf-8"
    } else if str_eq(e, "txt") {
        "text/plain; charset=utf-8"
    } else {
        "application/octet-stream"
    }
}

} // verus!
