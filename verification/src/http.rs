//! The per-connection protocol logic: parsing the request line into tokens,
//! matching the fixed route table, reading `Content-Length` from header
//! lines, and framing a response as status line, length header and body.

use vstd::prelude::*;
use vstd::string::StringSliceAdditionalSpecFns;
use crate::text::{
    all_digits, bytes_eq, dec_bytes, dec_val, has_prefix, parse_u64_range, push_bytes,
    push_dec_u64, split_ws, trim_range, trimmed, ws_tokens,
};

verus! {

/// A failure confined to one connection.
#[derive(Clone, Copy, PartialEq, Eq, Structural, Debug)]
pub enum HttpError {
    /// The request line has fewer than three whitespace-separated tokens.
    MalformedRequestLine,
    /// A `Content-Length` header value is not an unsigned decimal number.
    BadContentLength,
}

/// The status line of a response.
#[derive(Clone, Copy, PartialEq, Eq, Structural, Debug)]
pub enum Status {
    Ok200,
    NotFound404,
}

pub open spec fn status_bytes(s: Status) -> Seq<u8> {
    match s {
        Status::Ok200 => "HTTP/1.1 200 OK".spec_bytes(),
        Status::NotFound404 => "HTTP/1.1 404 NOT FOUND".spec_bytes(),
    }
}

/// The status line of `s` as bytes.
pub fn status_line(s: Status) -> (r: &'static [u8])
    ensures
        r@ == status_bytes(s),
{
    match s {
        Status::Ok200 => "HTTP/1.1 200 OK".as_bytes(),
        Status::NotFound404 => "HTTP/1.1 404 NOT FOUND".as_bytes(),
    }
}

/// What the fixed route table decides for one request.
#[derive(Clone, Copy, PartialEq, Eq, Structural, Debug)]
pub enum Route {
    /// Serve the index asset with status 200.
    Index,
    /// Hold the current worker for the given number of seconds, then serve
    /// the index asset.
    Sleep(u64),
    /// Read the body and add a product record.
    AddProduct,
    /// Read the body and delete a product record.
    DeleteProduct,
    /// Serve the product listing.
    ListProducts,
    /// Serve the not-found asset with status 404.
    NotFound,
}

pub open spec fn sleep_prefix() -> Seq<u8> {
    "/sleep/".spec_bytes()
}

/// Seconds asked for by a `/sleep/<n>` path: the digits after the prefix,
/// clamped to 60; anything unreadable falls back to 5.
pub open spec fn sleep_secs_of(path: Seq<u8>) -> u64 {
    let digits = path.skip(sleep_prefix().len() as int);
    if digits.len() > 0 && all_digits(digits) && dec_val(digits) <= u64::MAX {
        if dec_val(digits) <= 60 {
            dec_val(digits) as u64
        } else {
            60u64
        }
    } else {
        5u64
    }
}

/// The fixed route table on (method, path).
pub open spec fn route_of(method: Seq<u8>, path: Seq<u8>) -> Route {
    if method == "GET".spec_bytes() && path == "/".spec_bytes() {
        Route::Index
    } else if method == "GET".spec_bytes() && path == "/sleep".spec_bytes() {
        Route::Sleep(5)
    } else if method == "GET".spec_bytes() && path.len() >= sleep_prefix().len() && path.take(
        sleep_prefix().len() as int,
    ) == sleep_prefix() {
        Route::Sleep(sleep_secs_of(path))
    } else if method == "POST".spec_bytes() && path == "/add".spec_bytes() {
        Route::AddProduct
    } else if method == "DELETE".spec_bytes() && path == "/delete".spec_bytes() {
        Route::DeleteProduct
    } else if method == "GET".spec_bytes() && path == "/products".spec_bytes() {
        Route::ListProducts
    } else {
        Route::NotFound
    }
}

/// Whatever the route table answers, a sleep never exceeds 60 seconds.
pub proof fn lemma_sleep_secs_clamped(method: Seq<u8>, path: Seq<u8>, s: u64)
    requires
        route_of(method, path) == Route::Sleep(s),
    ensures
        s <= 60,
{
}

/// Matches (method, path) against the fixed route table.
pub fn route(method: &[u8], path: &[u8]) -> (r: Route)
    ensures
        r == route_of(method@, path@),
{
    let get = "GET".as_bytes();
    if bytes_eq(method, get) && bytes_eq(path, "/".as_bytes()) {
        Route::Index
    } else if bytes_eq(method, get) && bytes_eq(path, "/sleep".as_bytes()) {
        Route::Sleep(5)
    } else if bytes_eq(method, get) && has_prefix(path, "/sleep/".as_bytes()) {
        let digits_from = "/sleep/".as_bytes().len();
        match parse_u64_range(path, digits_from, path.len()) {
            Some(v) => {
                proof {
                    assert(path@.subrange(digits_from as int, path@.len() as int) =~= path@.skip(
                        sleep_prefix().len() as int,
                    ));
                }
                if v <= 60 {
                    Route::Sleep(v)
                } else {
                    Route::Sleep(60)
                }
            },
            None => {
                proof {
                    assert(path@.subrange(digits_from as int, path@.len() as int) =~= path@.skip(
                        sleep_prefix().len() as int,
                    ));
                }
                Route::Sleep(5)
            },
        }
    } else if bytes_eq(method, "POST".as_bytes()) && bytes_eq(path, "/add".as_bytes()) {
        Route::AddProduct
    } else if bytes_eq(method, "DELETE".as_bytes()) && bytes_eq(path, "/delete".as_bytes()) {
        Route::DeleteProduct
    } else if bytes_eq(method, get) && bytes_eq(path, "/products".as_bytes()) {
        Route::ListProducts
    } else {
        Route::NotFound
    }
}

/// The first line of a request, split into its three leading tokens.
pub struct RequestLine {
    pub method: Vec<u8>,
    pub path: Vec<u8>,
    pub version: Vec<u8>,
}

/// Splits a request line on whitespace. Succeeds exactly when at least
/// three tokens are present; extra tokens are ignored.
pub fn parse_request_line(line: &[u8]) -> (r: Result<RequestLine, HttpError>)
    ensures
        match r {
            Ok(rl) => ws_tokens(line@).len() >= 3 && rl.method@ == ws_tokens(line@)[0]
                && rl.path@ == ws_tokens(line@)[1] && rl.version@ == ws_tokens(line@)[2],
            Err(e) => ws_tokens(line@).len() < 3 && e == HttpError::MalformedRequestLine,
        },
{
    let mut parts = split_ws(line);
    if parts.len() < 3 {
        return Err(HttpError::MalformedRequestLine);
    }
    let ghost toks = ws_tokens(line@);
    let method = parts.remove(0);
    let path = parts.remove(0);
    let version = parts.remove(0);
    proof {
        assert(method.deep_view() =~= method@);
        assert(path.deep_view() =~= path@);
        assert(version.deep_view() =~= version@);
    }
    Ok(RequestLine { method, path, version })
}

/// Parses the request line and answers the route it selects.
pub fn route_request(line: &[u8]) -> (r: Result<Route, HttpError>)
    ensures
        match r {
            Ok(rt) => ws_tokens(line@).len() >= 3 && rt == route_of(
                ws_tokens(line@)[0],
                ws_tokens(line@)[1],
            ),
            Err(e) => ws_tokens(line@).len() < 3 && e == HttpError::MalformedRequestLine,
        },
{
    let rl = match parse_request_line(line) {
        Ok(rl) => rl,
        Err(e) => {
            return Err(e);
        },
    };
    Ok(route(rl.method.as_slice(), rl.path.as_slice()))
}

pub open spec fn cl_prefix() -> Seq<u8> {
    "Content-Length:".spec_bytes()
}

/// Does this header line carry the body length?
pub open spec fn is_cl_line(line: Seq<u8>) -> bool {
    line.len() >= cl_prefix().len() && line.take(cl_prefix().len() as int) == cl_prefix()
}

/// The index of the last `Content-Length` header line, or -1.
pub open spec fn last_cl_index(headers: Seq<Seq<u8>>) -> int
    decreases headers.len(),
{
    if headers.len() == 0 {
        -1
    } else if is_cl_line(headers.last()) {
        headers.len() - 1
    } else {
        last_cl_index(headers.drop_last())
    }
}

/// The digits of a `Content-Length` line: what follows the label, trimmed.
pub open spec fn cl_digits(line: Seq<u8>) -> Seq<u8> {
    trimmed(line.skip(cl_prefix().len() as int))
}

/// The body length announced by the header lines: zero when no line carries
/// one, `None` when the announcing line is unreadable.
pub open spec fn body_length_of(headers: Seq<Seq<u8>>) -> Option<u64> {
    let i = last_cl_index(headers);
    if i < 0 {
        Some(0u64)
    } else {
        let w = cl_digits(headers[i]);
        if w.len() > 0 && all_digits(w) && dec_val(w) <= u64::MAX {
            Some(dec_val(w) as u64)
        } else {
            None
        }
    }
}

proof fn lemma_bytes_deep_view(v: Vec<u8>)
    ensures
        v.deep_view() == v@,
{
    assert(v.deep_view() =~= v@);
}

/// Reads the announced body length out of the header lines: the last
/// `Content-Length` line wins, absence means zero, and an unreadable value
/// is a per-connection error.
pub fn content_length(headers: &Vec<Vec<u8>>) -> (r: Result<u64, HttpError>)
    ensures
        match r {
            Ok(v) => body_length_of(headers.deep_view()) == Some(v),
            Err(e) => body_length_of(headers.deep_view()) is None && e
                == HttpError::BadContentLength,
        },
{
    let ghost dv = headers.deep_view();
    let label = "Content-Length:".as_bytes();
    let mut found: Option<usize> = None;
    let mut i: usize = 0;
    while i < headers.len()
        invariant
            0 <= i <= headers@.len(),
            dv == headers.deep_view(),
            dv.len() == headers@.len(),
            label@ == cl_prefix(),
            match found {
                None => last_cl_index(dv.take(i as int)) == -1,
                Some(b) => b < i && last_cl_index(dv.take(i as int)) == b && is_cl_line(
                    dv[b as int],
                ),
            },
        decreases headers@.len() - i,
    {
        proof {
            lemma_bytes_deep_view(headers@[i as int]);
            assert(dv[i as int] == headers@[i as int].deep_view());
            assert(dv.take(i as int + 1).drop_last() =~= dv.take(i as int));
            assert(dv.take(i as int + 1).last() == dv[i as int]);
        }
        let is_cl = has_prefix(headers[i].as_slice(), label);
        proof {
            assert(is_cl == is_cl_line(dv[i as int]));
        }
        if is_cl {
            found = Some(i);
        }
        i += 1;
    }
    proof {
        assert(dv.take(headers@.len() as int) =~= dv);
    }
    match found {
        None => Ok(0),
        Some(b) => {
            let line = &headers[b];
            proof {
                lemma_bytes_deep_view(headers@[b as int]);
            }
            let (lo, hi) = trim_range(line.as_slice(), label.len());
            match parse_u64_range(line.as_slice(), lo, hi) {
                Some(v) => Ok(v),
                None => Err(HttpError::BadContentLength),
            }
        },
    }
}

/// A full response: status line, a `Content-Length` header that states the
/// body's byte count, a blank line, then the body.
pub open spec fn response_bytes(status: Status, body: Seq<u8>) -> Seq<u8> {
    status_bytes(status) + "\r\nContent-Length: ".spec_bytes() + dec_bytes(body.len())
        + "\r\n\r\n".spec_bytes() + body
}

/// A framed response ends with exactly the body it was given.
pub proof fn lemma_response_carries_body(status: Status, body: Seq<u8>)
    ensures
        response_bytes(status, body).len() >= body.len(),
        response_bytes(status, body).skip(
            response_bytes(status, body).len() - body.len(),
        ) == body,
{
    assert(response_bytes(status, body).skip(response_bytes(status, body).len() - body.len())
        =~= body);
}

/// Frames a response around the given body.
pub fn frame_response(status: Status, body: &[u8]) -> (r: Vec<u8>)
    ensures
        r@ == response_bytes(status, body@),
{
    let mut out: Vec<u8> = Vec::new();
    push_bytes(&mut out, status_line(status));
    push_bytes(&mut out, "\r\nContent-Length: ".as_bytes());
    push_dec_u64(&mut out, body.len() as u64);
    push_bytes(&mut out, "\r\n\r\n".as_bytes());
    push_bytes(&mut out, body);
    proof {
        assert(out@ =~= response_bytes(status, body@));
    }
    out
}

} // verus!
