use ruueb::http::{
    content_length, frame_response, parse_request_line, route_request, HttpError, Route, Status,
};

#[test]
fn request_line_splits_into_three_tokens() {
    let rl = parse_request_line(b"GET /products HTTP/1.1").unwrap();
    assert_eq!(rl.method, b"GET".to_vec());
    assert_eq!(rl.path, b"/products".to_vec());
    assert_eq!(rl.version, b"HTTP/1.1".to_vec());
}

#[test]
fn request_line_with_extra_whitespace_still_parses() {
    let rl = parse_request_line(b"  POST   /add   HTTP/1.1  ").unwrap();
    assert_eq!(rl.method, b"POST".to_vec());
    assert_eq!(rl.path, b"/add".to_vec());
}

#[test]
fn short_request_line_is_an_error_not_a_crash() {
    assert!(matches!(
        parse_request_line(b"GET /"),
        Err(HttpError::MalformedRequestLine)
    ));
    assert!(matches!(
        parse_request_line(b""),
        Err(HttpError::MalformedRequestLine)
    ));
    assert_eq!(
        route_request(b"garbage"),
        Err(HttpError::MalformedRequestLine)
    );
}

#[test]
fn route_table_matches_the_fixed_routes() {
    assert_eq!(route_request(b"GET / HTTP/1.1"), Ok(Route::Index));
    assert_eq!(route_request(b"GET /sleep HTTP/1.1"), Ok(Route::Sleep(5)));
    assert_eq!(route_request(b"POST /add HTTP/1.1"), Ok(Route::AddProduct));
    assert_eq!(
        route_request(b"DELETE /delete HTTP/1.1"),
        Ok(Route::DeleteProduct)
    );
    assert_eq!(
        route_request(b"GET /products HTTP/1.1"),
        Ok(Route::ListProducts)
    );
    assert_eq!(route_request(b"GET /unknown-path HTTP/1.1"), Ok(Route::NotFound));
    assert_eq!(route_request(b"POST / HTTP/1.1"), Ok(Route::NotFound));
}

#[test]
fn sleep_seconds_parse_and_clamp() {
    assert_eq!(route_request(b"GET /sleep/7 HTTP/1.1"), Ok(Route::Sleep(7)));
    assert_eq!(route_request(b"GET /sleep/60 HTTP/1.1"), Ok(Route::Sleep(60)));
    assert_eq!(route_request(b"GET /sleep/120 HTTP/1.1"), Ok(Route::Sleep(60)));
    assert_eq!(route_request(b"GET /sleep/abc HTTP/1.1"), Ok(Route::Sleep(5)));
    assert_eq!(route_request(b"GET /sleep/ HTTP/1.1"), Ok(Route::Sleep(5)));
    assert_eq!(
        route_request(b"GET /sleep/99999999999999999999 HTTP/1.1"),
        Ok(Route::Sleep(5))
    );
}

#[test]
fn content_length_reads_the_header() {
    let headers = vec![
        b"Host: localhost".to_vec(),
        b"Content-Length: 42".to_vec(),
    ];
    assert_eq!(content_length(&headers), Ok(42));
}

#[test]
fn content_length_defaults_to_zero() {
    let headers = vec![b"Host: localhost".to_vec()];
    assert_eq!(content_length(&headers), Ok(0));
    assert_eq!(content_length(&Vec::new()), Ok(0));
}

#[test]
fn content_length_last_header_wins() {
    let headers = vec![
        b"Content-Length: 1".to_vec(),
        b"Content-Length: 9".to_vec(),
    ];
    assert_eq!(content_length(&headers), Ok(9));
}

#[test]
fn unreadable_content_length_is_an_error() {
    let headers = vec![b"Content-Length: ten".to_vec()];
    assert_eq!(content_length(&headers), Err(HttpError::BadContentLength));
    let headers = vec![b"Content-Length:".to_vec()];
    assert_eq!(content_length(&headers), Err(HttpError::BadContentLength));
}

#[test]
fn framed_response_states_the_exact_byte_length() {
    let resp = frame_response(Status::Ok200, b"hello");
    assert_eq!(
        resp,
        b"HTTP/1.1 200 OK\r\nContent-Length: 5\r\n\r\nhello".to_vec()
    );
}

#[test]
fn framed_not_found_carries_the_not_found_body() {
    let resp = frame_response(Status::NotFound404, b"<h1>missing</h1>");
    assert_eq!(
        resp,
        b"HTTP/1.1 404 NOT FOUND\r\nContent-Length: 16\r\n\r\n<h1>missing</h1>".to_vec()
    );
}

#[test]
fn framed_empty_body_has_length_zero() {
    let resp = frame_response(Status::Ok200, b"");
    assert_eq!(resp, b"HTTP/1.1 200 OK\r\nContent-Length: 0\r\n\r\n".to_vec());
}
