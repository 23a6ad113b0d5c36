use siliceo_motor::http::{respond_json, Next, ParseError, Reader, Request, MAX_BODY};

/// Reads a request out of a text, as a connection that ends with it would give it.
fn read(input: &str) -> Result<Request, ParseError> {
    let mut rest = input.as_bytes();
    let mut next = Next::Line(Reader::new());
    loop {
        next = match next {
            Next::Line(reader) => {
                let end = rest.iter().position(|&b| b == b'\n').map_or(rest.len(), |i| i + 1);
                let line = std::str::from_utf8(&rest[..end]).ok();
                rest = &rest[end..];
                reader.line(line)
            }
            Next::Body(reader, n) => {
                if rest.len() < n {
                    reader.body(None)
                } else {
                    let body = rest[..n].to_vec();
                    rest = &rest[n..];
                    reader.body(Some(body))
                }
            }
            Next::Done(request) => return Ok(request),
            Next::Failed(e) => return Err(e),
        };
    }
}

fn bad(input: &str) -> String {
    match read(input) {
        Err(ParseError::Bad(m)) => m,
        other => panic!("unexpected {other:?}"),
    }
}

#[test]
fn request_with_a_body() {
    let r = read("POST /v1/x?y=1 HTTP/1.1\r\nHost: a\r\nCONTENT-length:  +5 \r\n\r\nhello tail").unwrap();
    assert_eq!(r.method, "POST");
    assert_eq!(r.path, "/v1/x?y=1");
    assert_eq!(r.body, b"hello");
}

#[test]
fn request_without_a_body() {
    let r = read("GET /health HTTP/1.1\r\n\r\n").unwrap();
    assert_eq!((r.method.as_str(), r.path.as_str(), r.body.len()), ("GET", "/health", 0));
    // the connection may end after the headers, and words may be far apart
    let r = read("\t GET \u{a0} /x").unwrap();
    assert_eq!((r.method.as_str(), r.path.as_str()), ("GET", "/x"));
}

#[test]
fn last_length_wins_and_other_headers_are_skipped() {
    let r = read("POST / H\r\nContent-Length: 3\r\nX-Content-Length: 9\r\nno colon\r\nContent-Length: 2\r\n\r\nabc").unwrap();
    assert_eq!(r.body, b"ab");
}

#[test]
fn nothing_asked_closes() {
    assert_eq!(read("").unwrap_err(), ParseError::Closed);
    assert_eq!(read(" \r\n\r\n").unwrap_err(), ParseError::Closed);
    assert_eq!(Reader::new().line(None), Next::Failed(ParseError::Closed));
}

#[test]
fn malformed_requests() {
    assert_eq!(bad("GET\r\n\r\n"), "path mancante");
    assert_eq!(bad("POST / H\r\nContent-Length: x\r\n\r\n"), "content-length");
    assert_eq!(bad("POST / H\r\nContent-Length: -1\r\n\r\n"), "content-length");
    assert_eq!(bad("POST / H\r\nContent-Length:\r\n\r\n"), "content-length");
    assert_eq!(bad("POST / H\r\nContent-Length: 99999999999999999999999\r\n\r\n"), "content-length");
    assert_eq!(bad("POST / H\r\nContent-Length: 5\r\n\r\nabc"), "body troncato");
    assert_eq!(
        bad(&format!("POST / H\r\nContent-Length: {}\r\n\r\n", MAX_BODY + 1)),
        "body troppo grande: 4194305"
    );
}

#[test]
fn answers_count_bytes() {
    assert_eq!(
        respond_json(200, "OK", "{\"è\":1}"),
        "HTTP/1.1 200 OK\r\nContent-Type: application/json\r\nContent-Length: 8\r\nConnection: close\r\n\r\n{\"è\":1}"
    );
}
