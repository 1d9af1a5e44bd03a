use llama_cpp_config::http::parse_response;

#[test]
fn parses_a_plain_response() {
    let raw = "HTTP/1.1 200 OK\r\nContent-Length: 9\r\n\r\n{\"a\": 1}\n";
    let res = parse_response(raw).unwrap();
    assert_eq!(res.status, 200);
    assert!(res.body.starts_with("{\"a\": 1}"));
}

#[test]
fn parses_a_chunked_response() {
    let raw = "HTTP/1.1 200 OK\r\nTransfer-Encoding: chunked\r\n\r\n\
               4\r\n{\"a\"\r\n4\r\n: 1}\r\n0\r\n\r\n";
    let res = parse_response(raw).unwrap();
    assert_eq!(res.status, 200);
    assert_eq!(res.body, "{\"a\": 1}");
}

#[test]
fn reports_a_non_200_status() {
    let raw = "HTTP/1.1 501 Not Implemented\r\nContent-Length: 2\r\n\r\n{}";
    assert_eq!(parse_response(raw).unwrap().status, 501);
}

#[test]
fn truncated_response_is_an_error() {
    assert!(parse_response("HTTP/1.1 200 OK").is_err());
}
