use coop_executor::http::build_response;
use coop_executor::http::classify_request;
use coop_executor::http::delay_millis;
use coop_executor::http::filename;
use coop_executor::http::request_text;
use coop_executor::http::starts_with;
use coop_executor::http::status_line;
use coop_executor::http::Route;

#[test]
fn test_handle_connection() {
    // a 1024-byte request buffer that begins with the root request line
    let input_bytes = b"GET / HTTP/1.1\r\n";
    let mut contents = vec![0u8; 1024];
    contents[..input_bytes.len()].clone_from_slice(input_bytes);
    let request = String::from_utf8(contents).unwrap();

    let route = classify_request(&request);
    assert_eq!(route, Route::Root);
    assert_eq!(filename(route), "hello.html");

    let page = "<html><body>hello</body></html>";
    let response = build_response(status_line(route), page);
    let expected_response = format!("HTTP/1.1 200 OK\r\n\r\n{}", page);
    assert!(response.as_bytes().starts_with(expected_response.as_bytes()));
    assert_eq!(response, expected_response);
}

#[test]
fn sleep_route_is_delayed_root_page() {
    let route = classify_request("GET /sleep HTTP/1.1\r\nHost: x\r\n\r\n");
    assert_eq!(route, Route::Sleep);
    assert_eq!(status_line(route), "HTTP/1.1 200 OK\r\n\r\n");
    assert_eq!(filename(route), "hello.html");
    assert_eq!(delay_millis(route), 5000);
    assert_eq!(delay_millis(Route::Root), 0);
}

#[test]
fn unknown_request_is_not_found() {
    let route = classify_request("POST /form HTTP/1.1\r\n");
    assert_eq!(route, Route::NotFound);
    assert_eq!(status_line(route), "HTTP/1.1 404 NOT FOUND\r\n\r\n");
    assert_eq!(filename(route), "404.html");
    let response = build_response(status_line(route), "missing");
    assert_eq!(response, "HTTP/1.1 404 NOT FOUND\r\n\r\nmissing");
}

#[test]
fn prefix_checks() {
    assert!(starts_with("GET / HTTP/1.1\r\nmore", "GET / HTTP/1.1\r\n"));
    assert!(starts_with("abc", ""));
    assert!(!starts_with("ab", "abc"));
    assert!(!starts_with("GET /sleep HTTP/1.1\r\n", "GET / HTTP/1.1\r\n"));
}

#[test]
fn request_text_is_exact() {
    let text = request_text("example.com", "/index");
    assert_eq!(
        text,
        format!(
            "Get {} HTTP/1.1\r\nHost: {}\r\n\r\n",
            "/index", "example.com"
        )
    );
}
