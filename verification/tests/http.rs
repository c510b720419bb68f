use webserver::handler::{answer, respond};
use webserver::headers::Headers;
use webserver::request::{HttpRequest, Method, RequestError};
use webserver::response::{HttpResponse, Status};

const BAD_REQUEST_PAGE: &str = r#"<!DOCTYPE html>
<html lang="en">
<head>
    <meta charset="utf-8">
    <title>Error 400</title>
</head>
<body>
    <h1>400</h1>
    <p>Bad Request</p>
</body>
</html>"#;

const INDEX_PAGE: &str = r#"<!DOCTYPE html>
<html lang="en">
<head>
    <meta charset="utf-8">
    <title>Secret Black Site</title>
</head>
<body>
    <p>Your IP address is: 10.0.0.7</p>
</body>
</html>
"#;

#[test]
fn status_codes_and_messages() {
    assert_eq!(Status::Okay.code(), 200);
    assert_eq!(Status::BadRequest.code(), 400);
    assert_eq!(Status::NotFound.code(), 404);
    assert_eq!(Status::InternalServerError.code(), 500);
    assert_eq!(Status::NotImplemented.code(), 501);
    assert_eq!(Status::Okay.message(), "Ok");
    assert_eq!(Status::BadRequest.message(), "Bad Request");
    assert_eq!(Status::NotFound.message(), "Not Found");
    assert_eq!(Status::InternalServerError.message(), "Internal Server Error");
    assert_eq!(Status::NotImplemented.message(), "Not Implemented");
}

#[test]
fn error_response_fills_the_template() {
    let r = HttpResponse::error(Status::BadRequest, None);
    assert_eq!(*r.status(), Status::BadRequest);
    assert_eq!(r.body(), BAD_REQUEST_PAGE);
    assert_eq!(r.headers().len(), 2);
    assert_eq!(r.headers().get("Content-Type"), Some("text/html"));
    let length = format!("{}", BAD_REQUEST_PAGE.len());
    assert_eq!(r.headers().get("Content-Length"), Some(length.as_str()));
}

#[test]
fn error_response_renders_with_an_empty_line_before_the_body() {
    let r = HttpResponse::error(Status::BadRequest, None);
    let expected = format!(
        "HTTP/1.1 400 Bad Request\r\nContent-Type: text/html\r\nContent-Length: {}\r\n\r\n{}",
        BAD_REQUEST_PAGE.len(),
        BAD_REQUEST_PAGE
    );
    assert_eq!(r.to_string(), expected);
}

#[test]
fn index_response_shows_the_address() {
    let r = HttpResponse::index("10.0.0.7", None);
    assert_eq!(*r.status(), Status::Okay);
    assert_eq!(r.body(), INDEX_PAGE);
    let expected = format!(
        "HTTP/1.1 200 Ok\r\nContent-Type: text/html\r\nContent-Length: {}\r\n\r\n{}",
        INDEX_PAGE.len(),
        INDEX_PAGE
    );
    assert_eq!(r.to_string(), expected);
}

#[test]
fn content_length_counts_bytes() {
    let r = HttpResponse::index("é", None);
    let chars = r.body().chars().count();
    let length = format!("{}", chars + 1);
    assert_eq!(r.headers().get("Content-Length"), Some(length.as_str()));
}

#[test]
fn given_headers_are_kept_and_page_headers_overwrite() {
    let mut h = Headers::new();
    h.insert("Server".to_string(), "toy".to_string());
    h.insert("Content-Type".to_string(), "text/plain".to_string());
    let r = HttpResponse::error(Status::NotFound, Some(h));
    assert_eq!(r.headers().len(), 3);
    assert_eq!(r.headers().name_at(0), "Server");
    assert_eq!(r.headers().value_at(0), "toy");
    assert_eq!(r.headers().name_at(1), "Content-Type");
    assert_eq!(r.headers().value_at(1), "text/html");
    assert_eq!(r.headers().name_at(2), "Content-Length");
    assert!(r.to_string().starts_with(
        "HTTP/1.1 404 Not Found\r\nServer: toy\r\nContent-Type: text/html\r\nContent-Length: "
    ));
}

#[test]
fn parses_request_line_and_headers() {
    let r = HttpRequest::try_from(
        "GET /index.html HTTP/1.1\r\nHost: localhost:7878\r\nAccept: */*\r\n\r\n",
    )
    .unwrap();
    assert_eq!(r.method(), "GET");
    assert_eq!(r.path(), "/index.html");
    assert_eq!(r.version(), "HTTP/1.1");
    assert_eq!(r.headers().len(), 2);
    assert_eq!(r.headers().get("Host"), Some("localhost:7878"));
    assert_eq!(r.headers().get("Accept"), Some("*/*"));
    assert_eq!(r.headers().get("Missing"), None);
}

#[test]
fn method_is_read_in_any_case() {
    let r = HttpRequest::try_from("hEaD / HTTP/1.1\r\n").unwrap();
    assert_eq!(r.method(), "HEAD");
    assert_eq!(Method::parse("get"), Ok(Method::Get));
    assert_eq!(Method::parse("Head"), Ok(Method::Head));
    assert_eq!(Method::try_from("POST"), Err("Unsupported method"));
    assert_eq!(Method::from_upper("get"), None);
    assert_eq!(Method::from_upper("GET"), Some(Method::Get));
    assert_eq!(Method::Get.name(), "GET");
}

#[test]
fn header_value_keeps_inner_separators() {
    let r = HttpRequest::try_from("GET / HTTP/1.1\r\nX: a: b: c\r\nX-Empty: \r\nY: z: \r\n")
        .unwrap();
    assert_eq!(r.headers().get("X"), Some("a: b: c"));
    assert_eq!(r.headers().get("X-Empty"), Some(""));
    assert_eq!(r.headers().get("Y"), Some("z"));
}

#[test]
fn later_header_value_stands() {
    let r = HttpRequest::try_from("GET / HTTP/1.1\r\nA: 1\r\nB: 2\r\nA: 3\r\n").unwrap();
    assert_eq!(r.headers().len(), 2);
    assert_eq!(r.headers().name_at(0), "A");
    assert_eq!(r.headers().value_at(0), "3");
    assert_eq!(r.headers().name_at(1), "B");
}

#[test]
fn lines_without_separator_hold_no_header() {
    let r = HttpRequest::try_from("GET / HTTP/1.1\r\nnonsense\r\nKey:value\r\n").unwrap();
    assert_eq!(r.headers().len(), 0);
}

#[test]
fn each_error_has_its_input() {
    assert_eq!(HttpRequest::parse("").err(), Some(RequestError::NoRequestLine));
    assert_eq!(HttpRequest::parse("\r\nGET / HTTP/1.1").err(), Some(RequestError::NoMethod));
    assert_eq!(
        HttpRequest::parse("POST / HTTP/1.1\r\n").err(),
        Some(RequestError::UnsupportedMethod)
    );
    assert_eq!(HttpRequest::parse("PUT").err(), Some(RequestError::UnsupportedMethod));
    assert_eq!(HttpRequest::parse("GET").err(), Some(RequestError::NoPath));
    assert_eq!(HttpRequest::parse("GET ").err(), Some(RequestError::NoPath));
    assert_eq!(HttpRequest::parse("GET /").err(), Some(RequestError::NoVersion));
    assert_eq!(HttpRequest::parse("GET / ").err(), Some(RequestError::NoVersion));
}

#[test]
fn error_messages_are_worded() {
    assert_eq!(HttpRequest::try_from("").err(), Some("Error getting first line of request."));
    assert_eq!(HttpRequest::try_from("\r\n").err(), Some("Error getting request method."));
    assert_eq!(HttpRequest::try_from("DELETE /").err(), Some("Unsupported method"));
    assert_eq!(HttpRequest::try_from("GET").err(), Some("Error getting request path."));
    assert_eq!(HttpRequest::try_from("GET /").err(), Some("Error getting request HTTP version."));
    assert_eq!(RequestError::NoPath.message(), "Error getting request path.");
}

#[test]
fn double_space_gives_an_empty_path() {
    let r = HttpRequest::try_from("GET  / HTTP/1.1").unwrap();
    assert_eq!(r.path(), "");
    assert_eq!(r.version(), "/");
}

#[test]
fn respond_chooses_the_page() {
    assert_eq!(*respond("GET / HTTP/1.1\r\n\r\n").status(), Status::Okay);
    assert_eq!(*respond("HEAD / HTTP/1.1\r\n\r\n").status(), Status::Okay);
    assert_eq!(*respond("GET /other HTTP/1.1\r\n\r\n").status(), Status::NotFound);
    assert_eq!(*respond("GET / HTTP/1.0\r\n\r\n").status(), Status::BadRequest);
    assert_eq!(*respond("GET /other HTTP/1.0\r\n\r\n").status(), Status::BadRequest);
    assert_eq!(*respond("POST / HTTP/1.1\r\n\r\n").status(), Status::BadRequest);
    assert_eq!(*respond("").status(), Status::BadRequest);
}

#[test]
fn respond_index_page_shows_the_fixed_address() {
    let r = respond("GET / HTTP/1.1\r\n\r\n");
    assert!(r.body().contains("<p>Your IP address is: foo bar baz</p>"));
}

#[test]
fn answer_reads_a_zero_padded_buffer() {
    let mut buffer = [0u8; 1024];
    let text = b"GET / HTTP/1.1\r\nHost: x\r\n\r\n";
    buffer[..text.len()].copy_from_slice(text);
    let out = answer(&buffer);
    assert!(out.starts_with("HTTP/1.1 200 Ok\r\nContent-Type: text/html\r\nContent-Length: "));
    assert!(out.ends_with("</html>\n"));
    assert_eq!(out, respond(String::from_utf8_lossy(&buffer).as_ref()).to_string());
}

#[test]
fn answer_to_bytes_that_are_no_text_is_bad_request() {
    let out = answer(&[0xff, 0xfe, 0x00]);
    assert!(out.starts_with("HTTP/1.1 400 Bad Request\r\n"));
}

#[test]
fn request_without_line_end_has_the_padding_in_its_version() {
    let mut buffer = [0u8; 32];
    let text = b"GET / HTTP/1.1";
    buffer[..text.len()].copy_from_slice(text);
    let out = answer(&buffer);
    assert!(out.starts_with("HTTP/1.1 400 Bad Request\r\n"));
}
