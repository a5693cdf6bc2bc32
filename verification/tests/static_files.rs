use plinko::static_files::{
    content_type_for, content_type_for_extension, fallback_reply, file_reply, reply_header,
    requested_file,
};

#[test]
fn content_types_by_extension() {
    assert_eq!(content_type_for_extension(Some("html")), "text/html; charset=utf-8");
    assert_eq!(content_type_for_extension(Some("js")), "application/javascript");
    assert_eq!(content_type_for_extension(Some("mjs")), "application/javascript");
    assert_eq!(content_type_for_extension(Some("css")), "text/css");
    assert_eq!(content_type_for_extension(Some("svg")), "image/svg+xml");
    assert_eq!(content_type_for_extension(Some("png")), "image/png");
    assert_eq!(content_type_for_extension(Some("ico")), "image/x-icon");
    assert_eq!(content_type_for_extension(Some("woff2")), "font/woff2");
    assert_eq!(content_type_for_extension(Some("woff")), "font/woff");
    assert_eq!(content_type_for_extension(Some("json")), "application/json");
    assert_eq!(content_type_for_extension(Some("HTML")), "application/octet-stream");
    assert_eq!(content_type_for_extension(None), "application/octet-stream");
}

#[test]
fn content_type_for_paths() {
    assert_eq!(content_type_for("dist/assets/app.js"), "application/javascript");
    assert_eq!(content_type_for("dist/index.html"), "text/html; charset=utf-8");
    assert_eq!(content_type_for("dist/LICENSE"), "application/octet-stream");
    assert_eq!(content_type_for("dist/.hidden"), "application/octet-stream");
}

#[test]
fn requested_files() {
    assert_eq!(requested_file("GET / HTTP/1.1\r\n").unwrap(), "index.html");
    assert_eq!(requested_file("GET /assets/a.js?v=3 HTTP/1.1\r\n").unwrap(), "assets/a.js");
    assert_eq!(requested_file("GET //x.css HTTP/1.1").unwrap(), "x.css");
    assert_eq!(requested_file("GET /?q=1 HTTP/1.1").unwrap(), "index.html");
    assert_eq!(requested_file("GET /plan/42").unwrap(), "plan/42");
    assert!(requested_file("GARBAGE").is_none());
    assert!(requested_file("").is_none());
}

#[test]
fn replies() {
    let ok = file_reply(Some(vec![1, 2, 3]), "image/png");
    assert_eq!(ok.status, "200 OK");
    assert_eq!(ok.body, vec![1, 2, 3]);
    assert_eq!(ok.content_type, "image/png");
    let err = file_reply(None, "image/png");
    assert_eq!(err.status, "500 Internal Server Error");
    assert_eq!(err.body, b"Internal Server Error".to_vec());
    assert_eq!(err.content_type, "text/plain");
    let spa = fallback_reply(Some(b"<html>".to_vec()));
    assert_eq!(spa.status, "200 OK");
    assert_eq!(spa.content_type, "text/html; charset=utf-8");
    let missing = fallback_reply(None);
    assert_eq!(missing.status, "404 Not Found");
    assert_eq!(missing.body, b"404 Not Found".to_vec());
    assert_eq!(
        reply_header(&missing),
        "HTTP/1.1 404 Not Found\r\nContent-Type: text/plain\r\nContent-Length: 13\r\nConnection: close\r\n\r\n"
    );
    let big = file_reply(Some(vec![0; 1234]), "font/woff");
    assert!(reply_header(&big).contains("Content-Length: 1234\r\n"));
    let empty = file_reply(Some(Vec::new()), "text/css");
    assert!(reply_header(&empty).contains("Content-Length: 0\r\n"));
}
