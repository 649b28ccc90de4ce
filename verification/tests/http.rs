use minginx::request::{HttpMethod, Request};
use minginx::response::{parse_content_type, ContentType, HttpStatus, HttpVersion, Response};

#[test]
fn test_parse_req() {
    let expected = Request {
        method: HttpMethod::Get,
        path: "/test".into(),
        version: HttpVersion::V1_1,
    };
    let req = b"GET /test HTTP/1.1".to_vec();
    let req_parsed: Request = req.into();

    assert_eq!(expected, req_parsed);
}

#[test]
fn test_parse_params() {
    let expected = vec!["", "a", "b"];
    let req = b"GET /a/b HTTP/1.1".to_vec();
    let req_parsed: Request = req.into();
    assert_eq!(expected, req_parsed.parse_params())
}

#[test]
fn test_parse_queries() {
    let expected = vec![
        ("a".to_string(), "b".to_string()),
        ("aa".to_string(), "bb".to_string()),
    ];
    let req = Request {
        method: HttpMethod::Get,
        path: "get?a=b?aa=bb".into(),
        version: HttpVersion::V1_1,
    };
    let parsed = req.parse_queries();
    println!("{:?}", parsed);
    assert_eq!(expected, parsed);
}

#[test]
fn test_status_to_string() {
    let expected = "500 Internal Server Error".to_string();
    let res = HttpStatus::InternalServerError;
    assert_eq!(expected, res.text());
}

#[test]
fn test_all() {
    let expected =
        "HTTP/1.1 200 OK\r\nContent-Type: text/html; charset=utf-8\r\nContent-Length: 3\r\n\r\nHi!"
            .as_bytes();

    let content = "Hi!";
    let content_length = content.len().to_string();

    let version = HttpVersion::V1_1;
    let status = HttpStatus::Okay;

    let mut res = Response::new();
    res.set_status(status);
    res.set_version(version);
    res.set_body(content.as_bytes());
    res.set_headers("Content-Type".into(), ContentType::Html.text());
    res.set_headers("Content-Length".into(), content_length);

    let temp = res.as_bytes();
    let res_http: &[u8] = &temp;

    println!("{}", String::from_utf8_lossy(expected));
    println!("{}", String::from_utf8_lossy(res_http));

    assert_eq!(expected, res_http);
}

#[test]
fn test_parse_req_defaults() {
    let req: Request = b"".to_vec().into();
    assert_eq!(HttpMethod::Get, req.method());
    assert_eq!(String::new(), req.path());
    assert_eq!(HttpVersion::V1_1, req.version());
}

#[test]
fn test_parse_req_case_insensitive_method() {
    let req: Request = b"post /x HTTP/1.1".to_vec().into();
    assert_eq!(HttpMethod::Post, req.method());
    assert_eq!("/x".to_string(), req.path());
}

#[test]
fn test_parse_req_non_ascii_path() {
    let req: Request = "GET /caf\u{e9} HTTP/1.1".as_bytes().to_vec().into();
    assert_eq!("/caf\u{e9}".to_string(), req.path());
}

#[test]
fn test_setters_return_updated_request() {
    let mut req = Request::new();
    let copy = req.set_path("/a".to_string());
    assert_eq!(copy, req);
    let copy = req.set_method(HttpMethod::Post);
    assert_eq!(HttpMethod::Post, copy.method());
    let copy = req.set_version(HttpVersion::V1_1);
    assert_eq!("/a".to_string(), copy.path());
}

#[test]
fn test_method_from_str() {
    assert_eq!(HttpMethod::Get, "GET".into());
    assert_eq!(HttpMethod::Post, "pOsT".into());
    assert_eq!(HttpMethod::Get, "DELETE".into());
    assert_eq!("GET".to_string(), HttpMethod::Get.text());
    assert_eq!("POST".to_string(), HttpMethod::Post.text());
}

#[test]
fn test_version_text_and_from() {
    assert_eq!("HTTP/1.1".to_string(), HttpVersion::V1_1.text());
    assert_eq!(HttpVersion::V1_1, "http/1.1".into());
    assert_eq!(HttpVersion::V1_1, "anything".into());
}

#[test]
fn test_status_texts() {
    assert_eq!("200 OK".to_string(), HttpStatus::Okay.text());
    assert_eq!("404 Not Found".to_string(), HttpStatus::NotFound.text());
    assert_eq!("400 Bad Request".to_string(), HttpStatus::BadRequest.text());
}

#[test]
fn test_content_type_from_str() {
    assert!(matches!(ContentType::from("text/plain"), ContentType::PlainText));
    assert!(matches!(ContentType::from("text/html"), ContentType::Html));
    assert!(matches!(ContentType::from("text/css"), ContentType::Css));
    assert!(matches!(ContentType::from("image/avif"), ContentType::AvifImage));
    assert!(matches!(ContentType::from("who/knows"), ContentType::PlainText));
}

#[test]
fn test_content_type_text() {
    assert_eq!("text/html; charset=utf-8".to_string(), ContentType::Html.text());
    assert_eq!("text/css; charset=utf-8".to_string(), ContentType::Css.text());
    assert_eq!("text/plain; charset=utf-8".to_string(), ContentType::PlainText.text());
    assert_eq!("image/avif".to_string(), ContentType::AvifImage.text());
    assert_eq!("video/mp4".to_string(), ContentType::Mp4Video.text());
}

#[test]
fn test_parse_content_type() {
    assert!(matches!(parse_content_type("/index.html"), ContentType::Html));
    assert!(matches!(parse_content_type("/notes.txt"), ContentType::PlainText));
    assert!(matches!(parse_content_type("/style.css"), ContentType::Css));
    assert!(matches!(parse_content_type("/logo.png"), ContentType::AvifImage));
    assert!(matches!(parse_content_type("/photo.jpg"), ContentType::AvifImage));
    assert!(matches!(parse_content_type("/fav.ico"), ContentType::AvifImage));
    assert!(matches!(parse_content_type("/clip.mp4"), ContentType::Mp4Video));
    assert!(matches!(parse_content_type("/whatever"), ContentType::Html));
}

#[test]
fn test_headers_copy_and_block() {
    let mut res = Response::new();
    res.set_headers("A".into(), "1".into());
    res.set_headers("B".into(), "2".into());
    res.set_headers("A".into(), "3".into());
    let expected = vec![
        ("A".to_string(), "3".to_string()),
        ("B".to_string(), "2".to_string()),
    ];
    assert_eq!(expected, res.headers());
    assert_eq!("A: 3\r\nB: 2\r\n".to_string(), res.headers_http());
}

#[test]
fn test_body_roundtrip() {
    let mut res = Response::new();
    res.set_body(b"abc");
    assert_eq!(b"abc", res.body());
    assert_eq!(HttpStatus::Okay, res.status());
    assert_eq!(HttpVersion::V1_1, res.version());
}
