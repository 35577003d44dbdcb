use rhodium::errors::{RhodError, RhodErrorLevel};
use rhodium::headers::RhodHeaderMap;
use rhodium::protocols::{HttpProtocol, HttpProtocolConf};
use rhodium::request::{BodyProcessor, RhodRequest, RhodUri, RhodVersion};
use rhodium::response::RhodResponse;

fn get_request(uri: RhodUri) -> RhodRequest {
    RhodRequest::new(
        "GET".to_owned(),
        uri,
        RhodVersion::Http11,
        RhodHeaderMap::new(),
        Vec::new(),
    )
}

#[test]
fn test_protocols() {
    let http = HttpProtocol::HTTP;
    assert_eq!(http.to_string(), "http");

    let https = HttpProtocol::HTTPS;
    assert_eq!(https.to_string(), "https");

    let http = HttpProtocolConf::HTTP;
    assert_eq!(http.to_string(), "http");
    assert_eq!(http, http.clone());

    let https = HttpProtocolConf::HTTPS {
        cert_file: "".to_string(),
        key_file: "".to_string(),
    };
    assert_eq!(https.to_string(), "https");
    assert_eq!(https, https.clone());
}

#[test]
fn test_uri() {
    let query = "par=value&par=value";
    let uri = RhodUri::new(
        Some("www.rust-lang.org".to_owned()),
        "/token".to_owned(),
        Some(query.to_owned()),
    );
    let request = get_request(uri);

    assert_eq!(request.uri().query(), Some(query));
    assert_eq!(request.uri().host(), Some("www.rust-lang.org"));
}

#[test]
fn test_method() {
    let uri = RhodUri::new(
        Some("www.rust-lang.org".to_owned()),
        "/".to_owned(),
        None,
    );
    let request = get_request(uri);
    assert_eq!(request.method(), "GET");
    assert!(!request.is_post());

    let uri = RhodUri::new(
        Some("www.rust-lang.org".to_owned()),
        "/".to_owned(),
        None,
    );
    let request = RhodRequest::new(
        "POST".to_owned(),
        uri,
        RhodVersion::Http11,
        RhodHeaderMap::new(),
        Vec::new(),
    );
    assert_eq!(request.method(), "POST");
    assert!(request.is_post());
}

#[test]
fn test_version() {
    let uri = RhodUri::new(
        Some("www.rust-lang.org".to_owned()),
        "/".to_owned(),
        None,
    );
    let mut request = RhodRequest::new(
        "GET".to_owned(),
        uri,
        RhodVersion::Http2,
        RhodHeaderMap::new(),
        Vec::new(),
    );
    assert_eq!(request.version(), RhodVersion::Http2);
    request.set_version(RhodVersion::Http11);
    assert_eq!(request.version(), RhodVersion::Http11);
}

#[test]
fn request_test_headers() {
    let uri = RhodUri::new(Some("www.rust.rs".to_owned()), "/".to_owned(), None);
    let mut request = get_request(uri);
    request.insert_header("User-Agent", "my-awesome-agent/1.0");

    assert_eq!(
        request.headers().get("User-Agent").unwrap(),
        "my-awesome-agent/1.0"
    );
    assert!(request.headers().get("Accept").is_none());

    request.insert_header("Accept", "text/html");
    assert_eq!(request.headers().get("Accept").unwrap(), "text/html");
}

#[test]
fn request_test_body() {
    let uri = RhodUri::new(Some("www.rust.rs".to_owned()), "/".to_owned(), None);
    let mut request = RhodRequest::new(
        "GET".to_owned(),
        uri,
        RhodVersion::Http11,
        RhodHeaderMap::new(),
        "key1=value1&key2=value2".as_bytes().to_vec(),
    );
    request.insert_header("User-Agent", "my-awesome-agent/1.0");

    assert_eq!(
        request.body().clone(),
        "key1=value1&key2=value2".as_bytes().to_vec()
    );

    let uri = RhodUri::new(Some("www.rust.rs".to_owned()), "/".to_owned(), None);
    let request = get_request(uri);
    assert_eq!(request.body().clone(), Vec::<u8>::new());
}

#[test]
fn test_body_processor() {
    let uri = RhodUri::new(Some("www.rust.rs".to_owned()), "/".to_owned(), None);
    let mut request = get_request(uri);
    request.insert_header("User-Agent", "my-awesome-agent/1.0");

    assert!(request.body_processor().is_none());

    request.insert_header("Content-Type", "application/X-WWW-Form-Urlencoded");
    assert_eq!(request.body_processor().unwrap(), BodyProcessor::URLENCODED);

    request.insert_header("content-type", "application/xml");
    assert_eq!(request.body_processor().unwrap(), BodyProcessor::XML);

    request.insert_header("content-type", "application/json");
    assert_eq!(request.body_processor().unwrap(), BodyProcessor::JSON);

    request.insert_header("content-type", "multipart/form-data");
    assert_eq!(request.body_processor().unwrap(), BodyProcessor::MULTIPART);

    request.insert_header("content-type", "idk");
    assert_eq!(request.body_processor().unwrap(), BodyProcessor::Other);
}

#[test]
fn test_request_line() {
    let uri = RhodUri::new(
        Some("www.rust-lang.org".to_owned()),
        "/folder/file.txt".to_owned(),
        Some("query=val".to_owned()),
    );
    let request = RhodRequest::new(
        "GET".to_owned(),
        uri,
        RhodVersion::Http2,
        RhodHeaderMap::new(),
        Vec::new(),
    );

    assert_eq!(request.method_str(), "GET");
    assert_eq!(request.version_string(), "HTTP/2.0".to_string());
    assert_eq!(
        request.request_line(),
        "GET /folder/file.txt HTTP/2.0".to_string()
    );
}

#[test]
fn response_test_headers() {
    let mut res = RhodResponse::new(200, RhodHeaderMap::new(), Vec::new());
    res.insert_header("Foo", "Bar");

    assert_eq!(res.headers().get("Foo").unwrap(), "Bar");
    assert!(res.headers().get("Accept").is_none());

    res.insert_header("Accept", "text/html");
    assert_eq!(res.headers().get("Accept").unwrap(), "text/html");
}

#[test]
fn test_status() {
    let res = RhodResponse::new(404, RhodHeaderMap::new(), Vec::new());
    assert_eq!(res.status_as_int(), 404);
}

#[test]
fn response_test_body() {
    let mut response = RhodResponse::new(
        200,
        RhodHeaderMap::new(),
        "response bodyy %% #".as_bytes().to_vec(),
    );

    assert_eq!(
        response.body().clone(),
        "response bodyy %% #".as_bytes().to_vec()
    );

    response.set_body(Vec::new());
    assert_eq!(response.body().clone(), Vec::<u8>::new());
}

#[test]
fn test_header_name_case_insensitive() {
    let mut m = RhodHeaderMap::new();
    m.insert("Content-Type", "text/plain");
    assert_eq!(m.get("CONTENT-TYPE").unwrap(), "text/plain");
    assert_eq!(m.get("content-type").unwrap(), "text/plain");
    m.insert("CONTENT-type", "text/html");
    assert_eq!(m.get("Content-Type").unwrap(), "text/html");
    assert_eq!(m.fields().len(), 1);
}

#[test]
fn test_body_processor_case_and_padding() {
    let uri = RhodUri::new(None, "/".to_owned(), None);
    let mut request = get_request(uri);
    request.insert_header("Content-Type", "Application/JSON; charset=utf-8");
    assert_eq!(request.body_processor().unwrap(), BodyProcessor::JSON);
    request.insert_header("Content-Type", "");
    assert_eq!(request.body_processor().unwrap(), BodyProcessor::Other);
}

#[test]
fn test_error_levels() {
    let e = RhodError::from_str("boom", RhodErrorLevel::Critical);
    assert_eq!(e.msg(), "boom");
    assert_eq!(e.level(), RhodErrorLevel::Critical);
    let e2 = RhodError::from_string("warn msg".to_string(), RhodErrorLevel::Warning);
    assert_eq!(e2.msg(), "warn msg");
    assert_eq!(e2.level(), RhodErrorLevel::Warning);
    e2.log();
    assert_eq!(
        RhodError::from_str("d", RhodErrorLevel::Debug).level(),
        RhodErrorLevel::Debug
    );
    assert_eq!(
        RhodError::from_str("e", RhodErrorLevel::Error).level(),
        RhodErrorLevel::Error
    );
    assert_eq!(RhodErrorLevel::Debug.label(), "DEBUG");
    assert_eq!(RhodErrorLevel::Warning.label(), "WARNING");
    assert_eq!(RhodErrorLevel::Error.label(), "ERROR");
    assert_eq!(RhodErrorLevel::Critical.label(), "CRITICAL");
}
