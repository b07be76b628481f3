use std::collections::HashMap;

use hello_server::http::{Request, RequestMethod};
use hello_server::multipart::{boundary_of, destination_path, file_name_of, MultipartError};
use hello_server::parser::{ParseAction, ParseError, RequestParser};
use hello_server::reader::{ReadStep, SafeBuf};
use hello_server::server::ServerLimits;

fn no_limits() -> ServerLimits {
    ServerLimits { buf_string_limit: 0, file_buf_size_limit: 0, file_size_limit: 0 }
}

/// Parses a request from the given chunks; spilled parts land in `files`.
fn parse(chunks: Vec<Vec<u8>>, files: &mut HashMap<String, Vec<u8>>) -> Result<Request, ParseError> {
    let mut buf = SafeBuf::new(no_limits());
    parse_with(&mut buf, chunks, files)
}

fn parse_with(
    buf: &mut SafeBuf,
    chunks: Vec<Vec<u8>>,
    files: &mut HashMap<String, Vec<u8>>,
) -> Result<Request, ParseError> {
    let mut chunks = chunks;
    let mut parser = RequestParser::new();
    let mut action = parser.start();
    loop {
        match action {
            ParseAction::Read { delimiter, spill_to } => {
                if let Some(path) = spill_to {
                    buf.set_file_path(&path);
                }
                let result = loop {
                    match buf.read_step(&delimiter) {
                        ReadStep::NeedChunk => {
                            let c = if chunks.is_empty() { Vec::new() } else { chunks.remove(0) };
                            buf.fill(c);
                        }
                        ReadStep::Write { path, data, append } => {
                            let f = files.entry(path).or_default();
                            if !append {
                                f.clear();
                            }
                            f.extend_from_slice(&data);
                        }
                        ReadStep::Done(o) => break Ok(o),
                        ReadStep::Failed(e) => break Err(e),
                    }
                };
                action = parser.on_read(result, buf.delimiter_found());
            }
            ParseAction::Done => return Ok(parser.into_request()),
            ParseAction::Failed(e) => return Err(e),
        }
    }
}

fn header<'a>(r: &'a Request, name: &str) -> Option<&'a str> {
    r.headers.iter().find(|(k, _)| k == name).map(|(_, v)| v.as_str())
}

#[test]
fn parse_headers() {
    let request_str = String::from(
        "GET /abc HTTP/1.1
Host: localhost:8080
User-Agent: Mozilla/5.0 (X11; Ubuntu; Linux x86_64; rv:109.0) Gecko/20100101 Firefox/113.0
Accept: text/html,application/xhtml+xml,application/xml;q=0.9,image/avif,image/webp,*/*;q=0.8
Accept-Language: en-US,en;q=0.5
Accept-Encoding: gzip, deflate, br
Connection: keep-alive
Upgrade-Insecure-Requests: 1
Sec-Fetch-Dest: document
Sec-Fetch-Mode: navigate
Sec-Fetch-Site: none
Sec-Fetch-User: ?1

",
    );
    let mut request = Request::new();
    let mut lines = request_str.lines();
    while let Some(buf) = lines.next() {
        if buf == "\r\n" {
            break;
        };
        request.parse_header(buf);
        println!("{}", &buf);
    }
    println!("{:#?}", request.headers);
    assert_eq!(header(&request, "Host"), Some("localhost:8080"));
    assert_eq!(header(&request, "Sec-Fetch-User"), Some("?1"));
    assert_eq!(header(&request, "GET /abc HTTP/1.1"), Some(""));
}

#[test]
fn header_line_with_value() {
    let mut r = Request::new();
    r.parse_header("Name: Value");
    assert_eq!(r.headers, vec![("Name".to_string(), "Value".to_string())]);
}

#[test]
fn malformed_header_line_gets_empty_value() {
    let mut r = Request::new();
    r.parse_header("Malformed");
    assert_eq!(r.headers, vec![("Malformed".to_string(), "".to_string())]);
}

#[test]
fn later_header_replaces_earlier() {
    let mut r = Request::new();
    r.parse_header("A: 1");
    r.parse_header("B: 2");
    r.parse_header("A: 3");
    assert_eq!(r.headers.len(), 2);
    assert_eq!(header(&r, "A"), Some("3"));
    assert_eq!(header(&r, "B"), Some("2"));
    assert_eq!(r.header("A"), Some("3".to_string()));
    assert_eq!(r.header("C"), None);
}

#[test]
fn header_value_after_first_separator() {
    let mut r = Request::new();
    r.parse_header("Referer: http://x: y ");
    assert_eq!(header(&r, "Referer"), Some("http://x: y"));
}

#[test]
fn request_line_parts() {
    let mut r = Request::new();
    r.parse_first_line("get /my%20file.txt HTTP/1.1");
    assert!(matches!(r.method, RequestMethod::Get));
    assert_eq!(r.url, "/my file.txt");
    r.parse_first_line("BREW /pot HTTP/1.1");
    assert!(matches!(&r.method, RequestMethod::Other(m) if m == "BREW"));
    assert_eq!(r.url, "/pot");
    r.parse_first_line("GET");
    assert_eq!(r.url, "");
}

#[test]
fn method_tokens() {
    assert!(matches!(RequestMethod::from(" POST "), RequestMethod::Post));
    assert!(matches!(RequestMethod::from("Get"), RequestMethod::Get));
    assert_eq!(RequestMethod::from("PUT").as_string(), "PUT");
    assert_eq!(RequestMethod::Post.as_string(), "POST");
}

#[test]
fn build_keeps_fields() {
    let r = Request::build(RequestMethod::Post, "/x", b"abc");
    assert_eq!(r.url, "/x");
    assert_eq!(r.body, b"abc".to_vec());
    assert!(r.headers.is_empty());
}

#[test]
fn get_request_from_stream() {
    let mut files = HashMap::new();
    let r = parse(vec![b"GET /echo HTTP/1.1\r\nHost: a\r\nX: y\r\n\r\n".to_vec()], &mut files).unwrap();
    assert!(matches!(r.method, RequestMethod::Get));
    assert_eq!(r.url, "/echo");
    assert_eq!(header(&r, "Host"), Some("a"));
    assert_eq!(header(&r, "X"), Some("y"));
    assert!(files.is_empty());
}

#[test]
fn closed_connection_gives_empty_request() {
    let mut files = HashMap::new();
    let r = parse(vec![], &mut files).unwrap();
    assert_eq!(r.url, "");
    assert!(r.headers.is_empty());
}

fn upload(url: &str, name: &str) -> Vec<u8> {
    format!(
        "POST {} HTTP/1.1\r\nContent-Type: multipart/form-data; boundary=X\r\n\r\n--X\r\nContent-Disposition: form-data; name=\"file\"; filename=\"{}\"\r\nContent-Type: text/plain\r\n\r\nhello\r\n--X--\r\n",
        url, name
    )
    .into_bytes()
}

#[test]
fn multipart_upload_is_spilled() {
    let mut files = HashMap::new();
    let mut buf = SafeBuf::new(no_limits());
    let r = parse_with(&mut buf, vec![upload("/docs", "a.txt")], &mut files).unwrap();
    assert_eq!(files.get("./public//docs/a.txt").unwrap(), &b"hello".to_vec());
    assert_eq!(files.len(), 1);
    assert_eq!(r.body, b"saved".to_vec());
    // nothing of the body is left: the next read meets the end of the stream
    loop {
        match buf.read_step(b"\r\n") {
            ReadStep::NeedChunk => buf.fill(Vec::new()),
            ReadStep::Done(hello_server::reader::ReadOutcome::InMemory(v)) => {
                assert!(v.is_empty());
                break;
            }
            other => panic!("unexpected step {:?}", other),
        }
    }
    assert!(!buf.delimiter_found());
}

#[test]
fn multipart_upload_in_small_chunks() {
    let all = upload("/upload", "a.txt");
    // every window must hold the longest delimiter, the boundary line
    let sizes: Vec<usize> = (5..=24).filter(|s| all.len() % s == 0 || all.len() % s >= 5).collect();
    assert!(sizes.len() >= 5);
    for size in sizes {
        let mut files = HashMap::new();
        let chunks: Vec<Vec<u8>> = all.chunks(size).map(|c| c.to_vec()).collect();
        let r = parse(chunks, &mut files).unwrap();
        assert_eq!(r.body, b"saved".to_vec());
        assert_eq!(files.get("./public/content/upload/a.txt").unwrap(), &b"hello".to_vec());
    }
}

#[test]
fn upload_routes_by_url() {
    let mut files = HashMap::new();
    parse(vec![upload("/upload", "pic.png")], &mut files).unwrap();
    assert!(files.contains_key("./public/content/upload/pic.png"));
    let mut files = HashMap::new();
    parse(vec![upload("/gallery", "pic.png")], &mut files).unwrap();
    assert!(files.contains_key("./public//gallery/pic.png"));
}

#[test]
fn destination_paths() {
    assert_eq!(destination_path("/upload", "pic.png"), "./public/content/upload/pic.png");
    assert_eq!(destination_path("/gallery", "pic.png"), "./public//gallery/pic.png");
}

#[test]
fn part_file_names() {
    assert_eq!(
        file_name_of("Content-Disposition: form-data; name=\"file\"; filename=\"a.txt\""),
        "a.txt"
    );
    assert_eq!(file_name_of("Content-Disposition: form-data; name=\"file\""), "last_upload");
    assert_eq!(file_name_of("x; filename=\""), "last_upload");
}

#[test]
fn boundaries() {
    assert_eq!(boundary_of("multipart/form-data; boundary=X"), Ok("X".to_string()));
    assert_eq!(boundary_of("text/plain; boundary=X"), Err(MultipartError::NotMultipart));
    assert_eq!(boundary_of("multipart/form-data"), Err(MultipartError::NoBoundary));
    assert_eq!(boundary_of("multipart/form-data; charset=utf8"), Err(MultipartError::NoBoundary));
    assert_eq!(boundary_of("multipart/form-data; boundary"), Err(MultipartError::NoBoundaryValue));
}

#[test]
fn post_without_content_type_fails() {
    let mut files = HashMap::new();
    let r = parse(vec![b"POST /upload HTTP/1.1\r\n\r\n".to_vec()], &mut files);
    assert!(matches!(r, Err(ParseError::Multipart(MultipartError::NoContentType))));
}

#[test]
fn part_without_blank_line_fails() {
    let mut files = HashMap::new();
    let body = b"POST /upload HTTP/1.1\r\nContent-Type: multipart/form-data; boundary=X\r\n\r\n--X\r\nfilename=\"a\"\r\nContent-Type: text/plain\r\nhello\r\n--X--\r\n";
    let r = parse(vec![body.to_vec()], &mut files);
    assert!(matches!(r, Err(ParseError::Multipart(MultipartError::NoDataStart))));
}

#[test]
fn body_without_closing_boundary_fails() {
    let mut files = HashMap::new();
    let body = b"POST /upload HTTP/1.1\r\nContent-Type: multipart/form-data; boundary=X\r\n\r\n--X\r\nfilename=\"a\"\r\nContent-Type: text/plain\r\n\r\nhello";
    let r = parse(vec![body.to_vec()], &mut files);
    assert!(matches!(r, Err(ParseError::Multipart(MultipartError::UnexpectedEnd))));
}

#[test]
fn invalid_utf8_line_fails() {
    let mut files = HashMap::new();
    let r = parse(vec![b"GET /\xff HTTP/1.1\r\n\r\n".to_vec()], &mut files);
    assert!(matches!(r, Err(ParseError::InvalidUtf8)));
}
