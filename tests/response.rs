use base64::{engine::general_purpose as b64, Engine};

use hello_server::auth::{check_credentials, AuthError, BasicAuth};
use hello_server::http::{Request, RequestMethod};
use hello_server::pool::{check_pool_size, PoolCreationError};
use hello_server::response::{decimal_of, route_get, Response, Route};
use hello_server::fs_html::FilesHtml;
use hello_server::server::{AuthScheme, ConfigError, ServerConfig};

fn request_with_auth(value: &str) -> Request {
    let mut r = Request::new();
    r.parse_header(&format!("Authorization: {}", value));
    r
}

#[test]
fn basic_auth_accepts_known_user() {
    let r = request_with_auth("Basic dXNlcjpwYXNz");
    assert!(r.authorize(&AuthScheme::Basic, "user:pass\r\n").is_ok());
}

#[test]
fn basic_auth_refuses_wrong_password() {
    let r = request_with_auth("Basic dXNlcjpwYXNz");
    let resp = r.authorize(&AuthScheme::Basic, "user:wrong\n").unwrap_err();
    assert_eq!(resp.status, 401);
    assert!(resp
        .headers
        .iter()
        .any(|(k, v)| k == "WWW-Authenticate" && v == "Basic"));
    assert_eq!(resp.body, b"password is incorrect".to_vec());
    assert_eq!(resp.headers, vec![("WWW-Authenticate".to_string(), "Basic".to_string())]);
}

#[test]
fn basic_auth_without_header() {
    let r = Request::new();
    let resp = r.authorize(&AuthScheme::Basic, "user:pass").unwrap_err();
    assert_eq!(resp.body, b"credentials required, but not provided".to_vec());
    assert!(r.authorize(&AuthScheme::NoAuth, "").is_ok());
}

#[test]
fn basic_auth_parse_errors() {
    let mut a = BasicAuth::new("Basic !!!");
    assert_eq!(a.parse(), Err(AuthError::Malformed));
    let mut a = BasicAuth::new("Basic /w==");
    assert_eq!(a.parse(), Err(AuthError::NotUtf8));
    let mut a = BasicAuth::new("Basic dXNlcjpwYXNz");
    a.set_users("other:x\nuser:pass");
    assert_eq!(a.check(), Ok(()));
    let mut a = BasicAuth::new("Basic dXNlcjpwYXNz");
    a.set_users("other:x");
    assert_eq!(a.check(), Err(AuthError::UserNotFound));
}

#[test]
fn credential_lines() {
    assert_eq!(check_credentials("a:1\r\nb:2\r\n", "b", "2"), Ok(()));
    assert_eq!(check_credentials("a:1\r\nb:2\r\n", "b", "3"), Err(AuthError::WrongPassword));
    assert_eq!(check_credentials("", "b", "2"), Err(AuthError::UserNotFound));
    // a user name matches whole, never as a piece of another
    assert_eq!(check_credentials("user:pass", "ser", "pass"), Err(AuthError::UserNotFound));
    assert_eq!(check_credentials("x:user:pass", "user", "pass"), Err(AuthError::UserNotFound));
}

#[test]
fn b64() {
    let data = String::from("user1:pwd1");
    println!("{}", data);
    let data_base64 = b64::STANDARD.encode(data.as_bytes());
    println!("{}", data_base64);
    let mut auth = BasicAuth::new(&format!("Basic {}", data_base64));
    auth.set_users("user1:pwd1");
    assert_eq!(auth.check(), Ok(()));
    let data_debase64 = b64::STANDARD.decode(data_base64.as_bytes()).unwrap();
    println!("{}", String::from_utf8_lossy(&data_debase64));
}

#[test]
fn pool_sizes() {
    assert!(matches!(check_pool_size(0, 4), Err(PoolCreationError::ZeroSize)));
    assert!(matches!(check_pool_size(9, 4), Err(PoolCreationError::ExcessSize((9, 4)))));
    assert!(matches!(check_pool_size(4, 4), Ok(4)));
    assert_eq!(PoolCreationError::ExcessSize((9, 4)).message(), "excess pool size: 9 max is 4");
    assert_eq!(PoolCreationError::ZeroSize.message(), "can't have zero size pool");
}

#[test]
fn response_bytes() {
    let mut r = Response::new();
    r.str_fill("hi");
    assert_eq!(r.as_bytes(), b"HTTP/1.1 200 OK\r\n\r\nhi".to_vec());
    r.status = 404;
    r.headers.push(("A".to_string(), "b".to_string()));
    assert_eq!(r.as_bytes(), b"HTTP/1.1 404 NOT FOUND\r\nA: b\r\n\r\nhi".to_vec());
    r.status = 0;
    assert_eq!(r.as_bytes(), b"A: b\r\n\r\nhi".to_vec());
    r.status = 418;
    assert_eq!(r.status_str(), "NOT OK");
}

#[test]
fn response_from_bytes_sets_length() {
    let r = Response::from_bytes(b"hello");
    assert_eq!(r.headers, vec![("Content-Length".to_string(), "5".to_string())]);
    let r = Response::from_text("hey");
    assert_eq!(r.body, b"hey".to_vec());
    assert!(r.headers.is_empty());
}

#[test]
fn echo_of_a_request() {
    let mut req = Request::build(RequestMethod::Get, "/echo", b"xy");
    req.parse_header("Host: h");
    let resp = Response::build_request_echo(&req);
    assert_eq!(resp.status, 200);
    assert_eq!(resp.body, b"xy".to_vec());
    assert!(resp.headers.contains(&("echo-header".to_string(), "GET /echo HTTP/1.1".to_string())));
    assert!(resp.headers.contains(&("Host".to_string(), "h".to_string())));
}

#[test]
fn decimals() {
    assert_eq!(decimal_of(0), vec!['0']);
    assert_eq!(decimal_of(8080).iter().collect::<String>(), "8080");
}

#[test]
fn test_coma() {
    let res = "123".parse::<usize>();
    match res {
        Ok(_val) => {
            println!("123")
        }
        Err(e) => {
            println!("{}", e.to_string())
        }
    }
    assert_eq!(decimal_of(123).iter().collect::<String>(), "123");
}

#[test]
fn config_defaults_and_schemes() {
    let c = ServerConfig::new();
    assert_eq!(c.thread_count, 1);
    assert_eq!(c.port, 8080);
    assert_eq!(*c.auth_scheme(), AuthScheme::NoAuth);
    assert_eq!(c.limits().buf_string_limit, 0);
    assert_eq!(AuthScheme::try_from("BASIC"), Ok(AuthScheme::Basic));
    assert_eq!(AuthScheme::try_from("none"), Ok(AuthScheme::NoAuth));
    assert_eq!(AuthScheme::try_from("Digest"), Err("digest".to_string()));
}

#[test]
fn prev_dir() {
    let path_str = "/content/upload";
    let up_path_str = hello_server::fs_html::up_path(path_str);
    println!("{}", path_str);
    println!("{}", up_path_str);
    assert_eq!(up_path_str, "/content");
    assert_eq!(hello_server::fs_html::up_path("/content"), "/");
    assert_eq!(hello_server::fs_html::up_path("content"), "/");
}

#[test]
fn listing_page() {
    let f = FilesHtml::from_listing("/content", Ok(vec![("a.txt".to_string(), true), ("d".to_string(), false)]), false);
    let html = f.html();
    assert!(html.contains("<p><a href=\"/\"><..></a></p>"));
    assert!(html.contains("<p><a href=\"/content/a.txt\">a.txt</a></p>"));
    assert!(html.contains("<p><a href=\"/content/d\">&#x1F4C1 d</a></p>"));
    assert_eq!(f.syspath(), "./public/content");
    let g = FilesHtml::from_listing("/x", Err("no such dir".to_string()), false);
    assert_eq!(g.html(), "no such dir");
}

#[test]
fn config_text() {
    let c = ServerConfig::from_config_text("// comment\n\nauth = Basic\nthreads=4\r\nport = 9000\nbuf_string_limit = 8k\nfile_buf_size_limit=10m\nfile_size_limit = 1g\n").unwrap();
    assert_eq!(c.auth_scheme, AuthScheme::Basic);
    assert_eq!(c.thread_count, 4);
    assert_eq!(c.port, 9000);
    assert_eq!(c.limits.buf_string_limit, 8 * 1024);
    assert_eq!(c.limits.file_buf_size_limit, 10 * 1024 * 1024);
    assert_eq!(c.limits.file_size_limit, 1024 * 1024 * 1024);
    assert_eq!(ServerConfig::from_config_text("threads=x"), Err(ConfigError::BadNumber(1)));
    assert_eq!(ServerConfig::from_config_text("\nfoo=1"), Err(ConfigError::UnknownName(2)));
    assert_eq!(ServerConfig::from_config_text("port"), Err(ConfigError::NoValue(1)));
    assert_eq!(ServerConfig::from_config_text("=1"), Err(ConfigError::EmptyName(1)));
    assert_eq!(ServerConfig::from_config_text("port="), Err(ConfigError::EmptyValue(1)));
    assert_eq!(ServerConfig::from_config_text("buf_string_limit=12"), Err(ConfigError::BadSuffix(1)));
    assert_eq!(ServerConfig::from_config_text("auth=digest"), Err(ConfigError::UnknownScheme(1)));
    assert_eq!(ServerConfig::from_config_text(""), Ok(ServerConfig::new()));
}

#[test]
fn test1() {
    let path_str = "/content";
    let fhtml = FilesHtml::from_listing(path_str, Ok(vec![("upload".to_string(), false)]), false);
    println!("{:?}", fhtml.dir_entries);
    println!("{:?}", fhtml.html());
    assert!(fhtml.html().starts_with("<!DOCTYPE html>"));
    assert!(fhtml.html().contains("<p><a href=\"/content/upload\">&#x1F4C1 upload</a></p>"));
}

#[test]
fn get_routes() {

    assert!(matches!(route_get("/"), Route::Page(p) if p == "./public/static/hello.html"));
    assert!(matches!(route_get("/upload"), Route::Page(p) if p == "./public/static/upload.html"));
    assert!(matches!(route_get("/echo"), Route::Echo));
    assert!(matches!(route_get("/content"), Route::Listing));
}
