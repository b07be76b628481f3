//! A small HTTP/1.1 server core: a delimiter-scanning reader, a request
//! parser with a multipart/form-data decoder, and the rules around them.
pub mod text;
pub mod reader;
pub mod http;
pub mod multipart;
pub mod parser;
pub mod auth;
pub mod response;
pub mod server;
pub mod pool;
pub mod fs_html;
