//! Responses and their bytes on the wire, and the authorization of a request.
use vstd::prelude::*;
use vstd::utf8::*;

use crate::auth::{auth_message, check_lines, parse_spec, strip_basic, AuthError, BasicAuth};
use crate::http::{has_header, insert_header, method_text, unique_keys, Request};
use crate::server::AuthScheme;
use crate::text::{bytes_of, chars_of, concat, string_of};

verus! {

/// A response: status, headers and body.
#[derive(Debug)]
pub struct Response {
    pub status: u16,
    pub headers: Vec<(String, String)>,
    pub body: Vec<u8>,
}

/// The decimal digits of `n`.
pub open spec fn decimal(n: nat) -> Seq<char>
    decreases n,
{
    if n < 10 {
        seq![digit(n)]
    } else {
        decimal(n / 10) + seq![digit(n % 10)]
    }
}

pub open spec fn digit(d: nat) -> char {
    if d == 0 {
        '0'
    } else if d == 1 {
        '1'
    } else if d == 2 {
        '2'
    } else if d == 3 {
        '3'
    } else if d == 4 {
        '4'
    } else if d == 5 {
        '5'
    } else if d == 6 {
        '6'
    } else if d == 7 {
        '7'
    } else if d == 8 {
        '8'
    } else {
        '9'
    }
}

fn digit_of(d: usize) -> (r: char)
    requires
        d < 10,
    ensures
        r == digit(d as nat),
{
    if d == 0 {
        '0'
    } else if d == 1 {
        '1'
    } else if d == 2 {
        '2'
    } else if d == 3 {
        '3'
    } else if d == 4 {
        '4'
    } else if d == 5 {
        '5'
    } else if d == 6 {
        '6'
    } else if d == 7 {
        '7'
    } else if d == 8 {
        '8'
    } else {
        '9'
    }
}

/// The decimal digits of `n`.
pub fn decimal_of(n: usize) -> (r: Vec<char>)
    ensures
        r@ == decimal(n as nat),
    decreases n,
{
    if n < 10 {
        vec![digit_of(n)]
    } else {
        let mut r = decimal_of(n / 10);
        r.push(digit_of(n % 10));
        r
    }
}

/// The reason phrase of a status code.
pub open spec fn reason(status: u16) -> Seq<char> {
    if status == 200 {
        "OK"@
    } else if status == 201 {
        "CREATED"@
    } else if status == 401 {
        "UNAUTHORIZED"@
    } else if status == 403 {
        "FORBIDDEN"@
    } else if status == 404 {
        "NOT FOUND"@
    } else {
        "NOT OK"@
    }
}

/// `HTTP/1.1 <status> <reason>` and CRLF.
pub open spec fn status_line(status: u16) -> Seq<char> {
    "HTTP/1.1 "@ + decimal(status as nat) + " "@ + reason(status) + "\r\n"@
}

/// The header lines, each `name: value` and CRLF, in order.
pub open spec fn header_lines(hs: Seq<(String, String)>) -> Seq<u8>
    decreases hs.len(),
{
    if hs.len() == 0 {
        seq![]
    } else {
        header_lines(hs.drop_last()) + encode_utf8(hs.last().0@ + ": "@ + hs.last().1@ + "\r\n"@)
    }
}

/// The bytes of a response: the status line unless the status is 0, the
/// header lines, an empty line, and the body.
pub open spec fn response_bytes(r: Response) -> Seq<u8> {
    (if r.status > 0 {
        encode_utf8(status_line(r.status))
    } else {
        seq![]
    }) + header_lines(r.headers@) + seq![13u8, 10u8] + r.body@
}

/// The echo of a request line: method, URL and version.
pub open spec fn echo_line(req: Request) -> Seq<char> {
    method_text(req.method) + " "@ + req.url@ + " "@ + "HTTP/1.1"@
}

impl Response {
    /// An empty `200` response.
    pub fn new() -> (r: Response)
        ensures
            r.status == 200,
            r.headers@.len() == 0,
            r.body@.len() == 0,
    {
        Response { status: 200, headers: Vec::new(), body: Vec::new() }
    }

    /// A `200` response with `text` as its body.
    pub fn from_text(text: &str) -> (r: Response)
        ensures
            r.status == 200,
            r.headers@.len() == 0,
            r.body@ == encode_utf8(text@),
    {
        let mut r = Response::new();
        r.str_fill(text);
        r
    }

    /// A `200` response with `data` as its body and its `Content-Length`.
    pub fn from_bytes(data: &[u8]) -> (r: Response)
        ensures
            r.status == 200,
            r.body@ == data@,
            unique_keys(r.headers@),
            forall|k: Seq<char>, v: Seq<char>|
                has_header(r.headers@, k, v) <==> (k == "Content-Length"@ && v == decimal(
                    data@.len(),
                )),
    {
        let mut r = Response::new();
        r.body = vstd::slice::slice_to_vec(data);
        r.add_content_headers();
        r
    }

    /// Appends the UTF-8 bytes of `str` to the body.
    pub fn str_fill(&mut self, str: &str)
        ensures
            final(self).body@ == old(self).body@ + encode_utf8(str@),
            final(self).status == old(self).status,
            final(self).headers == old(self).headers,
    {
        let mut b = bytes_of(str);
        self.body.append(&mut b);
    }

    /// Adds `Content-Length`, the length of the body, unless it is set.
    pub fn add_content_headers(&mut self)
        requires
            unique_keys(old(self).headers@),
        ensures
            unique_keys(final(self).headers@),
            final(self).status == old(self).status,
            final(self).body == old(self).body,
            forall|k: Seq<char>, v: Seq<char>|
                has_header(final(self).headers@, k, v) <==> (has_header(old(self).headers@, k, v)
                    || (k == "Content-Length"@ && v == decimal(old(self).body@.len())
                    && forall|w: Seq<char>| !has_header(old(self).headers@, k, w))),
    {
        let key = "Content-Length".to_owned();
        match crate::http::header_index(&self.headers, &key) {
            Some(i) => {
                proof {
                    assert(has_header(self.headers@, key@, self.headers@[i as int].1@));
                    assert forall|k: Seq<char>, v: Seq<char>|
                        has_header(self.headers@, k, v) <==> (has_header(self.headers@, k, v) || (k
                            == "Content-Length"@ && v == decimal(self.body@.len()) && forall|
                            w: Seq<char>,
                        | !has_header(self.headers@, k, w))) by {
                        if k == "Content-Length"@ {
                            assert(has_header(self.headers@, k, self.headers@[i as int].1@));
                        }
                    }
                }
            },
            None => {
                let value = string_of(&decimal_of(self.body.len()));
                let ghost old_headers = self.headers@;
                insert_header(&mut self.headers, key, value);
                proof {
                    assert forall|w: Seq<char>| !has_header(old_headers, "Content-Length"@, w) by {
                        if has_header(old_headers, "Content-Length"@, w) {
                            let j = choose|j: int|
                                0 <= j < old_headers.len() && old_headers[j].0@ == "Content-Length"@
                                    && old_headers[j].1@ == w;
                            assert(old_headers[j].0@ != key@);
                        }
                    }
                }
            },
        }
    }

    /// A `200` response that echoes a request: header `echo-header` holds its
    /// request line, followed by its headers, which take precedence; the
    /// body is the request's body.
    pub fn build_request_echo(request: &Request) -> (r: Response)
        requires
            unique_keys(request.headers@),
        ensures
            r.status == 200,
            r.body@ == request.body@,
            unique_keys(r.headers@),
            forall|k: Seq<char>, v: Seq<char>|
                has_header(r.headers@, k, v) <==> (has_header(request.headers@, k, v) || (k
                    == "echo-header"@ && v == echo_line(*request) && forall|w: Seq<char>|
                    !has_header(request.headers@, k, w))),
    {
        let mut headers: Vec<(String, String)> = Vec::new();
        let echo = concat(
            &concat(
                &concat(&concat(&chars_of(request.method.as_string().as_str()), &chars_of(" ")), &chars_of(request.url.as_str())),
                &chars_of(" "),
            ),
            &chars_of("HTTP/1.1"),
        );
        let ghost ek = "echo-header"@;
        let ghost ev = echo_line(*request);
        insert_header(&mut headers, "echo-header".to_owned(), string_of(&echo));
        let hs = &request.headers;
        let mut i: usize = 0;
        while i < hs.len()
            invariant
                i <= hs@.len(),
                hs == &request.headers,
                unique_keys(hs@),
                unique_keys(headers@),
                forall|k: Seq<char>, v: Seq<char>|
                    has_header(headers@, k, v) <==> (has_header(hs@.subrange(0, i as int), k, v)
                        || (k == ek && v == ev && forall|w: Seq<char>|
                        !has_header(hs@.subrange(0, i as int), k, w))),
            decreases hs@.len() - i,
        {
            let ghost before = headers@;
            let ghost pre = hs@.subrange(0, i as int);
            let ghost post = hs@.subrange(0, i + 1);
            let ghost kn = hs@[i as int].0@;
            let ghost vn = hs@[i as int].1@;
            insert_header(&mut headers, hs[i].0.clone(), hs[i].1.clone());
            proof {
                assert forall|k: Seq<char>, w: Seq<char>|
                    has_header(post, k, w) <==> (has_header(pre, k, w) || (k == kn && w == vn)) by {
                    if has_header(post, k, w) {
                        let j = choose|j: int| 0 <= j < post.len() && post[j].0@ == k && post[j].1@ == w;
                        if j < i {
                            assert(pre[j] == post[j]);
                        }
                    }
                    if has_header(pre, k, w) {
                        let j = choose|j: int| 0 <= j < pre.len() && pre[j].0@ == k && pre[j].1@ == w;
                        assert(post[j] == pre[j]);
                    }
                    if k == kn && w == vn {
                        assert(post[i as int] == hs@[i as int]);
                    }
                }
                assert forall|k: Seq<char>, w: Seq<char>| k == kn && has_header(pre, k, w) implies false by {
                    let j = choose|j: int| 0 <= j < pre.len() && pre[j].0@ == k && pre[j].1@ == w;
                    assert(hs@[j].0@ != hs@[i as int].0@);
                }
                assert forall|k: Seq<char>, v: Seq<char>|
                    has_header(headers@, k, v) <==> (has_header(post, k, v) || (k == ek && v == ev
                        && forall|w: Seq<char>| !has_header(post, k, w))) by {
                    if k == kn {
                        assert(has_header(post, k, vn));
                    } else {
                        assert((forall|w: Seq<char>| !has_header(post, k, w)) <==> (forall|
                            w: Seq<char>,
                        | !has_header(pre, k, w)));
                    }
                }
            }
            i = i + 1;
        }
        proof {
            assert(hs@.subrange(0, hs@.len() as int) =~= hs@);
        }
        Response { status: 200, headers, body: request.body.clone() }
    }

    /// The reason phrase of the status.
    pub fn status_str(&self) -> (r: &'static str)
        ensures
            r@ == reason(self.status),
    {
        if self.status == 200 {
            "OK"
        } else if self.status == 201 {
            "CREATED"
        } else if self.status == 401 {
            "UNAUTHORIZED"
        } else if self.status == 403 {
            "FORBIDDEN"
        } else if self.status == 404 {
            "NOT FOUND"
        } else {
            "NOT OK"
        }
    }

    /// The response as it goes on the wire.
    pub fn as_bytes(&self) -> (r: Vec<u8>)
        ensures
            r@ == response_bytes(*self),
    {
        let mut buf: Vec<u8> = Vec::new();
        if self.status > 0 {
            let line = concat(
                &concat(
                    &concat(
                        &concat(&chars_of("HTTP/1.1 "), &decimal_of(self.status as usize)),
                        &chars_of(" "),
                    ),
                    &chars_of(self.status_str()),
                ),
                &chars_of("\r\n"),
            );
            let mut b = bytes_of(string_of(&line).as_str());
            buf.append(&mut b);
        }
        let ghost start = buf@;
        let mut i: usize = 0;
        while i < self.headers.len()
            invariant
                i <= self.headers@.len(),
                buf@ == start + header_lines(self.headers@.subrange(0, i as int)),
            decreases self.headers@.len() - i,
        {
            let h = &self.headers[i];
            let line = concat(
                &concat(&concat(&chars_of(h.0.as_str()), &chars_of(": ")), &chars_of(h.1.as_str())),
                &chars_of("\r\n"),
            );
            let mut b = bytes_of(string_of(&line).as_str());
            buf.append(&mut b);
            proof {
                let s = self.headers@.subrange(0, i + 1);
                assert(s.drop_last() =~= self.headers@.subrange(0, i as int));
                assert(buf@ =~= start + header_lines(s));
            }
            i = i + 1;
        }
        proof {
            assert(self.headers@.subrange(0, self.headers@.len() as int) =~= self.headers@);
        }
        buf.push(13u8);
        buf.push(10u8);
        let mut body = self.body.clone();
        buf.append(&mut body);
        proof {
            assert(buf@ =~= response_bytes(*self));
        }
        buf
    }
}

/// Where a GET request is answered from.
#[derive(Debug)]
pub enum Route {
    /// A fixed page, read from this path.
    Page(String),
    /// The request echoed back.
    Echo,
    /// The file or directory listing under the public root at the URL.
    Listing,
}

/// The route of a GET request for `url`.
pub open spec fn route_spec(url: Seq<char>, r: Route) -> bool {
    if url == "/"@ {
        r matches Route::Page(p) && p@ == "./public/static/hello.html"@
    } else if url == "/upload"@ {
        r matches Route::Page(p) && p@ == "./public/static/upload.html"@
    } else if url == "/favicon.ico"@ {
        r matches Route::Page(p) && p@ == "./public/static/favicon.ico"@
    } else if url == "/echo"@ {
        r is Echo
    } else {
        r is Listing
    }
}

/// Routes a GET request by its URL.
pub fn route_get(url: &str) -> (r: Route)
    ensures
        route_spec(url@, r),
{
    let u = chars_of(url);
    if crate::http::same_chars(&u, &chars_of("/")) {
        Route::Page("./public/static/hello.html".to_owned())
    } else if crate::http::same_chars(&u, &chars_of("/upload")) {
        Route::Page("./public/static/upload.html".to_owned())
    } else if crate::http::same_chars(&u, &chars_of("/favicon.ico")) {
        Route::Page("./public/static/favicon.ico".to_owned())
    } else if crate::http::same_chars(&u, &chars_of("/echo")) {
        Route::Echo
    } else {
        Route::Listing
    }
}

/// What basic authorization gives for a request, given the credential list
/// `users`: the credentials are the `Authorization` header's value (empty
/// without one) with `Basic ` removed.
pub open spec fn basic_outcome(req: Request, users: Seq<char>) -> Result<(), AuthError> {
    let cred = if exists|v: Seq<char>| has_header(req.headers@, "Authorization"@, v) {
        strip_basic(choose|v: Seq<char>| has_header(req.headers@, "Authorization"@, v))
    } else {
        strip_basic(seq![])
    };
    match parse_spec(cred) {
        Ok((u, p)) => check_lines(users, u, p),
        Err(e) => Err(e),
    }
}

/// What authorization gives under `scheme`.
pub open spec fn auth_outcome(req: Request, scheme: AuthScheme, users: Seq<char>) -> Result<(), AuthError> {
    match scheme {
        AuthScheme::NoAuth => Ok(()),
        AuthScheme::Basic => basic_outcome(req, users),
    }
}

impl Request {
    /// Authorizes the request under `auth_scheme`, checking basic credentials
    /// against the credential list `users`; a refusal is a `401` response
    /// that names the reason and asks for basic credentials.
    pub fn authorize(&self, auth_scheme: &AuthScheme, users: &str) -> (r: Result<(), Response>)
        requires
            unique_keys(self.headers@),
        ensures
            r is Ok <==> auth_outcome(*self, *auth_scheme, users@) is Ok,
            r matches Err(resp) ==> {
                &&& resp.status == 401
                &&& resp.headers@.len() == 1
                &&& resp.headers@[0].0@ == "WWW-Authenticate"@
                &&& resp.headers@[0].1@ == "Basic"@
                &&& auth_outcome(*self, *auth_scheme, users@) matches Err(e)
                &&& resp.body@ == encode_utf8(auth_message(e))
            },
    {
        match auth_scheme {
            AuthScheme::NoAuth => {
                return Ok(());
            },
            AuthScheme::Basic => {},
        }
        let credentials = match self.header("Authorization") {
            Some(v) => v,
            None => String::new(),
        };
        let mut auth = BasicAuth::new(credentials.as_str());
        auth.set_users(users);
        match auth.check() {
            Ok(()) => Ok(()),
            Err(e) => {
                let mut response = Response::new();
                response.str_fill(e.message().as_str());
                response.status = 401;
                response.headers.push(("WWW-Authenticate".to_owned(), "Basic".to_owned()));
                Err(response)
            },
        }
    }
}

} // verus!
