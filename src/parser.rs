//! The request parser: request line, header lines, and for POST a
//! multipart/form-data body whose parts are spilled to files.
//!
//! The parser never reads by itself. `start` and `on_read` name the next
//! read (its delimiter, and the file that its bytes go to, if any); the caller
//! performs it with a `SafeBuf` and hands back how it ended.
use vstd::prelude::*;
use vstd::utf8::*;

use crate::http::{
    has_header, header_name, header_value, method_end, method_matches, unique_keys, url_of,
    Request, RequestMethod,
};
use crate::multipart::{
    boundary_of, boundary_spec, default_file_name, destination_path, destination_spec,
    file_name_from, file_name_of, multipart_message, MultipartError,
};
use crate::reader::{read_message, ReadError, ReadOutcome};
use crate::text::{bytes_of, utf8_string};

verus! {

/// Where the parser stands in a request.
#[derive(Debug, Clone, Copy, PartialEq, Eq, Structural)]
pub enum Phase {
    RequestLine,
    Headers,
    Preamble,
    PartStart,
    PartHeader,
    PartContentType,
    PartBlank,
    PartData,
    Complete,
    Failed,
}

/// Why a request could not be parsed.
#[derive(Debug, Clone, Copy, PartialEq, Eq, Structural)]
pub enum ParseError {
    /// The reader failed.
    Read(ReadError),
    /// A line is not valid UTF-8.
    InvalidUtf8,
    /// The multipart body is malformed.
    Multipart(MultipartError),
}

/// The sentence that names each parse failure: that of the reader or of
/// the multipart decoder where one of them failed.
pub open spec fn parse_message(e: ParseError) -> Seq<char> {
    match e {
        ParseError::Read(r) => read_message(r),
        ParseError::InvalidUtf8 => "invalid utf-8 sequence"@,
        ParseError::Multipart(m) => multipart_message(m),
    }
}

impl ParseError {
    /// A sentence that names the failure.
    pub fn message(&self) -> (r: String)
        ensures
            r@ == parse_message(*self),
    {
        match self {
            ParseError::Read(e) => e.message(),
            ParseError::InvalidUtf8 => "invalid utf-8 sequence".to_owned(),
            ParseError::Multipart(m) => m.message(),
        }
    }
}

/// What the caller does next.
#[derive(Debug)]
pub enum ParseAction {
    /// Read up to `delimiter`, sending the bytes to `spill_to` when it is set,
    /// and pass the result to `on_read`.
    Read { delimiter: Vec<u8>, spill_to: Option<String> },
    /// The request is complete.
    Done,
    /// The request failed.
    Failed(ParseError),
}

pub open spec fn crlf() -> Seq<u8> {
    seq![13u8, 10u8]
}

/// The marker that ends a multipart body after its last boundary.
pub open spec fn closing_marker() -> Seq<u8> {
    seq![45u8, 45u8]
}

/// The delimiter before each boundary after the first: CRLF, `--`, boundary.
pub open spec fn part_delimiter(boundary: Seq<u8>) -> Seq<u8> {
    seq![13u8, 10u8, 45u8, 45u8] + boundary
}

/// The acknowledgement that replaces the body of a multipart upload.
pub open spec fn saved_body() -> Seq<u8> {
    seq![115u8, 97u8, 118u8, 101u8, 100u8]
}

/// The bytes of a read that kept them in memory; none for a spilled read.
pub open spec fn bytes_read(outcome: ReadOutcome) -> Seq<u8> {
    match outcome {
        ReadOutcome::InMemory(v) => v@,
        ReadOutcome::Spilled => seq![],
    }
}

/// True when `a` is a plain read of the next line.
pub open spec fn reads_line(a: ParseAction) -> bool {
    a matches ParseAction::Read { delimiter, spill_to } && delimiter@ == crlf() && spill_to is None
}

pub struct RequestParser {
    request: Request,
    phase: Phase,
    boundary: Vec<u8>,
    file_name: String,
}

impl RequestParser {
    pub closed spec fn phase(&self) -> Phase {
        self.phase
    }

    pub closed spec fn request(&self) -> Request {
        self.request
    }

    /// The boundary of the multipart body, as bytes.
    pub closed spec fn boundary(&self) -> Seq<u8> {
        self.boundary@
    }

    /// The file name of the part being read.
    pub closed spec fn file_name(&self) -> Seq<char> {
        self.file_name@
    }

    pub closed spec fn wf(&self) -> bool {
        &&& unique_keys(self.request.headers@)
        &&& (self.phase == Phase::Preamble || self.phase == Phase::PartStart || self.phase
            == Phase::PartHeader || self.phase == Phase::PartContentType || self.phase
            == Phase::PartBlank || self.phase == Phase::PartData) ==> self.boundary@.len() > 0
    }

    /// A parser before the request line.
    pub fn new() -> (r: RequestParser)
        ensures
            r.wf(),
            r.phase() == Phase::RequestLine,
            r.request().method is Get,
            r.request().url@.len() == 0,
            r.request().headers@.len() == 0,
            r.request().body@.len() == 0,
    {
        RequestParser {
            request: Request::new(),
            phase: Phase::RequestLine,
            boundary: Vec::new(),
            file_name: String::new(),
        }
    }

    /// The first read: the request line.
    pub fn start(&self) -> (r: ParseAction)
        ensures
            reads_line(r),
    {
        line_read()
    }

    /// Hands over the parsed request.
    pub fn into_request(self) -> (r: Request)
        ensures
            r == self.request(),
    {
        self.request
    }

    /// Takes the result of the read that the last action asked for, with
    /// `found` telling whether that read ended at its delimiter, and names the
    /// next action.
    pub fn on_read(&mut self, result: Result<ReadOutcome, ReadError>, found: bool) -> (r: ParseAction)
        requires
            old(self).wf(),
            old(self).phase() != Phase::Complete,
            old(self).phase() != Phase::Failed,
        ensures
            final(self).wf(),
            r matches ParseAction::Read { delimiter, .. } ==> delimiter@.len() > 0,
            r is Done <==> final(self).phase() == Phase::Complete,
            r is Failed <==> final(self).phase() == Phase::Failed,
            result matches Err(e) ==> r matches ParseAction::Failed(ParseError::Read(e2)) && e2 == e,
            r is Failed ==> final(self).request() == old(self).request(),
            result matches Ok(outcome) ==> on_read_spec(*old(self), bytes_read(outcome), found, *final(self), r),
    {
        let outcome = match result {
            Ok(o) => o,
            Err(e) => {
                self.phase = Phase::Failed;
                return ParseAction::Failed(ParseError::Read(e));
            },
        };
        let bytes = match outcome {
            ReadOutcome::InMemory(v) => v,
            ReadOutcome::Spilled => Vec::new(),
        };
        match self.phase {
            Phase::Preamble => {
                self.phase = Phase::PartStart;
                return line_read();
            },
            Phase::PartData => {
                self.phase = Phase::PartStart;
                return line_read();
            },
            Phase::PartStart => {
                if !found {
                    self.phase = Phase::Failed;
                    return ParseAction::Failed(ParseError::Multipart(MultipartError::UnexpectedEnd));
                }
                if bytes.len() == 2 && bytes[0] == 45u8 && bytes[1] == 45u8 {
                    proof {
                        assert(bytes@ =~= closing_marker());
                    }
                    self.request.body = vec![115u8, 97u8, 118u8, 101u8, 100u8];
                    self.phase = Phase::Complete;
                    return ParseAction::Done;
                }
                proof {
                    if bytes@ == closing_marker() {
                        assert(bytes@[0] == 45u8 && bytes@[1] == 45u8);
                    }
                }
                self.phase = Phase::PartHeader;
                return line_read();
            },
            _ => {},
        }
        let ghost b = bytes@;
        let line = match utf8_string(bytes) {
            Some(s) => s,
            None => {
                self.phase = Phase::Failed;
                return ParseAction::Failed(ParseError::InvalidUtf8);
            },
        };
        match self.phase {
            Phase::RequestLine => {
                if line.as_str().is_empty() {
                    self.phase = Phase::Complete;
                    return ParseAction::Done;
                }
                self.request.parse_first_line(line.as_str());
                self.phase = Phase::Headers;
                line_read()
            },
            Phase::Headers => {
                if !line.as_str().is_empty() {
                    self.request.parse_header(line.as_str());
                    return line_read();
                }
                match self.request.method {
                    RequestMethod::Post => {},
                    _ => {
                        self.phase = Phase::Complete;
                        return ParseAction::Done;
                    },
                }
                self.begin_multipart()
            },
            Phase::PartHeader => {
                self.file_name = file_name_of(line.as_str());
                self.phase = Phase::PartContentType;
                line_read()
            },
            Phase::PartContentType => {
                self.phase = Phase::PartBlank;
                line_read()
            },
            _ => {
                // the blank line that opens the part's data
                if !line.as_str().is_empty() {
                    self.phase = Phase::Failed;
                    return ParseAction::Failed(ParseError::Multipart(MultipartError::NoDataStart));
                }
                let path = destination_path(self.request.url.as_str(), self.file_name.as_str());
                let mut delimiter: Vec<u8> = vec![13u8, 10u8, 45u8, 45u8];
                let mut k: usize = 0;
                while k < self.boundary.len()
                    invariant
                        k <= self.boundary@.len(),
                        delimiter@ == seq![13u8, 10u8, 45u8, 45u8] + self.boundary@.subrange(0, k as int),
                    decreases self.boundary@.len() - k,
                {
                    delimiter.push(self.boundary[k]);
                    k = k + 1;
                    proof {
                        assert(delimiter@ =~= seq![13u8, 10u8, 45u8, 45u8] + self.boundary@.subrange(0, k as int));
                    }
                }
                proof {
                    assert(self.boundary@.subrange(0, self.boundary@.len() as int) =~= self.boundary@);
                }
                self.phase = Phase::PartData;
                ParseAction::Read { delimiter, spill_to: Some(path) }
            },
        }
    }

    /// After the headers of a POST: finds the boundary and reads up to it.
    fn begin_multipart(&mut self) -> (r: ParseAction)
        requires
            old(self).wf(),
        ensures
            final(self).wf(),
            final(self).request() == old(self).request(),
            begin_multipart_spec(old(self).request(), *final(self), r),
    {
        let content_type = match self.request.header("Content-Type") {
            Some(v) => v,
            None => {
                self.phase = Phase::Failed;
                return ParseAction::Failed(ParseError::Multipart(MultipartError::NoContentType));
            },
        };
        let boundary = match boundary_of(content_type.as_str()) {
            Ok(b) => b,
            Err(e) => {
                self.phase = Phase::Failed;
                return ParseAction::Failed(ParseError::Multipart(e));
            },
        };
        let bytes = bytes_of(boundary.as_str());
        if bytes.len() == 0 {
            self.phase = Phase::Failed;
            return ParseAction::Failed(ParseError::Multipart(MultipartError::NoBoundaryValue));
        }
        self.boundary = bytes;
        self.phase = Phase::Preamble;
        ParseAction::Read { delimiter: vec_copy(&self.boundary), spill_to: None }
    }
}

/// The read of one line.
fn line_read() -> (r: ParseAction)
    ensures
        reads_line(r),
{
    let delimiter = vec![13u8, 10u8];
    proof {
        assert(delimiter@ =~= crlf());
    }
    ParseAction::Read { delimiter, spill_to: None }
}

fn vec_copy(v: &Vec<u8>) -> (r: Vec<u8>)
    ensures
        r@ == v@,
{
    let mut r: Vec<u8> = Vec::new();
    let mut k: usize = 0;
    while k < v.len()
        invariant
            k <= v@.len(),
            r@ == v@.subrange(0, k as int),
        decreases v@.len() - k,
    {
        r.push(v[k]);
        k = k + 1;
        proof {
            assert(r@ =~= v@.subrange(0, k as int));
        }
    }
    proof {
        assert(v@.subrange(0, v@.len() as int) =~= v@);
    }
    r
}

/// The multipart body begins: the `Content-Type` header must give a
/// nonempty boundary; the first read goes up to it.
pub open spec fn begin_multipart_spec(req: Request, t: RequestParser, r: ParseAction) -> bool {
    if forall|v: Seq<char>| !has_header(req.headers@, "Content-Type"@, v) {
        r matches ParseAction::Failed(ParseError::Multipart(MultipartError::NoContentType))
            && t.phase() == Phase::Failed
    } else {
        forall|ct: Seq<char>|
            has_header(req.headers@, "Content-Type"@, ct) ==> (match boundary_spec(ct) {
                Err(e) => r matches ParseAction::Failed(ParseError::Multipart(e2)) && e2 == e
                    && t.phase() == Phase::Failed,
                Ok(b) => if encode_utf8(b).len() == 0 {
                    r matches ParseAction::Failed(
                        ParseError::Multipart(MultipartError::NoBoundaryValue),
                    ) && t.phase() == Phase::Failed
                } else {
                    &&& t.boundary() == encode_utf8(b)
                    &&& t.phase() == Phase::Preamble
                    &&& r matches ParseAction::Read { delimiter, spill_to }
                    &&& delimiter@ == encode_utf8(b)
                    &&& spill_to is None
                },
            })
    }
}

/// What `on_read` does with the bytes `b` of a completed read.
pub open spec fn on_read_spec(
    s: RequestParser,
    b: Seq<u8>,
    found: bool,
    t: RequestParser,
    r: ParseAction,
) -> bool {
    match s.phase() {
        Phase::Preamble | Phase::PartData => {
            &&& t.phase() == Phase::PartStart
            &&& reads_line(r)
            &&& t.request() == s.request()
        },
        Phase::PartStart => if !found {
            r matches ParseAction::Failed(ParseError::Multipart(MultipartError::UnexpectedEnd))
        } else if b == closing_marker() {
            &&& r is Done
            &&& t.request().body@ == saved_body()
            &&& t.request().url == s.request().url
            &&& t.request().headers == s.request().headers
        } else {
            &&& t.phase() == Phase::PartHeader
            &&& reads_line(r)
            &&& t.request() == s.request()
        },
        _ => if !valid_utf8(b) {
            r matches ParseAction::Failed(ParseError::InvalidUtf8)
        } else {
            let line = decode_utf8(b);
            match s.phase() {
                Phase::RequestLine => if line.len() == 0 {
                    r is Done && t.request() == s.request()
                } else {
                    &&& t.phase() == Phase::Headers
                    &&& reads_line(r)
                    &&& method_matches(line.subrange(0, method_end(line)), t.request().method)
                    &&& t.request().url@ == url_of(line)
                    &&& t.request().headers == s.request().headers
                },
                Phase::Headers => if line.len() > 0 {
                    &&& t.phase() == Phase::Headers
                    &&& reads_line(r)
                    &&& forall|k: Seq<char>, v: Seq<char>|
                        has_header(t.request().headers@, k, v) <==> ((k == header_name(line) && v
                            == header_value(line)) || (k != header_name(line) && has_header(
                            s.request().headers@,
                            k,
                            v,
                        )))
                    &&& t.request().url == s.request().url
                } else if !(s.request().method is Post) {
                    r is Done && t.request() == s.request()
                } else {
                    begin_multipart_spec(s.request(), t, r) && t.request() == s.request()
                },
                Phase::PartHeader => {
                    &&& t.phase() == Phase::PartContentType
                    &&& reads_line(r)
                    &&& t.file_name() == file_name_from(line, default_file_name())
                    &&& t.request() == s.request()
                },
                Phase::PartContentType => {
                    &&& t.phase() == Phase::PartBlank
                    &&& reads_line(r)
                    &&& t.request() == s.request()
                },
                _ => if line.len() > 0 {
                    r matches ParseAction::Failed(ParseError::Multipart(MultipartError::NoDataStart))
                } else {
                    &&& t.phase() == Phase::PartData
                    &&& t.request() == s.request()
                    &&& r matches ParseAction::Read { delimiter, spill_to }
                    &&& delimiter@ == part_delimiter(s.boundary())
                    &&& spill_to matches Some(p) && p@ == destination_spec(
                        s.request().url@,
                        s.file_name(),
                    )
                },
            }
        },
    }
}

} // verus!
