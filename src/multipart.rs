//! The pieces of multipart/form-data decoding: the boundary of a
//! `Content-Type` value, the file name of a part, and where the part goes.
use vstd::prelude::*;

use crate::http::same_chars;
use crate::text::{chars_of, concat, find, find_in, slice_of, string_of};

verus! {

/// Why a multipart body could not be decoded.
#[derive(Debug, Clone, Copy, PartialEq, Eq, Structural)]
pub enum MultipartError {
    /// The request has no `Content-Type` header.
    NoContentType,
    /// The media type is not `multipart/form-data`.
    NotMultipart,
    /// No `boundary` parameter follows the media type.
    NoBoundary,
    /// The `boundary` parameter has no `=`.
    NoBoundaryValue,
    /// A part's header is not followed by an empty line.
    NoDataStart,
    /// The body ended before its closing boundary.
    UnexpectedEnd,
}

/// The sentence that names each multipart failure.
pub open spec fn multipart_message(e: MultipartError) -> Seq<char> {
    match e {
        MultipartError::NoContentType => "no Content-Type header found"@,
        MultipartError::NotMultipart => "Content-Type must be multipart/form-data"@,
        MultipartError::NoBoundary => "no boundary found"@,
        MultipartError::NoBoundaryValue => "no equal sign in boundary"@,
        MultipartError::NoDataStart => "no data start delimiter found (\\r\\n\\r\\n)"@,
        MultipartError::UnexpectedEnd => "body ended before the closing boundary"@,
    }
}

impl MultipartError {
    /// A sentence that names the failure.
    pub fn message(&self) -> (r: String)
        ensures
            r@ == multipart_message(*self),
    {
        let s = match self {
            MultipartError::NoContentType => "no Content-Type header found",
            MultipartError::NotMultipart => "Content-Type must be multipart/form-data",
            MultipartError::NoBoundary => "no boundary found",
            MultipartError::NoBoundaryValue => "no equal sign in boundary",
            MultipartError::NoDataStart => "no data start delimiter found (\\r\\n\\r\\n)",
            MultipartError::UnexpectedEnd => "body ended before the closing boundary",
        };
        s.to_owned()
    }
}

pub open spec fn semicolon_space() -> Seq<char> {
    seq![';', ' ']
}

pub open spec fn multipart_form_data() -> Seq<char> {
    seq!['m', 'u', 'l', 't', 'i', 'p', 'a', 'r', 't', '/', 'f', 'o', 'r', 'm', '-', 'd', 'a', 't', 'a']
}

pub open spec fn boundary_word() -> Seq<char> {
    seq!['b', 'o', 'u', 'n', 'd', 'a', 'r', 'y']
}

/// The text before the first `"; "`, or all of `s`.
pub open spec fn first_param(s: Seq<char>) -> Seq<char> {
    match find(s, semicolon_space()) {
        Some(i) => s.subrange(0, i as int),
        None => s,
    }
}

/// The boundary that a `Content-Type` value declares: the media type must be
/// `multipart/form-data`, and the parameter after it must name `boundary`
/// and hold `=`; the boundary is what follows the first `=`.
pub open spec fn boundary_spec(ct: Seq<char>) -> Result<Seq<char>, MultipartError> {
    if first_param(ct) != multipart_form_data() {
        Err(MultipartError::NotMultipart)
    } else {
        match find(ct, semicolon_space()) {
            None => Err(MultipartError::NoBoundary),
            Some(i) => {
                let p = first_param(ct.subrange(i as int + 2, ct.len() as int));
                if find(p, boundary_word()).is_none() {
                    Err(MultipartError::NoBoundary)
                } else {
                    match find(p, seq!['=']) {
                        None => Err(MultipartError::NoBoundaryValue),
                        Some(e) => Ok(p.subrange(e as int + 1, p.len() as int)),
                    }
                }
            },
        }
    }
}

/// The text of `s` before the first `"; "`.
fn first_param_of(s: &Vec<char>) -> (r: Vec<char>)
    ensures
        r@ == first_param(s@),
{
    let sep = vec![';', ' '];
    proof {
        assert(sep@ =~= semicolon_space());
    }
    match find_in(s, &sep) {
        Some(i) => slice_of(s, 0, i),
        None => slice_of(s, 0, s.len()),
    }
}

/// Reads the boundary out of a `Content-Type` value.
pub fn boundary_of(content_type: &str) -> (r: Result<String, MultipartError>)
    ensures
        match (r, boundary_spec(content_type@)) {
            (Ok(b), Ok(spec_b)) => b@ == spec_b,
            (Err(e), Err(spec_e)) => e == spec_e,
            _ => false,
        },
{
    let ct = chars_of(content_type);
    let mime = first_param_of(&ct);
    let expected = vec!['m', 'u', 'l', 't', 'i', 'p', 'a', 'r', 't', '/', 'f', 'o', 'r', 'm', '-', 'd', 'a', 't', 'a'];
    proof {
        assert(expected@ =~= multipart_form_data());
    }
    if !same_chars(&mime, &expected) {
        return Err(MultipartError::NotMultipart);
    }
    let sep = vec![';', ' '];
    proof {
        assert(sep@ =~= semicolon_space());
    }
    let i = match find_in(&ct, &sep) {
        Some(i) => i,
        None => {
            return Err(MultipartError::NoBoundary);
        },
    };
    let rest = slice_of(&ct, i + 2, ct.len());
    let p = first_param_of(&rest);
    let word = vec!['b', 'o', 'u', 'n', 'd', 'a', 'r', 'y'];
    proof {
        assert(word@ =~= boundary_word());
    }
    if find_in(&p, &word).is_none() {
        return Err(MultipartError::NoBoundary);
    }
    let eq = vec!['='];
    proof {
        assert(eq@ =~= seq!['=']);
    }
    match find_in(&p, &eq) {
        Some(e) => {
            let plen = p.len();
            proof {
                assert(e + 1 <= p@.len());
            }
            Ok(string_of(&slice_of(&p, e + 1, plen)))
        },
        None => Err(MultipartError::NoBoundaryValue),
    }
}

pub open spec fn filename_attr() -> Seq<char> {
    seq!['f', 'i', 'l', 'e', 'n', 'a', 'm', 'e', '=', '"']
}

/// The file name that one `;`-separated piece of a part header gives: the
/// text after `filename="` up to the piece's last character, the closing quote.
pub open spec fn piece_file_name(p: Seq<char>) -> Option<Seq<char>> {
    match find(p, filename_attr()) {
        Some(pos) => if pos + 11 <= p.len() {
            Some(p.subrange(pos as int + 10, p.len() - 1))
        } else {
            None
        },
        None => None,
    }
}

/// The file name of a part header line, scanning its `;`-separated pieces
/// from the front: the last piece that names a file wins, else `acc`.
pub open spec fn file_name_from(line: Seq<char>, acc: Seq<char>) -> Seq<char>
    decreases line.len(),
{
    match find(line, seq![';']) {
        Some(k) => {
            let acc2 = match piece_file_name(line.subrange(0, k as int)) {
                Some(n) => n,
                None => acc,
            };
            if k < line.len() {
                file_name_from(line.subrange(k as int + 1, line.len() as int), acc2)
            } else {
                acc2
            }
        },
        None => match piece_file_name(line) {
            Some(n) => n,
            None => acc,
        },
    }
}

/// The name under which a part without a file name is saved.
pub open spec fn default_file_name() -> Seq<char> {
    seq!['l', 'a', 's', 't', '_', 'u', 'p', 'l', 'o', 'a', 'd']
}

/// The file name that a piece names, if any.
fn piece_name(p: &Vec<char>) -> (r: Option<Vec<char>>)
    ensures
        match (r, piece_file_name(p@)) {
            (Some(a), Some(b)) => a@ == b,
            (None, None) => true,
            _ => false,
        },
{
    let attr = vec!['f', 'i', 'l', 'e', 'n', 'a', 'm', 'e', '=', '"'];
    proof {
        assert(attr@ =~= filename_attr());
    }
    match find_in(p, &attr) {
        Some(pos) => if p.len() >= 11 && pos <= p.len() - 11 {
            Some(slice_of(p, pos + 10, p.len() - 1))
        } else {
            None
        },
        None => None,
    }
}

/// The file name of a part header line, `last_upload` where none is given.
pub fn file_name_of(line: &str) -> (r: String)
    ensures
        r@ == file_name_from(line@, default_file_name()),
{
    let l = chars_of(line);
    let n = l.len();
    let mut name: Vec<char> = vec!['l', 'a', 's', 't', '_', 'u', 'p', 'l', 'o', 'a', 'd'];
    let mut start: usize = 0;
    let semi = vec![';'];
    proof {
        assert(semi@ =~= seq![';']);
        assert(name@ =~= default_file_name());
        assert(l@.subrange(0, n as int) =~= l@);
    }
    loop
        invariant
            n == l@.len(),
            l@ == line@,
            start <= n,
            semi@ == seq![';'],
            file_name_from(l@, default_file_name()) == file_name_from(
                l@.subrange(start as int, n as int),
                name@,
            ),
        decreases n - start,
    {
        let rest = slice_of(&l, start, n);
        match find_in(&rest, &semi) {
            Some(k) => {
                let piece = slice_of(&rest, 0, k);
                match piece_name(&piece) {
                    Some(found) => {
                        name = found;
                    },
                    None => {},
                }
                proof {
                    assert(rest@.subrange(k + 1, rest@.len() as int) =~= l@.subrange(
                        start + k + 1,
                        n as int,
                    ));
                }
                start = start + k + 1;
            },
            None => {
                let ghost old_name = name@;
                proof {
                    assert(find(rest@, seq![';']).is_none());
                    assert(file_name_from(rest@, name@) == match piece_file_name(rest@) {
                        Some(n) => n,
                        None => name@,
                    });
                }
                match piece_name(&rest) {
                    Some(found) => {
                        name = found;
                    },
                    None => {},
                }
                return string_of(&name);
            },
        }
    }
}

/// Where a part of a request for `url` is saved: uploads to `/upload` go to
/// the uploads directory, others under the public directory at the URL.
pub open spec fn destination_spec(url: Seq<char>, file_name: Seq<char>) -> Seq<char> {
    if url == "/upload"@ {
        "./public/content/upload/"@ + file_name
    } else {
        "./public/"@ + url + "/"@ + file_name
    }
}

/// The path at which a part named `file_name` of a request for `url` is saved.
pub fn destination_path(url: &str, file_name: &str) -> (r: String)
    ensures
        r@ == destination_spec(url@, file_name@),
{
    let u = chars_of(url);
    let f = chars_of(file_name);
    if same_chars(&u, &chars_of("/upload")) {
        string_of(&concat(&chars_of("./public/content/upload/"), &f))
    } else {
        let a = concat(&chars_of("./public/"), &u);
        let b = concat(&a, &chars_of("/"));
        string_of(&concat(&b, &f))
    }
}

} // verus!
