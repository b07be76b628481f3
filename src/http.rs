//! Requests: the method, the request line and the header lines.
use vstd::prelude::*;

use crate::text::{
    chars_of, decode_spaces, decode_spaces_in, find, find_in, lower_of, slice_of, string_of, to_lower,
    trim, trim_of,
};

verus! {

/// The request method; an unknown method keeps its token as it was written.
#[derive(Debug)]
pub enum RequestMethod {
    Get,
    Post,
    Other(String),
}

/// The method that token `raw` names: `get` and `post` in any case and with
/// surrounding whitespace, anything else kept as written.
pub open spec fn method_matches(raw: Seq<char>, m: RequestMethod) -> bool {
    let token = lower_of(trim_of(raw));
    if token == seq!['g', 'e', 't'] {
        m is Get
    } else if token == seq!['p', 'o', 's', 't'] {
        m is Post
    } else {
        m matches RequestMethod::Other(o) && o@ == raw
    }
}

/// True when the characters of `a` are those of `b`.
pub fn same_chars(a: &Vec<char>, b: &Vec<char>) -> (r: bool)
    ensures
        r == (a@ == b@),
{
    if a.len() != b.len() {
        return false;
    }
    let mut i: usize = 0;
    while i < a.len()
        invariant
            a@.len() == b@.len(),
            i <= a@.len(),
            forall|j: int| 0 <= j < i ==> a@[j] == b@[j],
        decreases a@.len() - i,
    {
        if a[i] != b[i] {
            return false;
        }
        i = i + 1;
    }
    proof {
        assert(a@ =~= b@);
    }
    true
}

impl RequestMethod {
    /// Reads a method token: surrounding whitespace and case do not matter.
    pub fn from(str_raw: &str) -> (r: RequestMethod)
        ensures
            method_matches(str_raw@, r),
    {
        let trimmed = trim(str_raw);
        let lowered = to_lower(trimmed.as_str());
        let cs = chars_of(lowered.as_str());
        if same_chars(&cs, &vec!['g', 'e', 't']) {
            RequestMethod::Get
        } else if same_chars(&cs, &vec!['p', 'o', 's', 't']) {
            RequestMethod::Post
        } else {
            RequestMethod::Other(str_raw.to_owned())
        }
    }

    /// The method as it stands in a request line.
    pub fn as_string(&self) -> (r: String)
        ensures
            r@ == method_text(*self),
    {
        match self {
            RequestMethod::Get => string_of(&vec!['G', 'E', 'T']),
            RequestMethod::Post => string_of(&vec!['P', 'O', 'S', 'T']),
            RequestMethod::Other(o) => o.clone(),
        }
    }
}

pub open spec fn method_text(m: RequestMethod) -> Seq<char> {
    match m {
        RequestMethod::Get => seq!['G', 'E', 'T'],
        RequestMethod::Post => seq!['P', 'O', 'S', 'T'],
        RequestMethod::Other(o) => o@,
    }
}

/// Header names are unique.
pub open spec fn unique_keys(hs: Seq<(String, String)>) -> bool {
    forall|i: int, j: int| 0 <= i < j < hs.len() ==> hs[i].0@ != hs[j].0@
}

/// The headers hold the entry `k: v`.
pub open spec fn has_header(hs: Seq<(String, String)>, k: Seq<char>, v: Seq<char>) -> bool {
    exists|i: int| 0 <= i < hs.len() && hs[i].0@ == k && hs[i].1@ == v
}

/// Where `name` stands among the headers.
pub fn header_index(hs: &Vec<(String, String)>, name: &String) -> (r: Option<usize>)
    ensures
        r matches Some(i) ==> i < hs@.len() && hs@[i as int].0@ == name@,
        r is None ==> forall|i: int| 0 <= i < hs@.len() ==> hs@[i].0@ != name@,
{
    let mut i: usize = 0;
    while i < hs.len()
        invariant
            i <= hs@.len(),
            forall|j: int| 0 <= j < i ==> hs@[j].0@ != name@,
        decreases hs@.len() - i,
    {
        if hs[i].0 == *name {
            return Some(i);
        }
        i = i + 1;
    }
    None
}

/// Sets header `name` to `value`: a later value for a name replaces the earlier.
pub fn insert_header(hs: &mut Vec<(String, String)>, name: String, value: String)
    requires
        unique_keys(old(hs)@),
    ensures
        unique_keys(final(hs)@),
        forall|k: Seq<char>, v: Seq<char>|
            has_header(final(hs)@, k, v) <==> ((k == name@ && v == value@) || (k != name@
                && has_header(old(hs)@, k, v))),
{
    let ghost n = name@;
    let ghost val = value@;
    match header_index(hs, &name) {
        Some(i) => {
            hs.set(i, (name, value));
            proof {
                assert forall|k: Seq<char>, v: Seq<char>|
                    has_header(hs@, k, v) <==> ((k == n && v == val) || (k != n && has_header(
                        old(hs)@,
                        k,
                        v,
                    ))) by {
                    if has_header(hs@, k, v) {
                        let j = choose|j: int|
                            0 <= j < hs@.len() && hs@[j].0@ == k && hs@[j].1@ == v;
                        if j != i {
                            assert(old(hs)@[j] == hs@[j]);
                        }
                    }
                    if k == n && v == val {
                        assert(hs@[i as int].0@ == k && hs@[i as int].1@ == v);
                    }
                    if k != n && has_header(old(hs)@, k, v) {
                        let j = choose|j: int|
                            0 <= j < old(hs)@.len() && old(hs)@[j].0@ == k && old(hs)@[j].1@ == v;
                        assert(j != i);
                        assert(hs@[j] == old(hs)@[j]);
                    }
                }
            }
        },
        None => {
            hs.push((name, value));
            proof {
                assert forall|k: Seq<char>, v: Seq<char>|
                    has_header(hs@, k, v) <==> ((k == n && v == val) || (k != n && has_header(
                        old(hs)@,
                        k,
                        v,
                    ))) by {
                    let last = old(hs)@.len() as int;
                    if has_header(hs@, k, v) {
                        let j = choose|j: int|
                            0 <= j < hs@.len() && hs@[j].0@ == k && hs@[j].1@ == v;
                        if j != last {
                            assert(old(hs)@[j] == hs@[j]);
                        }
                    }
                    if k == n && v == val {
                        assert(hs@[last].0@ == k && hs@[last].1@ == v);
                    }
                    if k != n && has_header(old(hs)@, k, v) {
                        let j = choose|j: int|
                            0 <= j < old(hs)@.len() && old(hs)@[j].0@ == k && old(hs)@[j].1@ == v;
                        assert(hs@[j] == old(hs)@[j]);
                    }
                }
            }
        },
    }
}

/// A parsed request. For a multipart upload `body` is an acknowledgement,
/// not the uploaded content, which went to files.
#[derive(Debug)]
pub struct Request {
    pub method: RequestMethod,
    pub headers: Vec<(String, String)>,
    pub url: String,
    pub body: Vec<u8>,
}

/// End of the method word: the first space, or the whole line.
pub open spec fn method_end(l: Seq<char>) -> int {
    match find(l, seq![' ']) {
        Some(i) => i as int,
        None => l.len() as int,
    }
}

/// Position of the last `c` in `s`, if any.
pub open spec fn rfind_char(s: Seq<char>, c: char) -> Option<nat>
    decreases s.len(),
{
    if s.len() == 0 {
        None
    } else if s.last() == c {
        Some((s.len() - 1) as nat)
    } else {
        rfind_char(s.drop_last(), c)
    }
}

/// Start of the version word: just after the last space, or 0.
pub open spec fn version_start(l: Seq<char>) -> int {
    match rfind_char(l, ' ') {
        Some(i) => i as int + 1,
        None => 0,
    }
}

/// Start of the target: after the method word and its space.
pub open spec fn target_start(l: Seq<char>) -> int {
    if method_end(l) + 1 < l.len() {
        method_end(l) + 1
    } else {
        l.len() as int
    }
}

/// End of the target: where the version word starts, but not before the target.
pub open spec fn target_end(l: Seq<char>) -> int {
    if version_start(l) > target_start(l) {
        version_start(l)
    } else {
        target_start(l)
    }
}

/// The URL that a request line names: the text between the method and the
/// version, trimmed, with each `%20` read as a space.
pub open spec fn url_of(l: Seq<char>) -> Seq<char> {
    decode_spaces(trim_of(l.subrange(target_start(l), target_end(l))))
}

/// The name of a header line: the text before the first `": "`, or the line.
pub open spec fn header_name(l: Seq<char>) -> Seq<char> {
    match find(l, seq![':', ' ']) {
        Some(i) => l.subrange(0, i as int),
        None => l,
    }
}

/// The value of a header line: the text after the first `": "`, trimmed,
/// or nothing.
pub open spec fn header_value(l: Seq<char>) -> Seq<char> {
    match find(l, seq![':', ' ']) {
        Some(i) => trim_of(l.subrange(i as int + 2, l.len() as int)),
        None => seq![],
    }
}

/// Where the last `c` stands in `s`.
pub fn rfind_in(s: &Vec<char>, c: char) -> (r: Option<usize>)
    ensures
        r matches Some(i) ==> rfind_char(s@, c) == Some(i as nat) && i < s@.len(),
        r is None ==> rfind_char(s@, c).is_none(),
{
    let mut i: usize = s.len();
    proof {
        assert(s@.subrange(0, i as int) =~= s@);
    }
    while i > 0
        invariant
            i <= s@.len(),
            rfind_char(s@, c) == rfind_char(s@.subrange(0, i as int), c),
        decreases i,
    {
        let ghost p = s@.subrange(0, i as int);
        if s[i - 1] == c {
            return Some(i - 1);
        }
        proof {
            assert(p.drop_last() =~= s@.subrange(0, i - 1));
        }
        i = i - 1;
    }
    None
}

impl Request {
    /// The empty request of an idle or aborted connection.
    pub fn new() -> (r: Request)
        ensures
            r.method is Get,
            r.headers@.len() == 0,
            r.url@.len() == 0,
            r.body@.len() == 0,
    {
        Request { method: RequestMethod::Get, headers: Vec::new(), url: String::new(), body: Vec::new() }
    }

    /// A request with the given method, URL and body, and no headers.
    pub fn build(method: RequestMethod, url: &str, body: &[u8]) -> (r: Request)
        ensures
            r.method == method,
            r.headers@.len() == 0,
            r.url@ == url@,
            r.body@ == body@,
    {
        Request {
            method,
            headers: Vec::new(),
            url: url.to_owned(),
            body: vstd::slice::slice_to_vec(body),
        }
    }

    /// Reads the request line: the method word, the URL, and the version
    /// word, which is dropped.
    pub fn parse_first_line(&mut self, request_line: &str)
        ensures
            method_matches(request_line@.subrange(0, method_end(request_line@)), final(self).method),
            final(self).url@ == url_of(request_line@),
            final(self).headers == old(self).headers,
            final(self).body == old(self).body,
    {
        let l = chars_of(request_line);
        let n = l.len();
        let space = vec![' '];
        proof {
            assert(space@ =~= seq![' ']);
        }
        let method_len = match find_in(&l, &space) {
            Some(i) => i,
            None => n,
        };
        let method_str = string_of(&slice_of(&l, 0, method_len));
        self.method = RequestMethod::from(method_str.as_str());
        let version_from = match rfind_in(&l, ' ') {
            Some(i) => i + 1,
            None => 0,
        };
        let word_start = if method_len < n { method_len + 1 } else { n };
        let word_end = if version_from > word_start { version_from } else { word_start };
        let target = string_of(&slice_of(&l, word_start, word_end));
        let trimmed = trim(target.as_str());
        let decoded = decode_spaces_in(&chars_of(trimmed.as_str()));
        self.url = string_of(&decoded);
    }

    /// Reads a header line into the headers; a line without `": "` gives an
    /// empty value, and an empty line changes nothing.
    pub fn parse_header(&mut self, buf: &str)
        requires
            unique_keys(old(self).headers@),
        ensures
            unique_keys(final(self).headers@),
            buf@.len() == 0 ==> final(self).headers == old(self).headers,
            buf@.len() > 0 ==> forall|k: Seq<char>, v: Seq<char>|
                has_header(final(self).headers@, k, v) <==> ((k == header_name(buf@) && v
                    == header_value(buf@)) || (k != header_name(buf@) && has_header(
                    old(self).headers@,
                    k,
                    v,
                ))),
            final(self).method == old(self).method,
            final(self).url == old(self).url,
            final(self).body == old(self).body,
    {
        let l = chars_of(buf);
        if l.len() == 0 {
            return;
        }
        let sep = vec![':', ' '];
        proof {
            assert(sep@ =~= seq![':', ' ']);
        }
        let (name, value) = match find_in(&l, &sep) {
            Some(i) => {
                let rest = string_of(&slice_of(&l, i + 2, l.len()));
                (string_of(&slice_of(&l, 0, i)), trim(rest.as_str()))
            },
            None => (string_of(&l), String::new()),
        };
        insert_header(&mut self.headers, name, value);
    }

    /// The value of header `name`, if the request has it.
    pub fn header(&self, name: &str) -> (r: Option<String>)
        requires
            unique_keys(self.headers@),
        ensures
            r matches Some(v) ==> has_header(self.headers@, name@, v@),
            r is None ==> forall|v: Seq<char>| !has_header(self.headers@, name@, v),
    {
        let key = name.to_owned();
        match header_index(&self.headers, &key) {
            Some(i) => {
                let v = self.headers[i].1.clone();
                proof {
                    assert(self.headers@[i as int].1@ == v@);
                }
                Some(v)
            },
            None => None,
        }
    }
}

} // verus!
