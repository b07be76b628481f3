//! Basic authentication: the `Authorization` header's credentials, and their
//! check against a credential list of `user:password` lines.
use vstd::prelude::*;
use vstd::utf8::*;

use base64::Engine;

use crate::text::{bytes_of, chars_of, find, find_in, slice_of, string_of, utf8_string};

verus! {

/// Why a request is not authorized.
#[derive(Debug, Clone, Copy, PartialEq, Eq, Structural)]
pub enum AuthError {
    /// No credentials were sent.
    MissingCredentials,
    /// The credentials are not valid base64.
    Malformed,
    /// The decoded credentials are not valid UTF-8.
    NotUtf8,
    /// No line of the credential list names the user.
    UserNotFound,
    /// The line of the user holds another password.
    WrongPassword,
}

/// The sentence that names each authorization failure.
pub open spec fn auth_message(e: AuthError) -> Seq<char> {
    match e {
        AuthError::MissingCredentials => "credentials required, but not provided"@,
        AuthError::Malformed => "credentials parsing error"@,
        AuthError::NotUtf8 => "credentials are not valid UTF-8"@,
        AuthError::UserNotFound => "user not found"@,
        AuthError::WrongPassword => "password is incorrect"@,
    }
}

impl AuthError {
    /// A sentence that names the failure.
    pub fn message(&self) -> (r: String)
        ensures
            r@ == auth_message(*self),
    {
        let s = match self {
            AuthError::MissingCredentials => "credentials required, but not provided",
            AuthError::Malformed => "credentials parsing error",
            AuthError::NotUtf8 => "credentials are not valid UTF-8",
            AuthError::UserNotFound => "user not found",
            AuthError::WrongPassword => "password is incorrect",
        };
        s.to_owned()
    }
}

/// What the standard base64 engine decodes `input` to; `None` where it
/// reports an error.
pub uninterp spec fn base64_decoded(input: Seq<u8>) -> Option<Seq<u8>>;

/// Relies on `base64::engine::general_purpose::STANDARD.decode`: the bytes
/// that the input encodes, or an error; the outcome depends on the input alone.
#[verifier::external_body]
fn decode_base64(input: &[u8]) -> (r: Option<Vec<u8>>)
    ensures
        r.is_some() == base64_decoded(input@).is_some(),
        r matches Some(v) ==> base64_decoded(input@) == Some(v@),
{
    base64::engine::general_purpose::STANDARD.decode(input).ok()
}

pub open spec fn basic_prefix() -> Seq<char> {
    seq!['B', 'a', 's', 'i', 'c', ' ']
}

/// `s` with every `Basic ` removed, scanning from the front.
pub open spec fn strip_basic(s: Seq<char>) -> Seq<char>
    decreases s.len(),
{
    if s.len() == 0 {
        s
    } else if s.len() >= 6 && s.subrange(0, 6) == basic_prefix() {
        strip_basic(s.subrange(6, s.len() as int))
    } else {
        seq![s[0]] + strip_basic(s.subrange(1, s.len() as int))
    }
}

/// The user name of decoded credentials: the text before the first `:`.
pub open spec fn user_field(s: Seq<char>) -> Seq<char> {
    match find(s, seq![':']) {
        Some(i) => s.subrange(0, i as int),
        None => s,
    }
}

/// The password of decoded credentials or of a credential line: the text
/// after the first `:` up to the next `:`, or nothing without a `:`.
pub open spec fn password_field(s: Seq<char>) -> Seq<char> {
    match find(s, seq![':']) {
        Some(i) => user_field(s.subrange(i as int + 1, s.len() as int)),
        None => seq![],
    }
}

/// A line without its trailing carriage return.
pub open spec fn strip_cr(l: Seq<char>) -> Seq<char> {
    if l.len() > 0 && l.last() == '\r' {
        l.drop_last()
    } else {
        l
    }
}

/// The check of `user` and `pass` against the lines of `text`: the first line
/// whose user field (the text before its first `:`) is exactly `user`
/// decides by its password field.
pub open spec fn check_lines(text: Seq<char>, user: Seq<char>, pass: Seq<char>) -> Result<
    (),
    AuthError,
>
    decreases text.len(),
{
    if text.len() == 0 {
        Err(AuthError::UserNotFound)
    } else {
        let k = match find(text, seq!['\n']) {
            Some(k) => k as int,
            None => text.len() as int,
        };
        let line = strip_cr(text.subrange(0, k));
        if user_field(line) == user {
            if password_field(line) == pass {
                Ok(())
            } else {
                Err(AuthError::WrongPassword)
            }
        } else if k < text.len() {
            check_lines(text.subrange(k + 1, text.len() as int), user, pass)
        } else {
            Err(AuthError::UserNotFound)
        }
    }
}

/// The text before the first `:`.
fn user_field_of(s: &Vec<char>) -> (r: Vec<char>)
    ensures
        r@ == user_field(s@),
{
    let colon = vec![':'];
    proof {
        assert(colon@ =~= seq![':']);
    }
    match find_in(s, &colon) {
        Some(i) => slice_of(s, 0, i),
        None => slice_of(s, 0, s.len()),
    }
}

/// The text between the first and the second `:`.
fn password_field_of(s: &Vec<char>) -> (r: Vec<char>)
    ensures
        r@ == password_field(s@),
{
    let colon = vec![':'];
    proof {
        assert(colon@ =~= seq![':']);
    }
    match find_in(s, &colon) {
        Some(i) => {
            let n = s.len();
            proof {
                assert(i + 1 <= s@.len());
            }
            user_field_of(&slice_of(s, i + 1, n))
        },
        None => Vec::new(),
    }
}

/// Checks `user` and `pass` against a credential list.
pub fn check_credentials(users: &str, user: &str, pass: &str) -> (r: Result<(), AuthError>)
    ensures
        r == check_lines(users@, user@, pass@),
{
    let text = chars_of(users);
    let n = text.len();
    let u = chars_of(user);
    let p = chars_of(pass);
    let newline = vec!['\n'];
    let mut start: usize = 0;
    proof {
        assert(newline@ =~= seq!['\n']);
        assert(text@.subrange(0, n as int) =~= text@);
    }
    while start < n
        invariant
            n == text@.len(),
            text@ == users@,
            u@ == user@,
            p@ == pass@,
            newline@ == seq!['\n'],
            start <= n,
            check_lines(users@, user@, pass@) == check_lines(
                text@.subrange(start as int, n as int),
                user@,
                pass@,
            ),
        decreases n - start,
    {
        let rest = slice_of(&text, start, n);
        let k = match find_in(&rest, &newline) {
            Some(k) => k,
            None => rest.len(),
        };
        let raw = slice_of(&rest, 0, k);
        let line = if k > 0 && raw[k - 1] == '\r' {
            slice_of(&raw, 0, k - 1)
        } else {
            raw
        };
        proof {
            if raw@.len() > 0 && raw@.last() == '\r' {
                assert(raw@.drop_last() =~= line@);
            }
        }
        if crate::http::same_chars(&user_field_of(&line), &u) {
            if crate::http::same_chars(&password_field_of(&line), &p) {
                return Ok(());
            } else {
                return Err(AuthError::WrongPassword);
            }
        }
        if k == rest.len() {
            return Err(AuthError::UserNotFound);
        }
        proof {
            assert(rest@.subrange(k + 1, rest@.len() as int) =~= text@.subrange(
                start + k + 1,
                n as int,
            ));
        }
        start = start + k + 1;
    }
    proof {
        assert(text@.subrange(start as int, n as int).len() == 0);
    }
    Err(AuthError::UserNotFound)
}

/// `s` with every `Basic ` removed.
fn strip_basic_of(s: &Vec<char>) -> (r: Vec<char>)
    ensures
        r@ == strip_basic(s@),
{
    let n = s.len();
    let mut r: Vec<char> = Vec::new();
    let mut i: usize = 0;
    proof {
        assert(s@.subrange(0, n as int) =~= s@);
    }
    while i < n
        invariant
            n == s@.len(),
            i <= n,
            r@ + strip_basic(s@.subrange(i as int, n as int)) == strip_basic(s@),
        decreases n - i,
    {
        let ghost rest = s@.subrange(i as int, n as int);
        if n - i >= 6 && s[i] == 'B' && s[i + 1] == 'a' && s[i + 2] == 's' && s[i + 3] == 'i'
            && s[i + 4] == 'c' && s[i + 5] == ' ' {
            proof {
                assert(rest.subrange(0, 6) =~= basic_prefix());
                assert(rest.subrange(6, rest.len() as int) =~= s@.subrange(i + 6, n as int));
            }
            i = i + 6;
        } else {
            proof {
                if rest.len() >= 6 && rest.subrange(0, 6) == basic_prefix() {
                    assert(rest.subrange(0, 6)[5] == ' ');
                    assert(rest.subrange(0, 6)[4] == 'c');
                    assert(rest.subrange(0, 6)[3] == 'i');
                    assert(rest.subrange(0, 6)[2] == 's');
                    assert(rest.subrange(0, 6)[1] == 'a');
                    assert(rest.subrange(0, 6)[0] == 'B');
                }
                assert(rest.subrange(1, rest.len() as int) =~= s@.subrange(i + 1, n as int));
            }
            r.push(s[i]);
            proof {
                assert(r@ + strip_basic(s@.subrange(i + 1, n as int)) =~= strip_basic(s@));
            }
            i = i + 1;
        }
    }
    proof {
        assert(s@.subrange(n as int, n as int) =~= Seq::<char>::empty());
        assert(r@ =~= strip_basic(s@));
    }
    r
}

/// What the parse of credentials gives: the user name and password, or the
/// reason there are none.
pub open spec fn parse_spec(cred: Seq<char>) -> Result<(Seq<char>, Seq<char>), AuthError> {
    if cred.len() == 0 {
        Err(AuthError::MissingCredentials)
    } else {
        match base64_decoded(encode_utf8(cred)) {
            None => Err(AuthError::Malformed),
            Some(d) => if !valid_utf8(d) {
                Err(AuthError::NotUtf8)
            } else {
                Ok((user_field(decode_utf8(d)), password_field(decode_utf8(d))))
            },
        }
    }
}

/// A check of the credentials of one request.
pub trait Auth {
    fn authorize(&mut self) -> Result<(), String>;
}

/// Basic authentication for one request, against a credential list.
#[derive(Debug)]
pub struct BasicAuth {
    credentials_str: String,
    username: String,
    password: String,
    users: String,
}

impl BasicAuth {
    pub closed spec fn credentials(&self) -> Seq<char> {
        self.credentials_str@
    }

    pub closed spec fn username(&self) -> Seq<char> {
        self.username@
    }

    pub closed spec fn password(&self) -> Seq<char> {
        self.password@
    }

    pub closed spec fn users(&self) -> Seq<char> {
        self.users@
    }

    /// Takes the `Authorization` header's value; `Basic ` is dropped from it.
    /// The credential list starts empty.
    pub fn new(str: &str) -> (r: BasicAuth)
        ensures
            r.credentials() == strip_basic(str@),
            r.users().len() == 0,
    {
        BasicAuth {
            credentials_str: string_of(&strip_basic_of(&chars_of(str))),
            username: String::new(),
            password: String::new(),
            users: String::new(),
        }
    }

    /// Sets the `user:password` lines to check against.
    pub fn set_users(&mut self, users: &str)
        ensures
            final(self).users() == users@,
            final(self).credentials() == old(self).credentials(),
    {
        self.users = users.to_owned();
    }

    /// Decodes the credentials into a user name and a password.
    pub fn parse(&mut self) -> (r: Result<(), AuthError>)
        ensures
            final(self).credentials() == old(self).credentials(),
            final(self).users() == old(self).users(),
            match parse_spec(old(self).credentials()) {
                Ok((u, p)) => r is Ok && final(self).username() == u && final(self).password() == p,
                Err(e) => r == Err::<(), AuthError>(e),
            },
    {
        if self.credentials_str.as_str().is_empty() {
            return Err(AuthError::MissingCredentials);
        }
        let input = bytes_of(self.credentials_str.as_str());
        let decoded = match decode_base64(input.as_slice()) {
            Some(d) => d,
            None => {
                return Err(AuthError::Malformed);
            },
        };
        let text = match utf8_string(decoded) {
            Some(t) => t,
            None => {
                return Err(AuthError::NotUtf8);
            },
        };
        let cs = chars_of(text.as_str());
        self.username = string_of(&user_field_of(&cs));
        self.password = string_of(&password_field_of(&cs));
        Ok(())
    }

    /// Decodes the credentials and checks them against the credential list.
    pub fn check(&mut self) -> (r: Result<(), AuthError>)
        ensures
            match parse_spec(old(self).credentials()) {
                Ok((u, p)) => r == check_lines(old(self).users(), u, p),
                Err(e) => r == Err::<(), AuthError>(e),
            },
    {
        match self.parse() {
            Ok(()) => {},
            Err(e) => {
                return Err(e);
            },
        }
        check_credentials(self.users.as_str(), self.username.as_str(), self.password.as_str())
    }
}

impl Auth for BasicAuth {
    fn authorize(&mut self) -> Result<(), String> {
        match self.check() {
            Ok(()) => Ok(()),
            Err(e) => Err(e.message()),
        }
    }
}

} // verus!
