//! Server configuration and basic authentication.
use vstd::prelude::*;

use crate::http::same_chars;
use crate::text::{chars_of, find, find_in, lower_of, slice_of, string_of, to_lower, trim, trim_of};

verus! {

/// Size ceilings of the reader; zero means unlimited.
#[derive(Debug, Clone, Copy, PartialEq, Eq, Structural)]
pub struct ServerLimits {
    /// Most bytes held in memory by one read without a spill target.
    pub buf_string_limit: usize,
    /// Bytes held in memory before they are flushed to the spill target.
    pub file_buf_size_limit: usize,
    /// Most bytes written to one spill target.
    pub file_size_limit: usize,
}

/// How requests are authenticated.
#[derive(Debug, Clone, Copy, PartialEq, Eq, Structural)]
pub enum AuthScheme {
    Basic,
    NoAuth,
}

impl AuthScheme {
    /// Reads a scheme name, in any case: `basic` or `none`; any other name is
    /// returned as the error.
    pub fn try_from(value: &str) -> (r: Result<AuthScheme, String>)
        ensures
            lower_of(value@) == seq!['b', 'a', 's', 'i', 'c'] ==> r == Ok::<AuthScheme, String>(
                AuthScheme::Basic,
            ),
            lower_of(value@) == seq!['n', 'o', 'n', 'e'] ==> r == Ok::<AuthScheme, String>(
                AuthScheme::NoAuth,
            ),
            lower_of(value@) != seq!['b', 'a', 's', 'i', 'c'] && lower_of(value@) != seq![
                'n',
                'o',
                'n',
                'e',
            ] ==> (r matches Err(name) && name@ == lower_of(value@)),
    {
        let lowered = to_lower(value);
        let cs = chars_of(lowered.as_str());
        if same_chars(&cs, &vec!['b', 'a', 's', 'i', 'c']) {
            Ok(AuthScheme::Basic)
        } else if same_chars(&cs, &vec!['n', 'o', 'n', 'e']) {
            Ok(AuthScheme::NoAuth)
        } else {
            Err(lowered)
        }
    }
}

/// The configuration read at startup.
#[derive(Debug, Clone, Copy, PartialEq, Eq, Structural)]
pub struct ServerConfig {
    pub auth_scheme: AuthScheme,
    pub thread_count: usize,
    pub port: usize,
    pub limits: ServerLimits,
}

impl ServerConfig {
    /// No authentication, one thread, port 8080, no limits.
    pub fn new() -> (r: ServerConfig)
        ensures
            r == ServerConfig::new_spec(),
    {
        ServerConfig {
            auth_scheme: AuthScheme::NoAuth,
            thread_count: 1,
            port: 8080,
            limits: ServerLimits { buf_string_limit: 0, file_buf_size_limit: 0, file_size_limit: 0 },
        }
    }

    pub fn auth_scheme(&self) -> (r: &AuthScheme)
        ensures
            *r == self.auth_scheme,
    {
        &self.auth_scheme
    }

    pub fn limits(&self) -> (r: &ServerLimits)
        ensures
            *r == self.limits,
    {
        &self.limits
    }
}

/// Why a configuration line was refused, with its line number.
#[derive(Debug, Clone, Copy, PartialEq, Eq, Structural)]
pub enum ConfigError {
    /// Nothing stands before the `=`.
    EmptyName(usize),
    /// The line has no `=`.
    NoValue(usize),
    /// Nothing stands after the `=`.
    EmptyValue(usize),
    /// The authentication scheme is unknown.
    UnknownScheme(usize),
    /// A number is malformed or too large.
    BadNumber(usize),
    /// A size does not end in `k`, `m` or `g`.
    BadSuffix(usize),
    /// The parameter name is unknown.
    UnknownName(usize),
}

pub open spec fn digit_value(c: char) -> nat {
    (c as nat - '0' as nat) as nat
}

pub open spec fn is_digit(c: char) -> bool {
    '0' <= c <= '9'
}

/// The number that a nonempty string of decimal digits writes.
pub open spec fn digits_value(s: Seq<char>) -> Option<nat>
    decreases s.len(),
{
    if s.len() == 0 || !is_digit(s.last()) {
        None
    } else if s.len() == 1 {
        Some(digit_value(s.last()))
    } else {
        match digits_value(s.drop_last()) {
            Some(v) => Some(v * 10 + digit_value(s.last())),
            None => None,
        }
    }
}

/// A number that fits in `usize`, from its decimal digits.
pub open spec fn number_spec(s: Seq<char>) -> Option<usize> {
    match digits_value(s) {
        Some(v) => if v <= usize::MAX {
            Some(v as usize)
        } else {
            None
        },
        None => None,
    }
}

/// Reads a decimal number; `None` for anything but digits, or a number
/// beyond `usize`.
pub fn parse_number(s: &Vec<char>) -> (r: Option<usize>)
    ensures
        r == number_spec(s@),
{
    let n = s.len();
    if n == 0 {
        return None;
    }
    let mut v: usize = 0;
    let mut i: usize = 0;
    let mut fits = true;
    while i < n
        invariant
            n == s@.len(),
            0 < n,
            i <= n,
            fits ==> i > 0 ==> digits_value(s@.subrange(0, i as int)) == Some(v as nat),
            i == 0 ==> v == 0,
            !fits ==> (digits_value(s@) is None || digits_value(s@).unwrap() > usize::MAX),
            !fits ==> i == n,
        decreases n - i,
    {
        let c = s[i];
        let ghost p = s@.subrange(0, i as int + 1);
        proof {
            assert(p.drop_last() =~= s@.subrange(0, i as int));
            assert(p.last() == c);
        }
        if !('0' <= c && c <= '9') {
            proof {
                lemma_prefix_none(s@, i as int + 1);
            }
            fits = false;
            i = n;
        } else {
            let d = (c as u32 - '0' as u32) as usize;
            proof {
                assert(d as nat == digit_value(c));
                assert(digits_value(p) == Some((v * 10 + d) as nat)) by {
                    if i == 0 {
                        assert(p.len() == 1);
                    } else {
                        assert(digits_value(p.drop_last()) == Some(v as nat));
                    }
                }
            }
            if v > (usize::MAX - d) / 10 {
                proof {
                    assert(v * 10 + d > usize::MAX) by (nonlinear_arith)
                        requires v > (usize::MAX - d) / 10, d <= 9;
                    lemma_prefix_grows(s@, i as int + 1);
                }
                fits = false;
                i = n;
            } else {
                proof {
                    assert(v * 10 + d <= usize::MAX) by (nonlinear_arith)
                        requires v <= (usize::MAX - d) / 10, d <= 9;
                }
                v = v * 10 + d;
                i = i + 1;
            }
        }
    }
    if !fits {
        return None;
    }
    proof {
        assert(s@.subrange(0, n as int) =~= s@);
    }
    Some(v)
}

/// A prefix that is not all digits spoils the whole string.
proof fn lemma_prefix_none(s: Seq<char>, k: int)
    requires
        0 < k <= s.len(),
        digits_value(s.subrange(0, k)) is None,
    ensures
        digits_value(s) is None,
    decreases s.len() - k,
{
    if k < s.len() {
        let p = s.subrange(0, k + 1);
        assert(p.drop_last() =~= s.subrange(0, k));
        lemma_prefix_none(s, k + 1);
    } else {
        assert(s.subrange(0, k) =~= s);
    }
}

/// Extending a string of digits never makes its number smaller.
proof fn lemma_prefix_grows(s: Seq<char>, k: int)
    requires
        0 < k <= s.len(),
        digits_value(s.subrange(0, k)) is Some,
    ensures
        digits_value(s) is None || digits_value(s).unwrap() >= digits_value(s.subrange(0, k)).unwrap(),
    decreases s.len() - k,
{
    if k < s.len() {
        let p = s.subrange(0, k + 1);
        assert(p.drop_last() =~= s.subrange(0, k));
        if digits_value(p) is Some {
            lemma_prefix_grows(s, k + 1);
        } else {
            lemma_prefix_none(s, k + 1);
        }
    } else {
        assert(s.subrange(0, k) =~= s);
    }
}

/// The multiplier that a size suffix names.
pub open spec fn suffix_multiplier(c: char) -> Option<nat> {
    if c == 'k' {
        Some(1024)
    } else if c == 'm' {
        Some(1024 * 1024)
    } else if c == 'g' {
        Some(1024 * 1024 * 1024)
    } else {
        None
    }
}

/// A size such as `10m`: a number and a suffix `k`, `m` or `g`, in bytes.
pub open spec fn size_spec(value: Seq<char>, line: usize) -> Result<usize, ConfigError> {
    match suffix_multiplier(value.last()) {
        None => Err(ConfigError::BadSuffix(line)),
        Some(m) => match number_spec(value.drop_last()) {
            None => Err(ConfigError::BadNumber(line)),
            Some(n) => if n * m <= usize::MAX {
                Ok((n * m) as usize)
            } else {
                Err(ConfigError::BadNumber(line))
            },
        },
    }
}

/// Reads a size such as `10m` into bytes.
pub fn size_str_to_bytes_number(value: &Vec<char>, line: usize) -> (r: Result<usize, ConfigError>)
    requires
        value@.len() > 0,
    ensures
        r == size_spec(value@, line),
{
    let last = value[value.len() - 1];
    let m: usize = if last == 'k' {
        1024
    } else if last == 'm' {
        1024 * 1024
    } else if last == 'g' {
        1024 * 1024 * 1024
    } else {
        return Err(ConfigError::BadSuffix(line));
    };
    let digits = slice_of(value, 0, value.len() - 1);
    proof {
        assert(digits@ =~= value@.drop_last());
    }
    match parse_number(&digits) {
        None => Err(ConfigError::BadNumber(line)),
        Some(n) => {
            if n > usize::MAX / m {
                proof {
                    assert(n * m > usize::MAX) by (nonlinear_arith)
                        requires n > usize::MAX / m, m > 0;
                }
                Err(ConfigError::BadNumber(line))
            } else {
                proof {
                    assert(n * m <= usize::MAX) by (nonlinear_arith)
                        requires n <= usize::MAX / m, m > 0;
                }
                Ok(n * m)
            }
        },
    }
}

/// The text before the first `=`, or all of `s`.
pub open spec fn before_eq(s: Seq<char>) -> Seq<char> {
    match find(s, seq!['=']) {
        Some(i) => s.subrange(0, i as int),
        None => s,
    }
}

/// The text after the first `=` up to the next `=`; `None` without `=`.
pub open spec fn after_eq(s: Seq<char>) -> Option<Seq<char>> {
    match find(s, seq!['=']) {
        Some(i) => Some(before_eq(s.subrange(i as int + 1, s.len() as int))),
        None => None,
    }
}

/// True when `s` opens with `//`.
pub open spec fn is_comment(s: Seq<char>) -> bool {
    s.len() > 1 && s[0] == '/' && s[1] == '/'
}

/// The effect of one setting `name = value` on line `line`.
pub open spec fn setting_spec(c: ServerConfig, name: Seq<char>, value: Seq<char>, line: usize) -> Result<
    ServerConfig,
    ConfigError,
> {
    if name == "auth"@ {
        if value == "basic"@ {
            Ok(ServerConfig { auth_scheme: AuthScheme::Basic, ..c })
        } else if value == "none"@ {
            Ok(ServerConfig { auth_scheme: AuthScheme::NoAuth, ..c })
        } else {
            Err(ConfigError::UnknownScheme(line))
        }
    } else if name == "threads"@ {
        match number_spec(value) {
            Some(n) => Ok(ServerConfig { thread_count: n, ..c }),
            None => Err(ConfigError::BadNumber(line)),
        }
    } else if name == "port"@ {
        match number_spec(value) {
            Some(n) => Ok(ServerConfig { port: n, ..c }),
            None => Err(ConfigError::BadNumber(line)),
        }
    } else if name == "buf_string_limit"@ {
        match size_spec(value, line) {
            Ok(n) => Ok(ServerConfig { limits: ServerLimits { buf_string_limit: n, ..c.limits }, ..c }),
            Err(e) => Err(e),
        }
    } else if name == "file_buf_size_limit"@ {
        match size_spec(value, line) {
            Ok(n) => Ok(
                ServerConfig { limits: ServerLimits { file_buf_size_limit: n, ..c.limits }, ..c },
            ),
            Err(e) => Err(e),
        }
    } else if name == "file_size_limit"@ {
        match size_spec(value, line) {
            Ok(n) => Ok(ServerConfig { limits: ServerLimits { file_size_limit: n, ..c.limits }, ..c }),
            Err(e) => Err(e),
        }
    } else {
        Err(ConfigError::UnknownName(line))
    }
}

/// The effect of one trimmed configuration line: empty lines and `//`
/// comments change nothing; others are `name = value`, both trimmed and
/// lowercased and neither empty.
pub open spec fn line_spec(c: ServerConfig, l: Seq<char>, line: usize) -> Result<ServerConfig, ConfigError> {
    if l.len() == 0 || is_comment(l) {
        Ok(c)
    } else {
        let name = lower_of(trim_of(before_eq(l)));
        if name.len() == 0 {
            Err(ConfigError::EmptyName(line))
        } else {
            match after_eq(l) {
                None => Err(ConfigError::NoValue(line)),
                Some(v) => {
                    let value = lower_of(trim_of(v));
                    if value.len() == 0 {
                        Err(ConfigError::EmptyValue(line))
                    } else {
                        setting_spec(c, name, value, line)
                    }
                },
            }
        }
    }
}

/// The configuration that the lines of `text` give, starting from `c`, the
/// first of them being line `no + 1`; lines end at `\n`, and a trailing
/// `\r` is dropped with the rest of the surrounding whitespace.
pub open spec fn config_spec(text: Seq<char>, c: ServerConfig, no: nat) -> Result<ServerConfig, ConfigError>
    decreases text.len(),
{
    if text.len() == 0 {
        Ok(c)
    } else {
        let k = match find(text, seq!['\n']) {
            Some(k) => k as int,
            None => text.len() as int,
        };
        let line = (no + 1) as usize;
        match line_spec(c, trim_of(text.subrange(0, k)), line) {
            Err(e) => Err(e),
            Ok(c2) => if k < text.len() {
                config_spec(text.subrange(k + 1, text.len() as int), c2, no + 1)
            } else {
                Ok(c2)
            },
        }
    }
}

fn before_eq_of(s: &Vec<char>) -> (r: Vec<char>)
    ensures
        r@ == before_eq(s@),
{
    let eq = vec!['='];
    proof {
        assert(eq@ =~= seq!['=']);
    }
    match find_in(s, &eq) {
        Some(i) => slice_of(s, 0, i),
        None => slice_of(s, 0, s.len()),
    }
}

fn after_eq_of(s: &Vec<char>) -> (r: Option<Vec<char>>)
    ensures
        match (r, after_eq(s@)) {
            (Some(a), Some(b)) => a@ == b,
            (None, None) => true,
            _ => false,
        },
{
    let eq = vec!['='];
    proof {
        assert(eq@ =~= seq!['=']);
    }
    match find_in(s, &eq) {
        Some(i) => {
            let n = s.len();
            proof {
                assert(i + 1 <= s@.len());
            }
            Some(before_eq_of(&slice_of(s, i + 1, n)))
        },
        None => None,
    }
}

/// Trimmed and lowercased.
fn normalize(s: &Vec<char>) -> (r: Vec<char>)
    ensures
        r@ == lower_of(trim_of(s@)),
{
    let t = trim(string_of(s).as_str());
    chars_of(to_lower(t.as_str()).as_str())
}

fn is_word(s: &Vec<char>, w: &str) -> (r: bool)
    ensures
        r == (s@ == w@),
{
    same_chars(s, &chars_of(w))
}

impl ServerConfig {
    /// Applies one setting.
    fn apply_setting(self, name: &Vec<char>, value: &Vec<char>, line: usize) -> (r: Result<ServerConfig, ConfigError>)
        requires
            value@.len() > 0,
        ensures
            r == setting_spec(self, name@, value@, line),
    {
        let mut c = self;
        if is_word(name, "auth") {
            if is_word(value, "basic") {
                c.auth_scheme = AuthScheme::Basic;
            } else if is_word(value, "none") {
                c.auth_scheme = AuthScheme::NoAuth;
            } else {
                return Err(ConfigError::UnknownScheme(line));
            }
        } else if is_word(name, "threads") {
            match parse_number(value) {
                Some(n) => {
                    c.thread_count = n;
                },
                None => {
                    return Err(ConfigError::BadNumber(line));
                },
            }
        } else if is_word(name, "port") {
            match parse_number(value) {
                Some(n) => {
                    c.port = n;
                },
                None => {
                    return Err(ConfigError::BadNumber(line));
                },
            }
        } else if is_word(name, "buf_string_limit") {
            c.limits.buf_string_limit = match size_str_to_bytes_number(value, line) {
                Ok(n) => n,
                Err(e) => {
                    return Err(e);
                },
            };
        } else if is_word(name, "file_buf_size_limit") {
            c.limits.file_buf_size_limit = match size_str_to_bytes_number(value, line) {
                Ok(n) => n,
                Err(e) => {
                    return Err(e);
                },
            };
        } else if is_word(name, "file_size_limit") {
            c.limits.file_size_limit = match size_str_to_bytes_number(value, line) {
                Ok(n) => n,
                Err(e) => {
                    return Err(e);
                },
            };
        } else {
            return Err(ConfigError::UnknownName(line));
        }
        Ok(c)
    }

    /// Applies one trimmed line.
    fn apply_line(self, l: &Vec<char>, line: usize) -> (r: Result<ServerConfig, ConfigError>)
        ensures
            r == line_spec(self, l@, line),
    {
        if l.len() == 0 || (l.len() > 1 && l[0] == '/' && l[1] == '/') {
            return Ok(self);
        }
        let name = normalize(&before_eq_of(l));
        if name.len() == 0 {
            return Err(ConfigError::EmptyName(line));
        }
        match after_eq_of(l) {
            None => Err(ConfigError::NoValue(line)),
            Some(v) => {
                let value = normalize(&v);
                if value.len() == 0 {
                    return Err(ConfigError::EmptyValue(line));
                }
                self.apply_setting(&name, &value, line)
            },
        }
    }

    /// Reads the settings of a configuration file over the defaults of `new`:
    /// `name = value` lines, `//` comments and empty lines.
    pub fn from_config_text(text: &str) -> (r: Result<ServerConfig, ConfigError>)
        ensures
            r == config_spec(text@, ServerConfig::new_spec(), 0),
    {
        let t = chars_of(text);
        let n = t.len();
        let newline = vec!['\n'];
        let mut c = ServerConfig::new();
        let mut start: usize = 0;
        let mut no: usize = 0;
        proof {
            assert(newline@ =~= seq!['\n']);
            assert(t@.subrange(0, n as int) =~= t@);
        }
        while start < n
            invariant
                n == t@.len(),
                t@ == text@,
                newline@ == seq!['\n'],
                start <= n,
                no <= start,
                config_spec(text@, ServerConfig::new_spec(), 0) == config_spec(
                    t@.subrange(start as int, n as int),
                    c,
                    no as nat,
                ),
            decreases n - start,
        {
            let rest = slice_of(&t, start, n);
            let k = match find_in(&rest, &newline) {
                Some(k) => k,
                None => rest.len(),
            };
            let line = normalize_trim(&slice_of(&rest, 0, k));
            no = no + 1;
            c = match c.apply_line(&line, no) {
                Ok(c2) => c2,
                Err(e) => {
                    return Err(e);
                },
            };
            if k == rest.len() {
                return Ok(c);
            }
            proof {
                assert(rest@.subrange(k + 1, rest@.len() as int) =~= t@.subrange(
                    start + k + 1,
                    n as int,
                ));
            }
            start = start + k + 1;
        }
        proof {
            assert(t@.subrange(start as int, n as int).len() == 0);
        }
        Ok(c)
    }

    pub open spec fn new_spec() -> ServerConfig {
        ServerConfig {
            auth_scheme: AuthScheme::NoAuth,
            thread_count: 1,
            port: 8080,
            limits: ServerLimits { buf_string_limit: 0, file_buf_size_limit: 0, file_size_limit: 0 },
        }
    }
}

/// Trimmed.
fn normalize_trim(s: &Vec<char>) -> (r: Vec<char>)
    ensures
        r@ == trim_of(s@),
{
    chars_of(trim(string_of(s).as_str()).as_str())
}

} // verus!
