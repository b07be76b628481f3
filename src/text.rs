//! Text on the wire: lines as characters, searching, slicing, and the few
//! conversions that std performs for us.
use vstd::prelude::*;
use vstd::utf8::*;

verus! {

/// Position of the first occurrence of `pat` in `s`, if any.
pub open spec fn find<A>(s: Seq<A>, pat: Seq<A>) -> Option<nat>
    decreases s.len(),
{
    if s.len() < pat.len() {
        None
    } else if s.subrange(0, pat.len() as int) == pat {
        Some(0)
    } else if s.len() == 0 {
        None
    } else {
        match find(s.drop_first(), pat) {
            Some(i) => Some(i + 1),
            None => None,
        }
    }
}

/// True when `pat` stands in `s` at position `i`.
pub open spec fn at<A>(s: Seq<A>, i: int, pat: Seq<A>) -> bool {
    0 <= i && i + pat.len() <= s.len() && s.subrange(i, i + pat.len()) == pat
}

/// `find` in terms of positions: the first position where `pat` stands.
pub proof fn lemma_find<A>(s: Seq<A>, pat: Seq<A>, i: int)
    requires
        0 <= i,
        forall|j: int| 0 <= j < i ==> !at(s, j, pat),
    ensures
        at(s, i, pat) ==> find(s, pat) == Some(i as nat),
        i + pat.len() > s.len() ==> find(s, pat).is_none(),
    decreases s.len(),
{
    if s.len() < pat.len() {
    } else if s.subrange(0, pat.len() as int) == pat {
        if i > 0 {
            assert(at(s, 0, pat));
        }
    } else if s.len() == 0 {
    } else {
        assert(!at(s, 0, pat));
        if i > 0 {
            let t = s.drop_first();
            assert forall|j: int| 0 <= j < i - 1 implies !at(t, j, pat) by {
                if j + 1 + pat.len() <= s.len() {
                    assert(t.subrange(j, j + pat.len()) =~= s.subrange(j + 1, j + 1 + pat.len()));
                    assert(!at(s, j + 1, pat));
                }
            }
            lemma_find(t, pat, i - 1);
            if at(s, i, pat) {
                assert(t.subrange(i - 1, i - 1 + pat.len()) =~= s.subrange(i, i + pat.len()));
            }
        }
    }
}

/// Where `pat` first stands in `s`.
pub fn find_in(s: &Vec<char>, pat: &Vec<char>) -> (r: Option<usize>)
    ensures
        r matches Some(i) ==> find(s@, pat@) == Some(i as nat) && at(s@, i as int, pat@),
        r is None ==> find(s@, pat@).is_none(),
{
    let n = s.len();
    let m = pat.len();
    if m > n {
        proof {
            lemma_find(s@, pat@, 0);
        }
        return None;
    }
    if m == 0 {
        proof {
            assert(s@.subrange(0, 0) =~= pat@);
        }
        return Some(0);
    }
    let mut i: usize = 0;
    while i <= n - m
        invariant
            n == s@.len(),
            m == pat@.len(),
            0 < m <= n,
            forall|j: int| 0 <= j < i ==> !at(s@, j, pat@),
        decreases n - m + 1 - i,
    {
        let mut k: usize = 0;
        let mut same = true;
        while k < m
            invariant
                i + m <= n,
                n == s@.len(),
                m == pat@.len(),
                k <= m,
                same ==> forall|j: int| 0 <= j < k ==> s@[i + j] == pat@[j],
                !same ==> !at(s@, i as int, pat@),
            decreases m - k,
        {
            if same && s[i + k] != pat[k] {
                proof {
                    if at(s@, i as int, pat@) {
                        assert(s@.subrange(i as int, i + m)[k as int] == pat@[k as int]);
                    }
                }
                same = false;
            }
            k = k + 1;
        }
        if same {
            proof {
                assert(s@.subrange(i as int, i + m) =~= pat@);
                lemma_find(s@, pat@, i as int);
            }
            return Some(i);
        }
        i = i + 1;
    }
    proof {
        lemma_find(s@, pat@, i as int);
    }
    None
}

/// The characters `s[lo..hi]`.
pub fn slice_of(s: &Vec<char>, lo: usize, hi: usize) -> (r: Vec<char>)
    requires
        lo <= hi <= s@.len(),
    ensures
        r@ == s@.subrange(lo as int, hi as int),
{
    let mut r: Vec<char> = Vec::new();
    let mut k: usize = lo;
    while k < hi
        invariant
            lo <= k <= hi <= s@.len(),
            r@ == s@.subrange(lo as int, k as int),
        decreases hi - k,
    {
        r.push(s[k]);
        k = k + 1;
        proof {
            assert(r@ =~= s@.subrange(lo as int, k as int));
        }
    }
    r
}

/// `a` followed by `b`.
pub fn concat(a: &Vec<char>, b: &Vec<char>) -> (r: Vec<char>)
    ensures
        r@ == a@ + b@,
{
    let mut r = slice_of(a, 0, a.len());
    let mut k: usize = 0;
    while k < b.len()
        invariant
            k <= b@.len(),
            r@ == a@ + b@.subrange(0, k as int),
        decreases b@.len() - k,
    {
        r.push(b[k]);
        k = k + 1;
        proof {
            assert(r@ =~= a@ + b@.subrange(0, k as int));
        }
    }
    proof {
        assert(b@.subrange(0, b@.len() as int) =~= b@);
    }
    r
}

/// Every occurrence of `%20` replaced by a space, scanning from the front.
pub open spec fn decode_spaces(s: Seq<char>) -> Seq<char>
    decreases s.len(),
{
    if s.len() == 0 {
        s
    } else if s.len() >= 3 && s[0] == '%' && s[1] == '2' && s[2] == '0' {
        seq![' '] + decode_spaces(s.subrange(3, s.len() as int))
    } else {
        seq![s[0]] + decode_spaces(s.subrange(1, s.len() as int))
    }
}

/// Replaces each `%20` in `s` by a space; no other escape is decoded.
pub fn decode_spaces_in(s: &Vec<char>) -> (r: Vec<char>)
    ensures
        r@ == decode_spaces(s@),
{
    let n = s.len();
    let mut r: Vec<char> = Vec::new();
    let mut i: usize = 0;
    proof {
        assert(s@.subrange(0, n as int) =~= s@);
    }
    while i < n
        invariant
            n == s@.len(),
            i <= n,
            r@ + decode_spaces(s@.subrange(i as int, n as int)) == decode_spaces(s@),
        decreases n - i,
    {
        let ghost rest = s@.subrange(i as int, n as int);
        if n - i >= 3 && s[i] == '%' && s[i + 1] == '2' && s[i + 2] == '0' {
            r.push(' ');
            proof {
                assert(rest.subrange(3, rest.len() as int) =~= s@.subrange(i + 3, n as int));
                assert(r@ + decode_spaces(s@.subrange(i + 3, n as int)) =~= decode_spaces(s@));
            }
            i = i + 3;
        } else {
            r.push(s[i]);
            proof {
                assert(rest.subrange(1, rest.len() as int) =~= s@.subrange(i + 1, n as int));
                assert(r@ + decode_spaces(s@.subrange(i + 1, n as int)) =~= decode_spaces(s@));
            }
            i = i + 1;
        }
    }
    proof {
        assert(s@.subrange(n as int, n as int) =~= Seq::<char>::empty());
        assert(r@ =~= decode_spaces(s@));
    }
    r
}

/// What `str::trim` returns for `s`.
pub uninterp spec fn trim_of(s: Seq<char>) -> Seq<char>;

/// What `str::to_lowercase` returns for `s`.
pub uninterp spec fn lower_of(s: Seq<char>) -> Seq<char>;

/// Relies on `str::trim`: whitespace removed at both ends, which depends on
/// the characters alone; nothing is left of an empty string.
#[verifier::external_body]
pub(crate) fn trim(s: &str) -> (r: String)
    ensures
        r@ == trim_of(s@),
        s@.len() == 0 ==> r@.len() == 0,
{
    s.trim().to_owned()
}

/// Relies on `str::to_lowercase`: the result depends on the characters alone.
#[verifier::external_body]
pub(crate) fn to_lower(s: &str) -> (r: String)
    ensures
        r@ == lower_of(s@),
        s@.len() == 0 ==> r@.len() == 0,
{
    s.to_lowercase()
}

/// Relies on `str::chars`: the characters of `s`, in order.
#[verifier::external_body]
pub(crate) fn chars_of(s: &str) -> (r: Vec<char>)
    ensures
        r@ == s@,
{
    s.chars().collect()
}

/// Relies on `String`'s `FromIterator<char>`: the string of these characters.
#[verifier::external_body]
pub(crate) fn string_of(cs: &Vec<char>) -> (r: String)
    ensures
        r@ == cs@,
{
    cs.iter().collect()
}

/// Relies on `String::from_utf8`: a string exactly when the bytes are valid
/// UTF-8, and then the characters that they encode.
#[verifier::external_body]
pub(crate) fn utf8_string(b: Vec<u8>) -> (r: Option<String>)
    ensures
        r.is_some() == valid_utf8(b@),
        r matches Some(s) ==> s@ == decode_utf8(b@),
{
    String::from_utf8(b).ok()
}

/// The UTF-8 encoding of `s`, as a vector.
pub fn bytes_of(s: &str) -> (r: Vec<u8>)
    ensures
        r@ == encode_utf8(s@),
{
    vstd::slice::slice_to_vec(s.as_bytes())
}

} // verus!
