//! Normalization of raw URLs into canonical host keys.
//!
//! A raw URL is accepted when it starts with `http://` or `https://` and its
//! host part (everything after the scheme up to the first `/`, `?` or `#`)
//! is a dot-separated sequence of at least two non-empty labels over the
//! characters `a-z`, `A-Z`, `0-9`, `_` and `-`. The key is the host,
//! lowercased, with one leading `www.` label stripped. Stripping `www.` is a
//! fixed policy: it happens after lowercasing, exactly once, and what
//! remains must itself be a valid host (so `http://www.com` is rejected).

use vstd::prelude::*;

use crate::UrlError;

verus! {

/// An ASCII uppercase letter.
pub open spec fn is_upper(c: char) -> bool {
    'A' as u32 <= c as u32 && c as u32 <= 'Z' as u32
}

/// The character, lowercased if it is an ASCII uppercase letter.
pub open spec fn lower_char(c: char) -> char {
    if is_upper(c) {
        ((c as u32) + 32) as char
    } else {
        c
    }
}

/// A character allowed inside a host label of a canonical key:
/// ASCII lowercase letters, digits, `_` and `-`.
pub open spec fn is_key_char(c: char) -> bool {
    ||| 'a' as u32 <= c as u32 && c as u32 <= 'z' as u32
    ||| '0' as u32 <= c as u32 && c as u32 <= '9' as u32
    ||| c == '_'
    ||| c == '-'
}

/// A character that ends the host part of a URL.
pub open spec fn is_host_delim(c: char) -> bool {
    c == '/' || c == '?' || c == '#'
}

/// The string starts with `http://`.
pub open spec fn has_http_scheme(s: Seq<char>) -> bool {
    s.len() >= 7 && s[0] == 'h' && s[1] == 't' && s[2] == 't' && s[3] == 'p' && s[4] == ':'
        && s[5] == '/' && s[6] == '/'
}

/// The string starts with `https://`.
pub open spec fn has_https_scheme(s: Seq<char>) -> bool {
    s.len() >= 8 && s[0] == 'h' && s[1] == 't' && s[2] == 't' && s[3] == 'p' && s[4] == 's'
        && s[5] == ':' && s[6] == '/' && s[7] == '/'
}

/// The string starts with one of the two accepted schemes.
pub open spec fn has_scheme(s: Seq<char>) -> bool {
    has_http_scheme(s) || has_https_scheme(s)
}

/// The index of the first character after the scheme (0 when there is none).
pub open spec fn scheme_end(s: Seq<char>) -> int {
    if has_https_scheme(s) {
        8
    } else if has_http_scheme(s) {
        7
    } else {
        0
    }
}

/// The index of the first host delimiter at or after `i`, or the end of the
/// string when there is none.
pub open spec fn host_end_from(s: Seq<char>, i: int) -> int
    decreases s.len() - i,
{
    if i >= s.len() {
        i
    } else if is_host_delim(s[i]) {
        i
    } else {
        host_end_from(s, i + 1)
    }
}

/// The host part of the URL: everything after the scheme up to the first
/// `/`, `?` or `#`.
pub open spec fn host_of(s: Seq<char>) -> Seq<char> {
    s.subrange(scheme_end(s), host_end_from(s, scheme_end(s)))
}

/// The host part, lowercased character by character.
pub open spec fn lowered_host(s: Seq<char>) -> Seq<char> {
    host_of(s).map_values(|c: char| lower_char(c))
}

/// The string starts with the four characters `www.`.
pub open spec fn starts_with_www(h: Seq<char>) -> bool {
    h.len() >= 4 && h[0] == 'w' && h[1] == 'w' && h[2] == 'w' && h[3] == '.'
}

/// The string with one leading `www.` removed, if it has one.
pub open spec fn strip_www(h: Seq<char>) -> Seq<char> {
    if starts_with_www(h) {
        h.subrange(4, h.len() as int)
    } else {
        h
    }
}

/// The canonical key of a raw URL: the lowercased host with one leading
/// `www.` stripped. Total; meaningful only when `valid_url` holds.
pub open spec fn normalized_key(s: Seq<char>) -> Seq<char> {
    strip_www(lowered_host(s))
}

/// A well-formed canonical key: non-empty, only label characters and dots,
/// no empty label (no leading, trailing or doubled dot), and at least two
/// labels (at least one dot).
pub open spec fn valid_key(k: Seq<char>) -> bool {
    &&& k.len() > 0
    &&& forall|i: int| 0 <= i < k.len() ==> is_key_char(#[trigger] k[i]) || k[i] == '.'
    &&& k[0] != '.'
    &&& k[k.len() - 1] != '.'
    &&& forall|i: int| 0 <= i < k.len() - 1 ==> !((#[trigger] k[i]) == '.' && k[i + 1] == '.')
    &&& exists|i: int| 0 <= i < k.len() && (#[trigger] k[i]) == '.'
}

/// A raw URL the normalizer accepts: an `http://` or `https://` scheme
/// followed by a host that normalizes to a well-formed key.
pub open spec fn valid_url(s: Seq<char>) -> bool {
    has_scheme(s) && valid_key(normalized_key(s))
}

/// Relies on `String::push` of std: it appends the character at the end.
pub assume_specification[ String::push ](s: &mut String, ch: char)
    ensures
        final(s)@ == old(s)@.push(ch),
;

fn lower_char_exec(c: char) -> (r: char)
    ensures
        r == lower_char(c),
{
    let u = c as u32;
    if 'A' as u32 <= u && u <= 'Z' as u32 {
        proof {
            vstd::utf8::char_u32_cast(c, u);
        }
        assert(65 <= u && u <= 90);
        assert(((u + 32) as u8) as u32 == u + 32) by (bit_vector)
            requires
                65 <= u && u <= 90,
        ;
        let b = (u + 32) as u8;
        b as char
    } else {
        c
    }
}

proof fn lemma_host_end_from_value(s: Seq<char>, i: int, m: int)
    requires
        0 <= i <= m <= s.len(),
        forall|j: int| i <= j < m ==> !is_host_delim(#[trigger] s[j]),
        m == s.len() || is_host_delim(s[m]),
    ensures
        host_end_from(s, i) == m,
    decreases m - i,
{
    if i < m {
        lemma_host_end_from_value(s, i + 1, m);
    }
}

/// Maps a raw URL to its canonical key, or rejects it.
///
/// Returns `Ok` exactly on the URLs `valid_url` accepts, and then the
/// returned key is `normalized_key` of the input: a pure function of the
/// argument, so equal inputs always give equal keys.
#[verifier::loop_isolation(false)]
pub fn normalize(raw: &str) -> (r: Result<String, UrlError>)
    ensures
        r is Ok <==> valid_url(raw@),
        r matches Ok(k) ==> k@ == normalized_key(raw@),
        r matches Err(e) ==> e == UrlError::InvalidUrl,
{
    let ghost s = raw@;
    let n = raw.unicode_len();
    if n < 7 {
        return Err(UrlError::InvalidUrl);
    }
    if !(raw.get_char(0) == 'h' && raw.get_char(1) == 't' && raw.get_char(2) == 't' && raw.get_char(
        3,
    ) == 'p') {
        return Err(UrlError::InvalidUrl);
    }
    let start: usize;
    if raw.get_char(4) == ':' {
        if raw.get_char(5) == '/' && raw.get_char(6) == '/' {
            start = 7;
        } else {
            return Err(UrlError::InvalidUrl);
        }
    } else if raw.get_char(4) == 's' {
        if n >= 8 && raw.get_char(5) == ':' && raw.get_char(6) == '/' && raw.get_char(7) == '/' {
            start = 8;
        } else {
            return Err(UrlError::InvalidUrl);
        }
    } else {
        return Err(UrlError::InvalidUrl);
    }
    assert(has_scheme(s) && scheme_end(s) == start);
    // Find the end of the host part.
    let mut end = start;
    while end < n && !is_host_delim_at(raw, end)
        invariant
            start <= end <= n,
            forall|j: int| start <= j < end ==> !is_host_delim(#[trigger] s[j]),
        decreases n - end,
    {
        end += 1;
    }
    proof {
        lemma_host_end_from_value(s, start as int, end as int);
    }
    // Build the lowercased host.
    let mut host = String::new();
    let mut i = start;
    while i < end
        invariant
            start <= i <= end,
            host@ == s.subrange(start as int, i as int).map_values(|c: char| lower_char(c)),
        decreases end - i,
    {
        let c = raw.get_char(i);
        host.push(lower_char_exec(c));
        proof {
            assert(s.subrange(start as int, i + 1).map_values(|c: char| lower_char(c)) =~= s
                .subrange(start as int, i as int).map_values(|c: char| lower_char(c)).push(
                lower_char(s[i as int]),
            ));
        }
        i += 1;
    }
    assert(host@ == lowered_host(s));
    // Strip one leading `www.` label.
    let host_len = host.as_str().unicode_len();
    let key: String;
    if host_len >= 4 && host.as_str().get_char(0) == 'w' && host.as_str().get_char(1) == 'w'
        && host.as_str().get_char(2) == 'w' && host.as_str().get_char(3) == '.' {
        key = String::from_str(host.as_str().substring_char(4, host_len));
    } else {
        key = host;
    }
    assert(key@ == normalized_key(s));
    // Check that the key is a well-formed host.
    let key_len = key.as_str().unicode_len();
    if key_len == 0 {
        return Err(UrlError::InvalidUrl);
    }
    let mut j: usize = 0;
    let mut has_dot = false;
    let mut prev_dot = false;
    while j < key_len
        invariant
            0 <= j <= key_len,
            forall|t: int| 0 <= t < j ==> is_key_char(#[trigger] key@[t]) || key@[t] == '.',
            has_dot <==> exists|t: int| 0 <= t < j && (#[trigger] key@[t]) == '.',
            forall|t: int| 0 <= t < j - 1 ==> !((#[trigger] key@[t]) == '.' && key@[t + 1] == '.'),
            j > 0 ==> key@[0] != '.',
            j > 0 ==> (prev_dot <==> key@[j - 1] == '.'),
        decreases key_len - j,
    {
        let c = key.as_str().get_char(j);
        let u = c as u32;
        let is_kc = ('a' as u32 <= u && u <= 'z' as u32) || ('0' as u32 <= u && u <= '9' as u32)
            || c == '_' || c == '-';
        if !is_kc && c != '.' {
            assert(!valid_key(key@));
            return Err(UrlError::InvalidUrl);
        }
        if c == '.' {
            if j == 0 {
                assert(!valid_key(key@));
                return Err(UrlError::InvalidUrl);
            }
            if prev_dot {
                assert(!valid_key(key@));
                return Err(UrlError::InvalidUrl);
            }
            has_dot = true;
            prev_dot = true;
        } else {
            prev_dot = false;
        }
        j += 1;
    }
    if prev_dot {
        assert(!valid_key(key@));
        return Err(UrlError::InvalidUrl);
    }
    if !has_dot {
        assert(!valid_key(key@));
        return Err(UrlError::InvalidUrl);
    }
    assert(valid_key(key@));
    Ok(key)
}

fn is_host_delim_at(raw: &str, i: usize) -> (r: bool)
    requires
        i < raw@.len(),
    ensures
        r == is_host_delim(raw@[i as int]),
{
    let c = raw.get_char(i);
    c == '/' || c == '?' || c == '#'
}

} // verus!
