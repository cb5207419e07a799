//! The code allocator and bidirectional mapping between canonical keys and
//! short codes.
//!
//! The store is modelled as the sequence of keys in allocation order: the
//! key with code `c` sits at position `c - 1`, so the sequence is at once
//! the forward map (key to code, by position), the reverse map (code to
//! key, by indexing) and the counter (the next code is the length plus
//! one). Keys are never removed and never reassigned.

use vstd::prelude::*;

use crate::UrlError;
use crate::normalize::{normalize, normalized_key, valid_url};

verus! {

/// No key occurs twice: each key owns at most one code.
pub open spec fn distinct_keys(keys: Seq<Seq<char>>) -> bool {
    forall|i: int, j: int| 0 <= i < j < keys.len() ==> keys[i] != keys[j]
}

/// What one `Shorten` call does to the key sequence: nothing when the key
/// is already present, otherwise the key is appended and gets the next code.
pub open spec fn shorten_step(keys: Seq<Seq<char>>, k: Seq<char>) -> Seq<Seq<char>> {
    if keys.contains(k) {
        keys
    } else {
        keys.push(k)
    }
}

/// The code of a key: one plus the position of its first occurrence
/// (`keys.len() + 1` when the key is absent).
pub open spec fn key_code(keys: Seq<Seq<char>>, k: Seq<char>) -> int
    decreases keys.len(),
{
    if keys.len() == 0 {
        1
    } else if keys[0] == k {
        1
    } else {
        1 + key_code(keys.drop_first(), k)
    }
}

/// What `Resolve` returns: the key at position `code - 1`, or nothing when
/// the code was never issued.
pub open spec fn resolve_key(keys: Seq<Seq<char>>, code: int) -> Option<Seq<char>> {
    if 1 <= code <= keys.len() {
        Some(keys[code - 1])
    } else {
        None
    }
}

/// A present key's code points back at that key.
pub proof fn lemma_key_code_present(keys: Seq<Seq<char>>, k: Seq<char>)
    requires
        keys.contains(k),
    ensures
        1 <= key_code(keys, k) <= keys.len(),
        keys[key_code(keys, k) - 1] == k,
    decreases keys.len(),
{
    if keys[0] != k {
        assert(keys.drop_first().contains(k)) by {
            let i = choose|i: int| 0 <= i < keys.len() && keys[i] == k;
            assert(keys.drop_first()[i - 1] == k);
        }
        lemma_key_code_present(keys.drop_first(), k);
    }
}

/// An absent key's code is one past the end.
pub proof fn lemma_key_code_absent(keys: Seq<Seq<char>>, k: Seq<char>)
    requires
        !keys.contains(k),
    ensures
        key_code(keys, k) == keys.len() + 1,
    decreases keys.len(),
{
    if keys.len() > 0 {
        assert(!keys.drop_first().contains(k)) by {
            if keys.drop_first().contains(k) {
                let i = choose|i: int| 0 <= i < keys.drop_first().len()
                    && keys.drop_first()[i] == k;
                assert(keys[i + 1] == k);
            }
        }
        lemma_key_code_absent(keys.drop_first(), k);
    }
}

/// With distinct keys, the position of a key determines its code.
pub proof fn lemma_key_code_at(keys: Seq<Seq<char>>, k: Seq<char>, i: int)
    requires
        distinct_keys(keys),
        0 <= i < keys.len(),
        keys[i] == k,
    ensures
        key_code(keys, k) == i + 1,
    decreases keys.len(),
{
    if i > 0 {
        assert(keys[0] != k);
        assert(distinct_keys(keys.drop_first())) by {
            assert(forall|p: int, q: int|
                0 <= p < q < keys.drop_first().len() ==> keys.drop_first()[p]
                    == keys[p + 1] && keys.drop_first()[q] == keys[q + 1]);
        }
        assert(keys.drop_first()[i - 1] == k);
        lemma_key_code_at(keys.drop_first(), k, i - 1);
    }
}

/// Appending a fresh key does not move the code of any key already present.
pub proof fn lemma_key_code_stable(keys: Seq<Seq<char>>, k: Seq<char>, x: Seq<char>)
    requires
        keys.contains(k),
    ensures
        key_code(keys.push(x), k) == key_code(keys, k),
    decreases keys.len(),
{
    if keys[0] != k {
        assert(keys.drop_first().contains(k)) by {
            let i = choose|i: int| 0 <= i < keys.len() && keys[i] == k;
            assert(keys.drop_first()[i - 1] == k);
        }
        assert(keys.push(x).drop_first() =~= keys.drop_first().push(x));
        lemma_key_code_stable(keys.drop_first(), k, x);
    }
}

/// One `shorten_step` keeps the keys distinct and leaves its key present.
pub proof fn lemma_shorten_step_distinct(keys: Seq<Seq<char>>, k: Seq<char>)
    requires
        distinct_keys(keys),
    ensures
        distinct_keys(shorten_step(keys, k)),
        shorten_step(keys, k).contains(k),
{
    if !keys.contains(k) {
        let keys1 = keys.push(k);
        assert(keys1[keys.len() as int] == k);
        assert forall|p: int, q: int| 0 <= p < q < keys1.len() implies keys1[p] != keys1[q] by {
            if q == keys.len() {
                assert(keys1[p] == keys[p]);
                if keys[p] == k {
                    assert(keys.contains(k));
                }
            }
        }
    }
}

/// The store: owns the key sequence behind `shorten` and `resolve`.
pub struct ShortenStore {
    keys: Vec<String>,
}

impl ShortenStore {
    /// The mathematical state: the keys in allocation order.
    pub closed spec fn view(&self) -> Seq<Seq<char>> {
        self.keys@.map_values(|k: String| k@)
    }

    /// The store's invariant: keys are distinct, so no code is ever shared
    /// and no key holds two codes.
    pub open spec fn wf(&self) -> bool {
        distinct_keys(self@)
    }

    /// The code the next fresh key will get; starts at 1.
    pub open spec fn spec_next_code(&self) -> int {
        self@.len() as int + 1
    }

    /// Creates an empty store: no keys, next code 1.
    pub fn new() -> (s: ShortenStore)
        ensures
            s.wf(),
            s@ == Seq::<Seq<char>>::empty(),
    {
        let s = ShortenStore { keys: Vec::new() };
        proof {
            assert(s@ =~= Seq::<Seq<char>>::empty());
        }
        s
    }

    /// The number of codes issued so far.
    pub fn code_count(&self) -> (n: usize)
        ensures
            n == self@.len(),
    {
        self.keys.len()
    }

    /// Maps a raw URL to its code, allocating one on first sight.
    ///
    /// Invalid URLs are rejected unchanged. For a valid URL the key
    /// sequence takes one `shorten_step`: an already-known key allocates
    /// nothing, a fresh key is appended; either way the returned code is
    /// `key_code` of the key, so every caller with the same key sees the
    /// same code.
    pub fn shorten(&mut self, raw: &str) -> (r: Result<u32, UrlError>)
        requires
            old(self).wf(),
            old(self)@.len() < u32::MAX,
        ensures
            final(self).wf(),
            r is Ok <==> valid_url(raw@),
            !valid_url(raw@) ==> r == Err::<u32, UrlError>(UrlError::InvalidUrl) && final(self)@
                == old(self)@,
            valid_url(raw@) ==> final(self)@ == shorten_step(
                old(self)@,
                normalized_key(raw@),
            ) && r == Ok::<u32, UrlError>(
                key_code(final(self)@, normalized_key(raw@)) as u32,
            ),
    {
        let key = match normalize(raw) {
            Ok(k) => k,
            Err(e) => {
                return Err(e);
            },
        };
        let n = self.keys.len();
        let mut i: usize = 0;
        while i < n
            invariant
                0 <= i <= n,
                n == self@.len(),
                self.wf(),
                self@.len() < u32::MAX,
                key@ == normalized_key(raw@),
                valid_url(raw@),
                forall|t: int| 0 <= t < i ==> self@[t] != key@,
            decreases n - i,
        {
            if self.keys[i] == key {
                proof {
                    lemma_key_code_at(self@, key@, i as int);
                    assert(self@[i as int] == key@);
                    assert(self@.contains(key@));
                    assert(shorten_step(self@, key@) == self@);
                }
                return Ok((i as u32) + 1);
            }
            i += 1;
        }
        proof {
            assert(!self@.contains(key@));
            lemma_key_code_absent(self@, key@);
        }
        let ghost old_view = self@;
        self.keys.push(key);
        proof {
            assert(self@ =~= old_view.push(normalized_key(raw@)));
            lemma_key_code_at(self@, normalized_key(raw@), old_view.len() as int);
            assert(distinct_keys(self@)) by {
                assert(forall|p: int| 0 <= p < old_view.len() ==> self@[p] == old_view[p]);
            }
        }
        Ok(self.keys.len() as u32)
    }

    /// Looks a code up: the key stored at that code, or `NotFound` for any
    /// code never issued.
    pub fn resolve(&self, code: u32) -> (r: Result<String, UrlError>)
        ensures
            r is Ok <==> resolve_key(self@, code as int) is Some,
            r matches Ok(k) ==> resolve_key(self@, code as int) == Some(k@),
            r matches Err(e) ==> e == UrlError::NotFound,
    {
        if code >= 1 && (code as usize) <= self.keys.len() {
            let k = &self.keys[(code as usize) - 1];
            Ok(k.clone())
        } else {
            Err(UrlError::NotFound)
        }
    }
}

} // verus!
