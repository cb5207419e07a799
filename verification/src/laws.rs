//! The library's laws: properties relating normalization, `shorten` and
//! `resolve`, stated over the mathematical model that the executable
//! contracts speak of, and proved once for every state and input.

use vstd::prelude::*;

use crate::normalize::normalized_key;
use crate::store::{
    distinct_keys, key_code, lemma_key_code_present, lemma_key_code_stable,
    lemma_shorten_step_distinct, resolve_key, shorten_step,
};

verus! {

/// Determinism: the canonical key is a function of the raw URL alone, so
/// equal inputs normalize to equal keys on every call.
pub proof fn lemma_normalize_deterministic(u1: Seq<char>, u2: Seq<char>)
    requires
        u1 == u2,
    ensures
        normalized_key(u1) == normalized_key(u2),
{
}

/// Idempotence: shortening a key that is already mapped changes nothing
/// and yields the same code, so the counter never advances after the
/// first call with a given key.
pub proof fn lemma_shorten_idempotent(keys: Seq<Seq<char>>, k: Seq<char>)
    ensures
        shorten_step(shorten_step(keys, k), k) == shorten_step(keys, k),
        key_code(shorten_step(shorten_step(keys, k), k), k) == key_code(shorten_step(keys, k), k),
{
    if !keys.contains(k) {
        assert(keys.push(k)[keys.len() as int] == k);
        assert(keys.push(k).contains(k));
    }
}

/// Injectivity, statically: in a well-formed store two different keys
/// never share a code.
pub proof fn lemma_codes_injective(keys: Seq<Seq<char>>, k1: Seq<char>, k2: Seq<char>)
    requires
        distinct_keys(keys),
        keys.contains(k1),
        keys.contains(k2),
        k1 != k2,
    ensures
        key_code(keys, k1) != key_code(keys, k2),
{
    lemma_key_code_present(keys, k1);
    lemma_key_code_present(keys, k2);
}

/// Injectivity of `Shorten`: two calls in a row on URLs with different
/// keys return different codes, and the second call does not move the
/// first key's code.
pub proof fn lemma_shorten_injective(keys: Seq<Seq<char>>, k1: Seq<char>, k2: Seq<char>)
    requires
        distinct_keys(keys),
        k1 != k2,
    ensures
        ({
            let keys1 = shorten_step(keys, k1);
            let keys2 = shorten_step(keys1, k2);
            &&& key_code(keys2, k1) == key_code(keys1, k1)
            &&& key_code(keys2, k1) != key_code(keys2, k2)
        }),
{
    let keys1 = shorten_step(keys, k1);
    let keys2 = shorten_step(keys1, k2);
    lemma_shorten_step_distinct(keys, k1);
    lemma_shorten_step_distinct(keys1, k2);
    if keys1.contains(k2) {
        assert(keys2 == keys1);
    } else {
        lemma_key_code_stable(keys1, k1, k2);
        assert(keys2[keys1.len() as int] == k2);
        assert(keys2.contains(k2));
        assert forall|i: int| 0 <= i < keys1.len() implies keys2[i] == keys1[i] by {}
        assert(keys2[key_code(keys2, k1) - 1] == k1) by {
            lemma_key_code_present(keys2, k1);
        }
    }
    assert(keys2.contains(k1)) by {
        lemma_key_code_present(keys1, k1);
        assert(keys2[key_code(keys1, k1) - 1] == k1);
    }
    lemma_codes_injective(keys2, k1, k2);
}

/// Round trip: once `Shorten` has mapped a URL's key to a code, `Resolve`
/// of that code returns exactly that key.
pub proof fn lemma_shorten_resolve_round_trip(keys: Seq<Seq<char>>, k: Seq<char>)
    requires
        distinct_keys(keys),
    ensures
        ({
            let keys1 = shorten_step(keys, k);
            resolve_key(keys1, key_code(keys1, k)) == Some(k)
        }),
{
    lemma_shorten_step_distinct(keys, k);
    lemma_key_code_present(shorten_step(keys, k), k);
}

/// Unknown code: `Resolve` yields nothing for any code outside the issued
/// range `1 ..= keys.len()`; every code `Shorten` ever returned lies
/// inside that range, which only grows.
pub proof fn lemma_unknown_code_unresolved(keys: Seq<Seq<char>>, code: int)
    requires
        code < 1 || code > keys.len(),
    ensures
        resolve_key(keys, code) is None,
{
}

/// The key sequence after `n` repeated `Shorten` calls with one key.
pub open spec fn shorten_iter(keys: Seq<Seq<char>>, k: Seq<char>, n: nat) -> Seq<Seq<char>>
    decreases n,
{
    if n == 0 {
        keys
    } else {
        shorten_step(shorten_iter(keys, k, (n - 1) as nat), k)
    }
}

/// Contention: any number of `Shorten` calls with one key — concurrent
/// callers taken in turn under the store's lock — allocate exactly once.
/// The state equals that after the first call, every call observes the one
/// code of that key, and the counter advances by one in total (by zero
/// when the key was already mapped).
pub proof fn lemma_shorten_contended(keys: Seq<Seq<char>>, k: Seq<char>, n: nat)
    requires
        n >= 1,
    ensures
        shorten_iter(keys, k, n) == shorten_step(keys, k),
        key_code(shorten_iter(keys, k, n), k) == key_code(shorten_step(keys, k), k),
        shorten_step(keys, k).len() == keys.len() + (if keys.contains(k) {
            0int
        } else {
            1int
        }),
    decreases n,
{
    if n == 1 {
        assert(shorten_iter(keys, k, 0) == keys);
    } else {
        lemma_shorten_contended(keys, k, (n - 1) as nat);
        lemma_shorten_idempotent(keys, k);
    }
}

} // verus!
