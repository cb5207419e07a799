//! An in-memory URL shortener: a normalizer that derives a canonical host
//! key from a raw URL, and a store that assigns each distinct key a short
//! numeric code exactly once and resolves codes back to their keys.

use vstd::prelude::*;

pub mod laws;
pub mod normalize;
pub mod store;

verus! {

/// The two ways an operation can be refused: the raw URL does not have the
/// required `http(s)://host` shape, or a code was never issued.
#[derive(Clone, Copy, Debug, PartialEq, Eq, Structural)]
pub enum UrlError {
    InvalidUrl,
    NotFound,
}

} // verus!
