//! Responses that browsers may cache for good.
use vstd::prelude::*;

verus! {

/// A response marked as cacheable for a year and more.
pub struct CacheForever<T>(pub T);

/// The `Cache-Control` header value of such a response.
pub fn cache_control() -> (r: &'static str)
    ensures
        r@ == "public, max-age=30000000"@,
{
    "public, max-age=30000000"
}

} // verus!
