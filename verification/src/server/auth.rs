//! Bearer-token access to the `/v1/*` and `/api/*` routes.

use vstd::prelude::*;
use crate::text::{owned, str_eq};

verus! {

/// A request with `authorization` header `header` may proceed: always
/// when the server has no token; otherwise only with exactly
/// `Bearer <token>`.
pub fn bearer_allows(expected: &Option<String>, header: Option<&str>) -> (r: bool)
    ensures
        r == match expected {
            None => true,
            Some(t) => match header {
                Some(h) => h@ == "Bearer "@ + t@,
                None => false,
            },
        },
{
    match expected {
        None => true,
        Some(t) => match header {
            Some(h) => {
                let mut want = owned("Bearer ");
                want.append(t.as_str());
                str_eq(h, want.as_str())
            },
            None => false,
        },
    }
}

} // verus!
