//! Where the relay listens.

use vstd::prelude::*;

verus! {

/// The address on which the relay listens when none is configured.
pub const DEFAULT_ADDRESS: &'static str = "127.0.0.1:3030";

/// The address to bind: the configured one where there is one, the default
/// otherwise.
pub fn bind_address(configured: Option<String>) -> (address: String)
    ensures
        address@ == (match configured {
            Some(given) => given@,
            None => "127.0.0.1:3030"@,
        }),
{
    match configured {
        Some(given) => given,
        None => DEFAULT_ADDRESS.to_owned(),
    }
}

} // verus!
