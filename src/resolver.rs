use vstd::prelude::*;
use crate::address::{parse_address, parse_dotted_quad, Address};
use crate::error::LaunchError;

verus! {

/// What resolving yields for an explicit address text: the address it writes,
/// or `InvalidAddress` carrying the text.
pub open spec fn explicit_outcome(s: String, r: Result<Address, LaunchError>) -> bool {
    match parse_dotted_quad(s@) {
        Some(a) => r == Ok::<Address, LaunchError>(a),
        None => r == Err::<Address, LaunchError>(LaunchError::InvalidAddress(s)),
    }
}

/// What resolving yields from the directory lookup's answer: its address,
/// or its message unchanged inside `DiscoveryFailed`.
pub open spec fn discovered_outcome(
    found: Result<Address, String>,
    r: Result<Address, LaunchError>,
) -> bool {
    match found {
        Ok(a) => r == Ok::<Address, LaunchError>(a),
        Err(msg) => r == Err::<Address, LaunchError>(LaunchError::DiscoveryFailed(msg)),
    }
}

/// Carries the directory lookup's answer over into the launcher's terms.
pub fn from_discovery(found: Result<Address, String>) -> (r: Result<Address, LaunchError>)
    ensures
        discovered_outcome(found, r),
{
    match found {
        Ok(a) => Ok(a),
        Err(msg) => Err(LaunchError::DiscoveryFailed(msg)),
    }
}

/// Produces the address to connect to. An explicit address is parsed and the
/// lookup is never called: its precondition is asked for only when no address
/// is given. Without one, `lookup` (which can run at most once) is called with
/// the credential, and its answer is passed on: the `exists` names the answer
/// of that one call. Nothing is cached or retried.
pub fn resolve<F: FnOnce(Option<String>) -> Result<Address, String>>(
    explicit: Option<String>,
    credential: Option<String>,
    lookup: F,
) -> (r: Result<Address, LaunchError>)
    requires
        explicit is None ==> lookup.requires((credential,)),
    ensures
        explicit is Some ==> explicit_outcome(explicit->0, r),
        explicit is None ==> exists|found: Result<Address, String>|
            lookup.ensures((credential,), found) && discovered_outcome(found, r),
{
    match explicit {
        Some(s) => match parse_address(s.as_str()) {
            Some(a) => Ok(a),
            None => Err(LaunchError::InvalidAddress(s)),
        },
        None => {
            let found = lookup(credential);
            from_discovery(found)
        },
    }
}

} // verus!
