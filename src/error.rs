use vstd::prelude::*;

verus! {

/// Every way one invocation of the launcher can fail.
#[derive(Debug, PartialEq, Eq)]
pub enum LaunchError {
    /// An explicit address was not a dotted-quad IPv4 address; holds the text given.
    InvalidAddress(String),
    /// The directory lookup could not produce an address; holds its message unchanged.
    DiscoveryFailed(String),
    /// The remote-shell session could not be established.
    ConnectFailed(String),
    /// The remote host refused the credential.
    AuthFailed(String),
    /// The remote output was not valid text.
    DecodeError(String),
    /// The status text held no session number; holds that text.
    SessionIdNotFound(String),
}

} // verus!
