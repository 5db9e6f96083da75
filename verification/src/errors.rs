use vstd::prelude::*;

verus! {

/// The error kinds of the harness.
///
/// Configuration and graph-construction errors (`ConfigMalformed`,
/// `DependencyNotReady`, `UnsupportedMode`) are unrecoverable for a whole run;
/// the per-test kinds (`RpcFailure`, `NodeStartTimeout`) end one test only.
#[derive(Clone, Copy, Debug, PartialEq, Eq, Structural)]
pub enum HarnessError {
    /// A textual hex string held a character outside `[0-9a-fA-F]`.
    MalformedHex,
    /// A call payload could not be built (the selector was not obtained).
    EncodingFailed,
    /// A link directive's symbol has no placeholder in the artifact.
    UnresolvedSymbol,
    /// A resolved address is not exactly the width of an account address.
    AddressWidthMismatch,
    /// An artifact was reached before all of its dependencies had addresses.
    DependencyNotReady,
    /// The node did not answer within the bounded start-up poll budget.
    NodeStartTimeout,
    /// A transaction or read-only call against the node failed.
    RpcFailure,
    /// A configuration record is missing a field or holds a bad value.
    ConfigMalformed,
    /// The requested test mode is not implemented.
    UnsupportedMode,
}

} // verus!
