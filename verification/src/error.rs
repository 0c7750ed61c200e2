//! The errors of the library.

use vstd::prelude::*;

verus! {

/// Why a message, a packet or a key was refused.
#[derive(Debug, Clone, Copy, PartialEq, Eq)]
pub enum IkeError {
    /// The input ends before a fixed-size part that it must hold.
    Truncated { need: usize, have: usize },
    /// A length field disagrees with the bytes that are there.
    BadLength { declared: usize, available: usize },
    /// A required payload is absent; its name.
    MissingPayload(&'static str),
    /// The peer's Security Association payload holds no proposal.
    NoProposalChosen,
    /// An authentication tag did not verify.
    BadIntegrity,
    /// Key material or cryptographic framing is unusable; what is wrong with it.
    Crypto(&'static str),
}

/// A byte-producing result with its bytes taken by their view.
pub open spec fn bytes_result(r: Result<Vec<u8>, IkeError>) -> Result<Seq<u8>, IkeError> {
    match r {
        Ok(v) => Ok(v@),
        Err(e) => Err(e),
    }
}

/// Law: taking a result by its view keeps the bytes and the error.
pub proof fn results_keep_their_bytes(v: Vec<u8>, e: IkeError)
    ensures
        bytes_result(Ok(v)) == Ok::<Seq<u8>, IkeError>(v@),
        bytes_result(Err(e)) == Err::<Seq<u8>, IkeError>(e),
{
}

} // verus!
