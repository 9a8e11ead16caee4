use crate::errors::SigError;
use vstd::prelude::*;

verus! {

/// Relies on getrandom::fill: it fills the buffer with bytes from the
/// operating system's secure random source and reports any failure,
/// partial reads included, as an error.  Nothing is assumed about the bytes
/// themselves; callers must work for every possible outcome.
#[verifier::external_body]
pub(crate) fn fill_random(n: usize) -> (r: Result<Vec<u8>, SigError>)
    ensures
        r matches Ok(v) ==> v@.len() == n,
        r matches Err(e) ==> e == SigError::RandomSourceError,
{
    let mut buf = vec![0u8; n];
    match getrandom::fill(&mut buf) {
        Ok(()) => Ok(buf),
        Err(_) => Err(SigError::RandomSourceError),
    }
}

} // verus!
