//! Random bytes.

use getrandom::Error;
use vstd::prelude::*;

verus! {

/// Why there are no random bytes.
#[verifier::external_type_specification]
#[verifier::external_body]
pub struct ExError(Error);

/// `getrandom::fill`: random bytes in place of the ones there are. Which ones is left to chance.
/// Where there are none, the system is not asked, and nothing can go wrong.
#[verifier::external_body]
fn fill_random(bytes: &mut Vec<u8>) -> (r: Result<(), Error>)
    ensures
        final(bytes)@.len() == old(bytes)@.len(),
        old(bytes)@.len() == 0 ==> r is Ok,
{
    getrandom::fill(bytes)
}

/// `getrandom::Error` as text. It depends on the system.
#[verifier::external_body]
fn random_fault(error: &Error) -> String {
    error.to_string()
}

/// Random bytes, or why there are none. Whatever they are, there are as many as are asked for, and
/// none at all can always be had.
pub fn random_bytes(count: usize) -> (r: Result<Vec<u8>, String>)
    ensures
        r matches Ok(bytes) ==> bytes@.len() == count,
        count == 0 ==> r is Ok,
{
    let mut bytes: Vec<u8> = Vec::new();
    for i in 0..count
        invariant
            bytes@.len() == i,
    {
        bytes.push(0);
    }
    match fill_random(&mut bytes) {
        Ok(()) => Ok(bytes),
        Err(error) => Err(random_fault(&error)),
    }
}

} // verus!
