use vstd::prelude::*;

verus! {

/// The ways a command fails.
#[derive(Debug, PartialEq, Eq, Structural)]
pub enum HunterError {
    /// A row lacks an expected column, or holds a value of the wrong type there.
    Mapping,
    /// The remote service answered with a status other than success.
    Remote(u16),
    /// A referenced user, label or repository is not in the store.
    NotFound,
    /// The persistence engine failed.
    Store,
}

/// Whether an HTTP status is a success (2xx).
pub open spec fn is_success(status: u16) -> bool {
    200 <= status && status <= 299
}

/// Accepts a successful response status; any other one is a remote error that carries it.
pub fn check_status(status: u16) -> (r: Result<(), HunterError>)
    ensures
        is_success(status) <==> r is Ok,
        !is_success(status) ==> r == Err::<(), HunterError>(HunterError::Remote(status)),
{
    if 200 <= status && status <= 299 {
        Ok(())
    } else {
        Err(HunterError::Remote(status))
    }
}

} // verus!
