use vstd::prelude::*;

verus! {

/// The user store that the user-creation use case writes through. It holds
/// no state: persistence is simulated by the service around it.
#[derive(Debug)]
pub struct UserRepository {}

impl UserRepository {
    pub fn new() -> (r: UserRepository)
        ensures
            r == (UserRepository {}),
    {
        UserRepository {}
    }
}

} // verus!
