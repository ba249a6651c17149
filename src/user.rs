use vstd::prelude::*;

verus! {

/// An account record.
pub struct User {
    pub active: bool,
    pub username: String,
    pub email: String,
    pub sign_in_count: u64,
}

/// Builds an active account with one sign-in.
pub fn build_user(email: String, username: String) -> (u: User)
    ensures
        u.active,
        u.username@ == username@,
        u.email@ == email@,
        u.sign_in_count == 1,
{
    User { active: true, username, email, sign_in_count: 1 }
}

} // verus!
