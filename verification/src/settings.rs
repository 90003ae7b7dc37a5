//! Reading the service's settings from the values of its environment
//! variables.

use vstd::prelude::*;
use crate::text::{trim, trimmed, eq_ignore_ascii_case, same_ignoring_ascii_case};

verus! {

/// Public sign-up is on when the setting reads `true`, in any ASCII case.
pub fn public_signup_from(value: Option<String>) -> (r: bool)
    ensures
        r == (value matches Some(v) && same_ignoring_ascii_case(v@, "true"@)),
{
    match value {
        Some(v) => eq_ignore_ascii_case(v.as_str(), "true"),
        None => false,
    }
}

/// The first operator account to seed: the trimmed user name and the
/// password as given, when both are set and neither is blank.
pub fn admin_credentials_from(username: Option<String>, password: Option<String>) -> (r: Option<(String, String)>)
    ensures
        r is Some <==> (username matches Some(u) && password matches Some(p) && trimmed(u@).len() > 0
            && trimmed(p@).len() > 0),
        r matches Some(c) ==> (username matches Some(u) && password matches Some(p) && c.0@ == trimmed(u@)
            && c.1 == p),
{
    let username = match username {
        Some(u) => u,
        None => {
            return None;
        },
    };
    let password = match password {
        Some(p) => p,
        None => {
            return None;
        },
    };
    let name = trim(username.as_str()).to_owned();
    if name.as_str().is_empty() || trim(password.as_str()).is_empty() {
        return None;
    }
    Some((name, password))
}

} // verus!
