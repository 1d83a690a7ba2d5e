//! The pair of keys that signs requests to the object store.

use vstd::prelude::*;

verus! {

/// An access key and the secret that belongs to it.
#[derive(Debug)]
pub struct Credentials {
    pub access_key: String,
    pub secret_key: String,
}

impl Credentials {
    pub fn new(access_key: String, secret_key: String) -> (c: Credentials)
        ensures
            c.access_key@ == access_key@,
            c.secret_key@ == secret_key@,
    {
        Credentials { access_key, secret_key }
    }
}

} // verus!
