//! What the service is configured with.

use vstd::prelude::*;
use vstd::string::StringExecFns;

verus! {

/// Where the service listens and where it keeps its history.
#[derive(Debug)]
pub struct Config {
    pub database_url: String,
    pub address: String,
}

/// The address the service listens on unless told otherwise.
pub fn default_address() -> (address: String)
    ensures
        address@ == "0.0.0.0:3000"@,
{
    String::from_str("0.0.0.0:3000")
}

/// The database the service uses unless told otherwise.
pub fn default_database_url() -> (url: String)
    ensures
        url@ == "sqlite::memory:"@,
{
    String::from_str("sqlite::memory:")
}

} // verus!
