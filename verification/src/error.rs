//! The one error type of the library.

use vstd::prelude::*;

verus! {

/// `reqwest::Error`, carried as it is: nothing is read out of it.
#[verifier::external_type_specification]
#[verifier::external_body]
pub struct ExTransportError(reqwest::Error);

/// Why a lookup failed.
#[derive(Debug)]
pub enum MyError {
    /// An answer lacks a field, or holds a value of another type there.
    /// The text says which field.
    MissingField(String),
    /// The HTTP exchange failed, or the body was not JSON.
    ReqwestError(reqwest::Error),
}

impl From<reqwest::Error> for MyError {
    /// Wraps the failure of an exchange.
    fn from(err: reqwest::Error) -> (r: MyError) {
        MyError::ReqwestError(err)
    }
}

impl vstd::std_specs::convert::FromSpecImpl<reqwest::Error> for MyError {
    open spec fn obeys_from_spec() -> bool {
        true
    }

    open spec fn from_spec(err: reqwest::Error) -> MyError {
        MyError::ReqwestError(err)
    }
}

} // verus!
