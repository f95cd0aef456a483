//! Error types of the library.
//!
//! Each carries an outward message only; which message comes with which input
//! is pinned down by the contracts of the functions that produce them.

use vstd::prelude::*;

verus! {

/// A failed credential or token check.  The message deliberately does not
/// reveal which specific check failed.
#[derive(Debug)]
pub struct AuthenticationError {
    message: String,
}

impl View for AuthenticationError {
    type V = Seq<char>;

    closed spec fn view(&self) -> Seq<char> {
        self.message@
    }
}

impl AuthenticationError {
    pub fn new(message: &str) -> (e: Self)
        ensures
            e@ == message@,
    {
        AuthenticationError { message: message.to_owned() }
    }

    pub fn message(&self) -> (m: &str)
        ensures
            m@ == self@,
    {
        self.message.as_str()
    }
}

/// A failure of the record store, surfaced as one opaque message.
#[derive(Debug)]
pub struct DriverError {
    message: String,
}

impl View for DriverError {
    type V = Seq<char>;

    closed spec fn view(&self) -> Seq<char> {
        self.message@
    }
}

impl DriverError {
    pub fn new(message: &str) -> (e: Self)
        ensures
            e@ == message@,
    {
        DriverError { message: message.to_owned() }
    }

    pub fn message(&self) -> (m: &str)
        ensures
            m@ == self@,
    {
        self.message.as_str()
    }
}

/// Any failure reported by the service layer, carrying the message of the
/// underlying authentication or store error.
#[derive(Debug)]
pub struct BusinessError {
    message: String,
}

impl View for BusinessError {
    type V = Seq<char>;

    closed spec fn view(&self) -> Seq<char> {
        self.message@
    }
}

impl BusinessError {
    pub fn message(&self) -> (m: &str)
        ensures
            m@ == self@,
    {
        self.message.as_str()
    }
}

impl From<AuthenticationError> for BusinessError {
    fn from(value: AuthenticationError) -> (e: Self)
        ensures
            e@ == value@,
    {
        BusinessError { message: value.message.clone() }
    }
}

impl vstd::std_specs::convert::FromSpecImpl<AuthenticationError> for BusinessError {
    open spec fn obeys_from_spec() -> bool {
        true
    }

    closed spec fn from_spec(value: AuthenticationError) -> Self {
        BusinessError { message: value.message }
    }
}

impl From<DriverError> for BusinessError {
    fn from(value: DriverError) -> (e: Self)
        ensures
            e@ == value@,
    {
        BusinessError { message: value.message.clone() }
    }
}

impl vstd::std_specs::convert::FromSpecImpl<DriverError> for BusinessError {
    open spec fn obeys_from_spec() -> bool {
        true
    }

    closed spec fn from_spec(value: DriverError) -> Self {
        BusinessError { message: value.message }
    }
}

/// A failure reported at the request boundary.
#[derive(Debug)]
pub struct ApiError {
    message: String,
}

impl View for ApiError {
    type V = Seq<char>;

    closed spec fn view(&self) -> Seq<char> {
        self.message@
    }
}

impl ApiError {
    pub fn message(&self) -> (m: &str)
        ensures
            m@ == self@,
    {
        self.message.as_str()
    }
}

impl From<BusinessError> for ApiError {
    fn from(value: BusinessError) -> (e: Self)
        ensures
            e@ == value@,
    {
        ApiError { message: value.message.clone() }
    }
}

impl vstd::std_specs::convert::FromSpecImpl<BusinessError> for ApiError {
    open spec fn obeys_from_spec() -> bool {
        true
    }

    closed spec fn from_spec(value: BusinessError) -> Self {
        ApiError { message: value.message }
    }
}

} // verus!
