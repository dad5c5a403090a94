//! The error every hosted operation reports: an HTTP status and a message.
use vstd::prelude::*;

verus! {

/// `400 Bad Request`.
pub const BAD_REQUEST: u16 = 400;

/// `401 Unauthorized`.
pub const UNAUTHORIZED: u16 = 401;

/// `422 Unprocessable Entity`.
pub const UNPROCESSABLE_ENTITY: u16 = 422;

/// `500 Internal Server Error`.
pub const INTERNAL_SERVER_ERROR: u16 = 500;

/// `502 Bad Gateway`.
pub const BAD_GATEWAY: u16 = 502;

/// `200 OK`.
pub const OK: u16 = 200;

/// The numbers that an HTTP status code can take.
pub open spec fn is_status_code(code: u16) -> bool {
    100 <= code <= 999
}

/// An error with the HTTP status that it is answered with.
#[derive(Debug)]
pub struct HostError {
    status: u16,
    message: String,
}

impl HostError {
    #[verifier::type_invariant]
    spec fn well_formed(self) -> bool {
        is_status_code(self.status)
    }

    /// The status code the error is answered with.
    pub closed spec fn spec_status(&self) -> u16 {
        self.status
    }

    /// The error's message.
    pub closed spec fn spec_message(&self) -> Seq<char> {
        self.message@
    }

    /// An error with the given status and message.
    pub fn new(status: u16, message: String) -> (e: Self)
        requires
            is_status_code(status),
        ensures
            e.spec_status() == status,
            e.spec_message() == message@,
    {
        HostError { status, message }
    }

    /// A `400 Bad Request` error.
    pub fn bad_request(message: String) -> (e: Self)
        ensures
            e.spec_status() == BAD_REQUEST,
            e.spec_message() == message@,
    {
        Self::new(BAD_REQUEST, message)
    }

    /// A `401 Unauthorized` error.
    pub fn unauthorized(message: String) -> (e: Self)
        ensures
            e.spec_status() == UNAUTHORIZED,
            e.spec_message() == message@,
    {
        Self::new(UNAUTHORIZED, message)
    }

    /// A `502 Bad Gateway` error.
    pub fn bad_gateway(message: String) -> (e: Self)
        ensures
            e.spec_status() == BAD_GATEWAY,
            e.spec_message() == message@,
    {
        Self::new(BAD_GATEWAY, message)
    }

    /// A `500 Internal Server Error` error.
    pub fn internal(message: String) -> (e: Self)
        ensures
            e.spec_status() == INTERNAL_SERVER_ERROR,
            e.spec_message() == message@,
    {
        Self::new(INTERNAL_SERVER_ERROR, message)
    }

    /// The status code the error is answered with.
    pub fn status(&self) -> (s: u16)
        ensures
            s == self.spec_status(),
            is_status_code(s),
    {
        proof {
            use_type_invariant(self);
        }
        self.status
    }

    /// The error's message; this is also how the error displays.
    pub fn message(&self) -> (m: &str)
        ensures
            m@ == self.spec_message(),
    {
        self.message.as_str()
    }
}

} // verus!
