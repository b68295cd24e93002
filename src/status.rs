//! HTTP status codes of error objects.
use vstd::prelude::*;

verus! {

/// Relies on `http::StatusCode::from_u16`, which accepts exactly 100 to 999.
#[verifier::external_body]
fn http_accepts_status(v: u16) -> (r: bool)
    ensures
        r == (100 <= v && v <= 999),
{
    http::StatusCode::from_u16(v).is_ok()
}

/// A three-digit HTTP status code.
#[derive(Debug, Clone, Copy)]
pub struct StatusCode {
    code: u16,
}

impl View for StatusCode {
    type V = u16;

    closed spec fn view(&self) -> u16 {
        self.code
    }
}

impl StatusCode {
    #[verifier::type_invariant]
    spec fn three_digits(&self) -> bool {
        100 <= self.code && self.code <= 999
    }

    /// The status with this code, if it has three digits.
    pub fn from_u16(v: u16) -> (r: Option<StatusCode>)
        ensures
            match r {
                Some(s) => s@ == v,
                None => !(100 <= v && v <= 999),
            },
    {
        if http_accepts_status(v) {
            Some(StatusCode { code: v })
        } else {
            None
        }
    }

    pub fn as_u16(&self) -> (r: u16)
        ensures
            r == self@,
            100 <= r <= 999,
    {
        proof {
            use_type_invariant(self);
        }
        self.code
    }
}

} // verus!
