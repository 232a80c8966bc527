//! The Cookie option carried by OPT pseudo-records.

use vstd::prelude::*;

use crate::codes::OptCodes;

verus! {

/// A DNS cookie: an opaque client/server value carried as an OPT option.
#[derive(Debug, Clone, PartialEq, Eq)]
pub struct CookieOpt {
    pub cookie: Vec<u8>,
}

impl CookieOpt {
    pub fn new(cookie: &[u8]) -> (r: CookieOpt)
        ensures
            r.cookie@ == cookie@,
    {
        CookieOpt { cookie: vstd::slice::slice_to_vec(cookie) }
    }

    pub fn get_opt_code(&self) -> (r: OptCodes)
        ensures
            r == OptCodes::Cookie,
    {
        OptCodes::Cookie
    }

    /// The option entry this cookie contributes to an OPT record.
    pub fn to_option(&self) -> (r: (OptCodes, Vec<u8>))
        ensures
            r.0 == OptCodes::Cookie,
            r.1@ == self.cookie@,
    {
        (OptCodes::Cookie, vstd::slice::slice_to_vec(self.cookie.as_slice()))
    }
}

} // verus!
