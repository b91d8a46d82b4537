//! Impulse: the transform that starts a pipeline with a single element.

use vstd::prelude::*;

use crate::proto::{FunctionSpec, FunctionSpecView};
use crate::urns::{IMPULSE_BUFFER, IMPULSE_URN};
use vstd::utf8::encode_utf8;

verus! {

/// The transform that starts a pipeline with a single element.
#[derive(Debug)]
pub struct Impulse {
    urn: &'static str,
}

impl Impulse {
    pub closed spec fn spec_urn(&self) -> Seq<char> {
        self.urn@
    }

    pub fn new() -> (r: Self)
        ensures
            r.spec_urn() == IMPULSE_URN@,
    {
        Impulse { urn: IMPULSE_URN }
    }

    /// The spec of the transform: its URN, with the impulse buffer as payload.
    pub fn expand_spec(&self) -> (r: FunctionSpec)
        ensures
            r.view() == (FunctionSpecView { urn: self.spec_urn(), payload: encode_utf8(IMPULSE_BUFFER@) }),
    {
        let urn = String::from_str(self.urn);
        let payload = IMPULSE_BUFFER.as_bytes_vec();
        FunctionSpec { urn, payload }
    }
}

impl Default for Impulse {
    fn default() -> (r: Self)
        ensures
            r.spec_urn() == IMPULSE_URN@,
    {
        Impulse::new()
    }
}

} // verus!
