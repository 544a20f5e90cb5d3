//! The proxy itself.

pub mod approval;
pub mod extension;
pub mod identities;
pub mod prompt;
pub mod session;
pub mod sign;

use crate::agent::identities::IdentityView;
use crate::enclave::{public_blob, Enclave};
use vstd::prelude::*;

verus! {

/// The request could not be served.
pub const FAILURE: u8 = 5;

/// A client asks which keys there are.
pub const REQUEST_IDENTITIES: u8 = 11;

/// The answer to that.
pub const IDENTITIES_ANSWER: u8 = 12;

/// A client asks for a signature.
pub const SIGN_REQUEST: u8 = 13;

/// The answer to that.
pub const SIGN_RESPONSE: u8 = 14;

/// A client uses an extension of the protocol.
pub const EXTENSION: u8 = 27;

/// An agent that requests are passed on to.
#[derive(Debug, PartialEq, Eq)]
pub struct Upstream {
    pub name: String,
    /// The socket it listens on.
    pub path: String,
}

/// What the proxy works with.
pub struct Ctx {
    /// The key that Keyward holds in the Secure Enclave itself, if one exists.
    pub enclave: Option<Enclave>,
    pub upstreams: Vec<Upstream>,
    /// Seconds after which an upstream that does not answer is given up.
    pub timeout_secs: u64,
    /// Record identity listings too.
    pub log_lists: bool,
    /// Nanoseconds during which one authentication covers further signatures. 0
    /// asks every time.
    pub touch_id_reuse: u128,
    /// Overrides the system sheet's text. Empty means "describe the action"; a
    /// single space means "say as little as macOS allows".
    pub sheet_reason: String,
}

impl Ctx {
    /// Our own key, as it is offered.
    pub open spec fn own_identity(&self) -> Option<IdentityView> {
        match self.enclave {
            Some(e) => Some(
                IdentityView { blob: public_blob(e.point_bytes()), comment: e.comment_text() },
            ),
            None => None,
        }
    }
}

/// The answer to a request that could not be served.
pub fn failure() -> (r: Vec<u8>)
    ensures
        r@ == seq![FAILURE],
{
    let mut r: Vec<u8> = Vec::new();
    r.push(FAILURE);
    r
}

} // verus!
