//! Plain HTTP proxies, which need no handshake.

use crate::negotiators::NegotiatorTrait;
use vstd::prelude::*;

verus! {

/// Negotiates with plain HTTP proxies: there is nothing to agree on.
pub struct HttpNegotiator;

impl NegotiatorTrait for HttpNegotiator {
    open spec fn tls(&self) -> bool {
        false
    }

    fn with_tls(&self) -> (r: bool) {
        false
    }
}

} // verus!
