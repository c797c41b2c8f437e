//! Settings of the transport that carries statements between peers.

use vstd::prelude::*;

verus! {

/// Specifies whether unencrypted communications are allowed or denied.
#[derive(Debug, Copy, Clone)]
pub enum UnecryptedAllowed {
    Allowed,
    Denied,
}

} // verus!
