//! States a connection passes through on the server.

use vstd::prelude::*;

verus! {

/// A connection that has not yet sent its login.
pub struct Initializing;

/// A connection that logged in and is bound to a client id.
pub struct Authenticated;

} // verus!
