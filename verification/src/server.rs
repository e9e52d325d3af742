//! The server configuration: the address a caller intends to listen on. The
//! accept loop itself does I/O and lives outside this library; it calls
//! `Request::parse` once per connection.

use vstd::prelude::*;

verus! {

/// A server bound to one listening address.
#[derive(Debug)]
pub struct Server {
    pub addr: String,
}

impl Server {
    /// Make a server that will listen on `addr`.
    pub fn new(addr: String) -> (r: Server)
        ensures
            r.addr@ == addr@,
    {
        Server { addr }
    }
}

} // verus!
