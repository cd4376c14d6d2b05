//! Service types: the process-wide service built over the execution context,
//! and the connection-scoped request service derived for each accepted
//! connection. Listener binding, TLS setup and request driving are I/O and
//! live with the program embedding this library; what stands here is the
//! state those loops carry and how it is derived.

use vstd::prelude::*;
use crate::ip::IpKey;
use crate::session::ExecuteCtx;

verus! {

/// The service: a share of the execution context, from which a
/// connection-scoped request service is derived for every accepted
/// connection.
pub struct ViceroyService {
    pub ctx: ExecuteCtx,
}

impl ViceroyService {
    /// A new service over the given execution context.
    pub fn new(ctx: ExecuteCtx) -> (r: Self)
        ensures
            r.ctx == ctx,
    {
        ViceroyService { ctx }
    }

    /// The connection-scoped request service: a cheap reference-counted
    /// share of the context, and the peer's address.
    pub fn make_service(&self, remote: IpKey) -> (r: RequestService)
        ensures
            r.ctx == self.ctx,
            r.remote_addr == remote,
    {
        RequestService::new(self.ctx.duplicate(), remote)
    }
}

/// A request service is responsible for a single connection's requests: each
/// request gets its own share of the context and its own session.
pub struct RequestService {
    pub ctx: ExecuteCtx,
    pub remote_addr: IpKey,
}

impl RequestService {
    /// A new request service.
    pub fn new(ctx: ExecuteCtx, remote_addr: IpKey) -> (r: Self)
        ensures
            r.ctx == ctx,
            r.remote_addr == remote_addr,
    {
        RequestService { ctx, remote_addr }
    }
}

} // verus!
