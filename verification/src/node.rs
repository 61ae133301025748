//! The three node classes held by the registries, and the health rules of a
//! service.

use vstd::prelude::*;

use crate::addr::{ip_text, ip_to_text, IpAddr};
use crate::config::ServiceMgrConfig;
use crate::text::{endpoint, endpoint_text};

verus! {

/// The id a node gets from an address and a port: `"<ip>:<port>"`.
pub open spec fn node_id_text(ip: IpAddr, port: u32) -> Seq<char> {
    endpoint_text(ip_text(ip), port as nat)
}

/// Builds the id `"<ip>:<port>"`.
pub fn build_node_id(ip: &IpAddr, port: u32) -> (r: String)
    ensures
        r@ == node_id_text(*ip, port),
{
    let t = ip_to_text(ip);
    endpoint(t.as_str(), port)
}

/// An edge gateway instance, pre-declared in configuration and never persisted.
pub struct Frontend {
    pub id: String,
    pub domain: String,
    pub http_port: u32,
    pub https_port: u32,
    pub public_ip: IpAddr,
    pub private_ip: IpAddr,
    pub active_at: u32,
}

impl Frontend {
    pub fn new(
        domain: String,
        public_ip: IpAddr,
        private_ip: IpAddr,
        http_port: u32,
        https_port: u32,
    ) -> (r: Self)
        ensures
            r.id@ == node_id_text(private_ip, http_port),
            r.domain == domain,
            r.public_ip == public_ip,
            r.private_ip == private_ip,
            r.http_port == http_port,
            r.https_port == https_port,
            r.active_at == 0,
    {
        Frontend {
            id: build_node_id(&private_ip, http_port),
            domain,
            public_ip,
            private_ip,
            http_port,
            https_port,
            active_at: 0,
        }
    }

    /// An equal copy.
    pub fn duplicate(&self) -> (r: Self)
        ensures
            r == *self,
    {
        Frontend {
            id: self.id.clone(),
            domain: self.domain.clone(),
            public_ip: self.public_ip,
            private_ip: self.private_ip,
            http_port: self.http_port,
            https_port: self.https_port,
            active_at: self.active_at,
        }
    }
}

/// A topic-sharded service instance, pre-declared in configuration.
pub struct Backend {
    pub id: String,
    pub private_ip: IpAddr,
    pub http_port: u32,
    pub active_at: u32,
}

impl Backend {
    pub fn new(id: String, private_ip: IpAddr, http_port: u32) -> (r: Self)
        ensures
            r.id == id,
            r.private_ip == private_ip,
            r.http_port == http_port,
            r.active_at == 0,
    {
        Backend { id, private_ip, http_port, active_at: 0 }
    }

    /// An equal copy.
    pub fn duplicate(&self) -> (r: Self)
        ensures
            r == *self,
    {
        Backend {
            id: self.id.clone(),
            private_ip: self.private_ip,
            http_port: self.http_port,
            active_at: self.active_at,
        }
    }

    /// The private endpoint `"<private_ip>:<http_port>"`.
    pub fn private_endpoint(&self) -> (r: String)
        ensures
            r@ == endpoint_text(ip_text(self.private_ip), self.http_port as nat),
    {
        let t = ip_to_text(&self.private_ip);
        endpoint(t.as_str(), self.http_port)
    }
}

/// The frontend record with its heartbeat refreshed.
pub open spec fn with_frontend_active_at(f: Frontend, now: u32) -> Frontend {
    Frontend {
        id: f.id,
        domain: f.domain,
        http_port: f.http_port,
        https_port: f.https_port,
        public_ip: f.public_ip,
        private_ip: f.private_ip,
        active_at: now,
    }
}

/// The backend record with its heartbeat refreshed.
pub open spec fn with_backend_active_at(b: Backend, now: u32) -> Backend {
    Backend { id: b.id, private_ip: b.private_ip, http_port: b.http_port, active_at: now }
}

/// A dynamically registered service, persisted and recovered.
pub struct Service {
    pub id: String,
    pub private_ip: IpAddr,
    pub http_port: u32,
    pub active_at: u32,
}

/// Seconds elapsed since a node was last seen, on the 32-bit wrapping second
/// counter that `active_at` lives on.
pub open spec fn elapsed(now: u32, active_at: u32) -> u32 {
    vstd::wrapping::u32_specs::wrapping_sub(now, active_at)
}

/// A service is healthy while no more than `unhealthy_threshold` seconds
/// passed since its last heartbeat; the boundary itself is healthy.
pub open spec fn healthy_at(active_at: u32, now: u32, unhealthy_threshold: u32) -> bool {
    elapsed(now, active_at) <= unhealthy_threshold
}

/// A service is stale once more than `stale_threshold` seconds passed since
/// its last heartbeat; the boundary itself is not stale.
pub open spec fn stale_at(active_at: u32, now: u32, stale_threshold: u32) -> bool {
    elapsed(now, active_at) > stale_threshold
}

impl Service {
    pub fn new(private_ip: IpAddr, http_port: u32, now: u32) -> (r: Self)
        ensures
            r.id@ == node_id_text(private_ip, http_port),
            r.private_ip == private_ip,
            r.http_port == http_port,
            r.active_at == now,
    {
        Service { id: build_node_id(&private_ip, http_port), private_ip, http_port, active_at: now }
    }

    /// An equal copy.
    pub fn duplicate(&self) -> (r: Self)
        ensures
            r == *self,
    {
        Service {
            id: self.id.clone(),
            private_ip: self.private_ip,
            http_port: self.http_port,
            active_at: self.active_at,
        }
    }

    /// The private endpoint `"<private_ip>:<http_port>"`.
    pub fn private_endpoint(&self) -> (r: String)
        ensures
            r@ == endpoint_text(ip_text(self.private_ip), self.http_port as nat),
    {
        let t = ip_to_text(&self.private_ip);
        endpoint(t.as_str(), self.http_port)
    }

    /// Decides health at time `now`.
    pub fn is_healthy(&self, now: u32, config: &ServiceMgrConfig) -> (r: bool)
        ensures
            r == healthy_at(self.active_at, now, config.unhealthy_threshold),
    {
        !(now.wrapping_sub(self.active_at) > config.unhealthy_threshold)
    }

    /// Decides staleness at time `now`.
    pub fn is_stale(&self, now: u32, config: &ServiceMgrConfig) -> (r: bool)
        ensures
            r == stale_at(self.active_at, now, config.stale_threshold),
    {
        now.wrapping_sub(self.active_at) > config.stale_threshold
    }
}

/// What a connection has registered as.
#[derive(Clone, Copy, PartialEq, Eq, Structural, Debug)]
pub enum NodeType {
    Unknown,
    Frontend,
    Backend,
    Service,
}

} // verus!
