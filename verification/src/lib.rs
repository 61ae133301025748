//! Control-plane master registry for a fleet of edge frontends, topic-sharded
//! backends and dynamically registered services.
//!
//! The library holds the verified core: the node managers (frontend, backend,
//! service), the route manager with versioned publication, the topic manager
//! with backend-set-invalidated assignments, the per-connection request
//! dispatcher, and the HTTP frontend selector. Transport, TLS, configuration
//! parsing and the durable storage engine live outside the library and talk to
//! it through plain values.

use vstd::prelude::*;

pub mod addr;
pub mod backend_mgr;
pub mod checksum;
pub(crate) mod clock;
pub mod config;
pub mod dispatcher;
pub mod frontend_mgr;
pub mod node;
pub mod protocol;
pub mod route_join;
pub mod route_mgr;
pub mod selector;
pub mod service_mgr;
pub mod strmap;
pub mod text;
pub mod topic_hash;
pub mod topic_mgr;

verus! {

/// A stable string identifier of a node (frontend, backend or service).
pub type NodeId = String;

} // verus!
