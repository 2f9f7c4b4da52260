//! A verified model of a UDP reverse-proxy data plane: endpoints grouped by
//! cluster and locality, an ordered bidirectional filter pipeline, a session
//! table with inactivity expiry, atomically swappable configuration slots, and
//! the per-packet worker logic that ties them together.

pub mod cluster;
pub mod config;
pub mod endpoint;
pub mod filter;
pub mod locality;
pub mod proxy;
pub mod session;
pub mod slot;
pub mod worker;

pub use cluster::{Cluster, ClusterMap};
pub use config::{Config, DiscoveryResponse, Resource, ResourceType, Version};
pub use endpoint::{Endpoint, EndpointAddress};
pub use filter::{Filter, FilterChain, FilterConfig, FilterSpec, Strategy, ValidationError};
pub use locality::{Locality, LocalityEndpoints, LocalitySet};
pub use proxy::{StartupError, PORT};
pub use session::{Session, SessionKey, SessionMap};
pub use slot::Slot;
pub use worker::ProcessOutcome;
