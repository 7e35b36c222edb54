//! Audit of a cluster's network layout against the conventions it is expected
//! to follow: subnets per availability zone, ownership tags, load balancer
//! placement and DNS alias usage. Every check yields graded findings.

pub mod cluster_info;
pub mod collector;
pub mod dns;
pub mod gathering;
pub mod groups;
pub mod laws;
pub mod network;
pub mod resources;
pub mod selection;
pub mod text;
pub mod topology;
pub mod types;
