//! An in-memory mirror of a cluster's workload topology that answers, for an
//! IP address seen on the wire, which workload the address belongs to.

pub mod workload;
pub mod ip;
pub mod objects;
pub mod store;
pub mod topology;
pub mod index;
pub mod resolver;
pub mod cache;
pub mod image;
pub mod reflector;
