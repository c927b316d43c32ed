//! PG-Prism: the decisions of a PostgreSQL sidecar proxy.
//!
//! A load balancer in front of PostgreSQL hides where clients connect from.
//! PG-Prism reads the address out of the PROXY header and puts it into the
//! `application_name` of the startup message, where `pg_stat_activity` shows it,
//! and it can refuse connections and statements by rule. This crate holds what it
//! decides, with contracts that say exactly what that is. The sockets, the files
//! and the environment belong to the program around it.

pub mod clock;
pub mod guardian;
pub mod laws;
pub mod limits;
pub mod net;
pub mod protocol;
pub mod proxy;
pub mod relay;
pub mod search;
pub mod server;
pub mod session;
pub mod settings;
pub mod text;
pub mod tls;
pub mod trust;
