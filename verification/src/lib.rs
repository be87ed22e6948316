//! Remote workspace client library: validation, routing, quoting and
//! generated-configuration logic, with the I/O left to the caller.
pub mod text;
pub mod paths;
pub mod workspace;
pub mod transport;
pub mod config;
pub mod lifecycle;
pub mod native_nfs;
pub mod nfs_server;
pub mod launchd_status;
pub mod autostart;
pub mod shell_hook;
pub mod agent_rules;
pub mod installation;
pub mod routing;
pub mod maintenance;
pub mod operations;
