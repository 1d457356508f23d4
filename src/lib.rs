pub mod client;
pub mod header;
pub mod netconfig;
pub mod rpc;
pub mod wire;
pub mod workload;
