pub mod addr;
pub mod anycable_grpc;
pub mod connections;
pub mod json;
pub mod rpc;
pub mod streams;
pub mod transport;
pub mod server;
pub mod laws;
