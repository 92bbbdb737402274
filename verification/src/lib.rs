pub mod assoc;
#[allow(deprecated)]
pub mod buffer;
pub mod client;
pub mod client_laws;
pub mod codec;
pub mod common;
pub mod filter_laws;
#[allow(deprecated)]
pub mod framing;
pub mod hub;
pub mod mqttc;
pub mod net;
pub mod packet;
pub mod peers;
pub mod qos;
pub mod route;
pub mod routes;
pub mod store;
pub mod text;
pub mod topic;
pub mod window;
pub mod wire;
pub mod wire_laws;
