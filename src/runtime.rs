//! The runtime's configuration model and its dispatch decisions: how a
//! received frame becomes a message, where a message is routed, and how
//! requests and responses are framed (segmented above the MTU).

pub mod config;
pub mod dispatch;

pub use config::{ClientConfig, InstanceConfig, MulticastConfig, SdConfig, ServiceConfig, SystemConfig};

use vstd::prelude::*;
use crate::codec::header::SomeIpHeader;

verus! {

/// A service implementation the runtime dispatches to, by service id.
pub trait RequestHandler {
    fn service_id(&self) -> u16;

    fn major_version(&self) -> u8;

    fn minor_version(&self) -> u32;

    /// Handles a request or notification; a returned payload is sent back
    /// as the response.
    fn handle(&self, header: &SomeIpHeader, payload: &[u8]) -> Option<Vec<u8>>;
}

} // verus!
