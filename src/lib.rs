//! Core of a SOME/IP middleware: the wire codec, Transport-Protocol
//! segmentation and reassembly, the Service Discovery state machine and the
//! runtime's dispatch decisions, each stated and proved with Verus.

pub mod codec;
pub mod sd;
pub mod transport;
pub mod runtime;
pub mod generated;
pub mod logging;

pub use codec::{SomeIpDeserialize, SomeIpHeader, SomeIpSerialize};
pub use sd::entries::{EntryType, SdEntry};
pub use sd::machine::{RemoteService, ServiceDiscovery};
pub use sd::options::SdOption;
pub use runtime::RequestHandler;
