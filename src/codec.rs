//! Serialisation of the SOME/IP header, the TP sub-header, primitives,
//! strings and sequences, plus session numbering.

pub mod header;
pub mod session;
pub mod tp;
pub mod tp_order;
pub mod traits;
pub mod wire;

pub use header::{MessageType, ReturnCode, SomeIpHeader};
pub use session::SessionIdManager;
pub use traits::{SomeIpDeserialize, SomeIpSerialize, WireReader};
