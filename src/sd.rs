//! SOME/IP Service Discovery: entries, options, packets and the offer /
//! find / subscribe state machine.

pub mod entries;
pub mod options;
pub mod packet;
pub mod machine;

pub use entries::{EntryType, SdEntry};
pub use options::SdOption;
pub use packet::SdPacket;
