pub mod clipboard;
pub mod crypto;
pub mod records;
pub mod store;
pub mod usage;

pub use crate::crypto::CodecError;
pub use crate::store::Wallet;
pub use crate::usage::Command;
pub use crate::usage::CommandHelp;
pub use crate::usage::Usage;
