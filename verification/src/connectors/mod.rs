//! Sending a raw request to a target and collecting whatever comes back.

pub mod reply;
pub mod vm_gost;

pub use reply::{ReadFailure, ReplyProgress, ReplyReader};
pub use vm_gost::{host_gost_command, vm_gost_command, CommandLine, GostReply, NoReply};
