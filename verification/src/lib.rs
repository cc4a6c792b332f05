//! Detection of exposure to the Terrapin prefix-truncation attack from the
//! opening messages of an SSH transport connection.
//!
//! The library works on bytes that have already been received: it finds the
//! peer's identification line, frames binary packets, decodes the first
//! `SSH_MSG_KEXINIT` and derives the findings from the algorithm lists in it.

pub mod banner;
pub mod connection;
pub mod error;
pub mod kex_init;
pub mod name_list;
pub mod packet;
pub mod report;
pub mod scan;
pub mod split;
pub mod std_specs;
pub mod text;
pub mod wire;
