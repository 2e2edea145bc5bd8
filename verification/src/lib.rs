//! Builds flash memory blocks from a declarative layout: a tree of typed
//! fields is laid out into an aligned byte image, a CRC-32 is placed, and the
//! result is written as Intel HEX or Motorola S-record text.

pub mod args;
pub mod commands;
pub mod error;
pub mod hex;
pub mod layout;
pub mod output;
pub mod variant;
pub mod visuals;
pub mod writer;
