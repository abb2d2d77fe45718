//! Verified core of `suiup`, the installer and version manager for the Sui
//! tool binaries: the binary registry, version and component parsing, the
//! installed-binaries and default-version records, release selection and the
//! decisions that the command-line front end carries out.

pub mod text;
pub mod sort;
pub mod registry;
pub mod types;
pub mod commands;
pub mod standalone;
pub mod handlers;
pub mod component;
pub mod paths;
