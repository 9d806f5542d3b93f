//! What the operations are for, stated on what goes into them and what comes
//! out.

pub mod boot_cleanup;
pub mod bootloader;
pub mod cross_base;
pub mod desktop;
pub mod etc;
pub mod image;
pub mod install;
pub mod migration;
pub mod network;
pub mod preflight;
pub mod rebase;
pub mod remap;
pub mod reports;
pub mod staging;
pub mod text;
pub mod trial;
