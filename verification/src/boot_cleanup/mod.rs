//! Cleaning up UEFI boot entries.
//!
//! [`plan`] decides which entries may be deleted or renamed, and refuses with
//! a reason. [`live`] turns an approved plan into steps against NVRAM, and
//! keeps the record that makes them reversible.

pub mod live;
pub mod plan;
