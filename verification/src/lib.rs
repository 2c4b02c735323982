use vstd::prelude::*;

pub mod text;
pub mod table;
pub mod entity;
pub mod permission;
pub mod controller;
pub mod capability;
pub mod provider;
pub mod db;
pub mod extension;
pub mod mcp;

verus! {

/// The version of this package.
pub const PACKAGE_VERSION: &'static str = "0.1.0";

} // verus!
