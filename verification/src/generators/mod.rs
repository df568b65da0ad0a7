//! Project generators, one per supported toolchain.

use vstd::prelude::*;

pub mod rust;

verus! {

/// Generator targeting the Rust toolchain.
#[derive(Debug)]
pub struct RustGenerator;

/// Generator targeting the Python toolchain (not yet implemented).
#[derive(Debug)]
pub struct PythonGenerator;

/// Generator targeting the build2 toolchain (not yet implemented).
#[derive(Debug)]
pub struct Build2Generator;

} // verus!
