//! The manifest of a game: what a cartridge is built from.
use vstd::prelude::*;

verus! {

/// The fields of a manifest, as they stand in its file.
#[derive(Debug, Default)]
pub struct Manifest {
    pub id: String,
    pub name: String,
    pub author: String,
    pub version: String,
    pub build: u32,
    pub main_code: String,
    pub min_maikor_version: u16,
    pub code_files: Vec<String>,
    pub atlas_files: Vec<String>,
    pub ram_banks: u8,
}

} // verus!
