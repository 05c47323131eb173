//! Sizes and markers of the file formats.
//!
//! The bank sizes are those of the Maikor platform. Array types need their
//! length as a literal, so the lengths are written out here; [`platform`]
//! hands out the values that the platform crate declares, for the places
//! where a size is used at run time.
use vstd::prelude::*;

verus! {

/// Length in bytes of the main code block.
pub const MAIN_CODE: usize = 9000;

/// Length in bytes of one code bank.
pub const CODE_BANK: usize = 4200;

/// Length in bytes of one RAM bank.
pub const RAM_BANK: usize = 4200;

/// Length in bytes of one atlas bank.
pub const ATLAS_BANK: usize = 4000;

/// Length in bytes of the controller graphics for one controller type.
pub const CONTROLLER_GRAPHICS_BANK: usize = 88;

/// Number of controller types, each of which has its own graphics bank.
pub const CONTROLLER_COUNT: usize = 9;

/// Width in bytes of one atlas tile.
pub const ATLAS_TILE_WIDTH: usize = 4;

/// Height in bytes of one atlas tile.
pub const ATLAS_TILE_HEIGHT: usize = 8;

/// Length in bytes of one sprite image of an atlas file.
pub const ATLAS_SPRITE_SIZE: usize = ATLAS_TILE_HEIGHT * ATLAS_TILE_WIDTH;

/// The two bytes that every cartridge file starts with.
pub const ID_HEADER: [u8; 2] = [0xFD, 0xA1];

/// The only file format version that this crate reads and writes.
pub const FILE_FORMAT_VER: u8 = 1;

/// Greatest length in bytes of a text field of the header.
pub const MAX_STRING_LEN: usize = 255;

/// Length in bytes of the fixed part of a header.
pub const MAIKOR_HEADER_LENGTH: usize = 16;

/// Smallest size in bytes of a file that can be a cartridge.
pub const MIN_FILE_SIZE: u64 = MAIKOR_HEADER_LENGTH as u64 + CODE_BANK as u64 + 3;

/// Greatest size in bytes of a cartridge: every bank type 255 times.
pub const MAX_FILE_SIZE: u64 = ATLAS_BANK as u64 * 255 + CODE_BANK as u64 * 255 + RAM_BANK as u64 * 255
    + CONTROLLER_GRAPHICS_BANK as u64 * 9 + MIN_FILE_SIZE;

/// The sizes that the platform crate declares.
pub struct Platform {
    pub main_code: usize,
    pub code_bank: usize,
    pub ram_bank: usize,
    pub atlas_bank: usize,
    pub controller_graphics_bank: usize,
    pub controller_count: usize,
    pub atlas_tile_width: usize,
    pub atlas_tile_height: usize,
}

impl Platform {
    /// The sizes as this crate's array types have them.
    pub open spec fn literal() -> Platform {
        Platform {
            main_code: MAIN_CODE,
            code_bank: CODE_BANK,
            ram_bank: RAM_BANK,
            atlas_bank: ATLAS_BANK,
            controller_graphics_bank: CONTROLLER_GRAPHICS_BANK,
            controller_count: CONTROLLER_COUNT,
            atlas_tile_width: ATLAS_TILE_WIDTH,
            atlas_tile_height: ATLAS_TILE_HEIGHT,
        }
    }
}

/// Reads the constants `MAIN_CODE`, `CODE_BANK`, `RAM_BANK`, `ATLAS` and
/// `CONTROLLER_GRAPHICS` of `maikor_platform::mem::sizes`,
/// `maikor_platform::input::controller_type::COUNT`, and `ATLAS_TILE_WIDTH` and
/// `ATLAS_TILE_HEIGHT` of `maikor_platform::constants`.
///
/// Trusted: the contract claims that these eight constants have the values
/// 9000, 4200, 4200, 4000, 88, 9, 4 and 8, which are the lengths written out
/// at the top of this file.
#[verifier::external_body]
pub(crate) fn platform() -> (sizes: Platform)
    ensures
        sizes == Platform::literal(),
{
    Platform {
        main_code: maikor_platform::mem::sizes::MAIN_CODE as usize,
        code_bank: maikor_platform::mem::sizes::CODE_BANK as usize,
        ram_bank: maikor_platform::mem::sizes::RAM_BANK as usize,
        atlas_bank: maikor_platform::mem::sizes::ATLAS as usize,
        controller_graphics_bank: maikor_platform::mem::sizes::CONTROLLER_GRAPHICS as usize,
        controller_count: maikor_platform::input::controller_type::COUNT,
        atlas_tile_width: maikor_platform::constants::ATLAS_TILE_WIDTH,
        atlas_tile_height: maikor_platform::constants::ATLAS_TILE_HEIGHT,
    }
}

} // verus!
