//! Reading and writing Maikor cartridge, palette and atlas files.
//!
//! Every codec in this crate works on bytes that are already in memory. A
//! reader is anything that implements [`file_utils::ReaderExt`]; the crate's own
//! reader is [`file_utils::ByteReader`].
pub mod atlas_file;
pub mod constants;
pub mod error;
pub mod file_utils;
pub mod game_file;
pub mod game_file_summary;
pub mod game_header;
pub mod manifest;
pub mod palette;
pub mod read_write_impl;
pub mod text;

pub use crate::error::{GameFileError, GameFileErrorView};
pub use crate::game_file::{GameFile, GameFileView};
pub use crate::game_file_summary::{GameFileSummary, GameFileSummaryView};
pub use crate::game_header::{GameFileHeader, GameFileHeaderView};
pub use crate::constants::{
    ATLAS_BANK, ATLAS_SPRITE_SIZE, CODE_BANK, CONTROLLER_COUNT, CONTROLLER_GRAPHICS_BANK,
    FILE_FORMAT_VER, ID_HEADER, MAIKOR_HEADER_LENGTH, MAIN_CODE, MAX_FILE_SIZE, MAX_STRING_LEN,
    MIN_FILE_SIZE, RAM_BANK,
};
