//! Reader for PlayStation 2 virtual memory card images: superblock,
//! file allocation table, cluster chains, directory entries and file
//! contents, with the save-name helpers used to present what it finds.

pub mod bytes;
pub mod catalog;
pub mod dir_entry;
pub mod error;
pub mod fat;
pub mod loader;
pub mod superblock;
pub mod title;
pub mod vmc;

pub use bytes::{bytes_to_string, le_u16, le_u32};
pub use catalog::{search_title_entries, title_entry_matches, TitleEntry};
pub use dir_entry::{decode_entry, parse_fs_entry_from_bytes, FSEntry, RawFSEntry};
pub use error::VmcError;
pub use fat::{fat_flag, fat_next, FatTable, INVALID_CLUSTER_PTR};
pub use loader::load_fat;
pub use superblock::{has_vmc_magic, VmcSuperblock};
pub use title::{
    contains_text, count_unique_games, extract_game_id_from_save, game_title_for, get_game_title, is_shown_suffix,
    split_suffix, ExtractedId,
};
pub use vmc::{is_dot_entry_name, Vmc};
