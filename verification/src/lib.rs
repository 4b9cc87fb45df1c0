use vstd::prelude::*;

pub mod export_path;
pub mod matcher;
pub mod prompt_blocks;
pub mod prompt_cache;
pub mod prompt_keys;
pub mod prompt_manager;
pub mod prompt_types;
pub mod text;
pub mod timestamp;
pub mod windows_path;

verus! {
} // verus!
