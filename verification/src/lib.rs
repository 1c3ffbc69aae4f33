pub mod checksum;
pub mod patch;
pub mod rom_filesystem;
pub mod rom_manager;
pub mod rom_watcher;
pub mod text;
pub mod utils;
