//! The decisions of a disk installer, verified: which disks may be offered, which images
//! may be installed, and which commands an installation runs, in which order.

pub mod backend;
pub mod bootloader;
pub mod command;
pub mod copying;
pub mod disk_laws;
pub mod disks;
pub mod display;
pub mod effects;
pub mod image_laws;
pub mod images;
pub mod install;
pub mod install_failures;
pub mod install_laws;
pub mod install_success;
pub mod layout;
pub mod loader_laws;
pub mod machine;
pub mod mock;
pub mod mounting;
pub mod number;
pub mod path;
pub mod sbc;
pub mod sbc_laws;
pub mod session;
pub mod settings;
pub mod settings_laws;
pub mod split;
pub mod terminal;
pub mod text;
pub mod text_laws;
pub mod walk;
