//! Reading, editing and writing the binary shortcut registry of a game
//! launcher, and normalising launch-argument strings for its entries.
//!
//! - [`shortcut`]: the entries and the ordered collection of them.
//! - [`encode`] and [`decode`]: the byte format, both ways; [`round_trip`]
//!   proves that reading back what was written gives the same entries.
//! - [`launch_options`]: the launch-argument tokenizer.
//! - [`desktop_file`], [`flatpak`], [`app_id`], [`steam`], [`config`]: what
//!   the tool around the registry computes from desktop entries, the store's
//!   application list and the login-users file.

pub mod app_id;
pub mod config;
pub mod decode;
pub mod desktop_file;
pub mod encode;
pub mod flatpak;
pub mod launch_options;
pub mod parsing_error;
pub mod round_trip;
pub mod shortcut;
pub mod steam;
pub mod text;
