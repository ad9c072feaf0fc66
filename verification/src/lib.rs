//! Verified core of a small WebDAV/Nextcloud file-sync tool: URL coding,
//! PROPFIND response interpretation, remote listing, push and pull planning,
//! credential handling and the texts shown to the user.

pub mod text;
pub mod urlcode;
pub mod webdav;
pub mod propfind;
pub mod listing;
pub mod db;
pub mod pull;
pub mod plan;
pub mod push;
pub mod keyring;
pub mod ui;

