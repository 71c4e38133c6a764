//! Core of the Hearth runtime: capability tables, mailboxes, lump and asset
//! stores, the service registry and the encrypted peer transport.

pub mod asset;
pub mod auth;
pub mod capability;
pub mod component;
pub mod daemon;
pub mod directory;
pub mod encryption;
pub mod fs;
pub mod loaders;
pub mod lump;
pub mod mailbox;
pub mod mailbox_laws;
pub mod offer;
pub mod palette;
pub mod peer;
pub mod permissions;
pub mod pid;
pub mod process;
pub mod process_laws;
pub mod query;
pub mod registry;
pub mod request;
pub mod runtime;
pub mod schema;
pub mod terminal;
pub mod time;
pub mod widgets;
pub mod world;
