//! The common parts of a remote desktop server.
//!
//! - `listen`, `address` and `address_text`: where the server and its console listen.
//! - `args` and `environment`: how its arguments are set and found.
//! - `servers`: which of the servers in a setting are valid.
//! - `clock` and `update`: points in time, and news of later releases.
//! - `gen_sk`: how the server gets its key. The steps are in `key_path`, `key_permissions`,
//!   `private_key`, `public_key` and `link_target`, what they ask of the file system is in `key_files`, and what
//!   they do to files is in `key_world`. `key_messages` says what is told where they fail.
//! - `secret_key`, `base64_text`, `temporary_name` and `text`: keys, names and texts.
//!
//! What the functions are for is stated as laws: in the modules themselves, and in `text_laws`,
//! `secret_key_laws`, `args_laws`, `key_laws` and `message_laws`.

pub mod address;
pub mod address_text;
pub mod args;
pub mod args_laws;
pub mod base64_text;
pub mod clock;
pub mod environment;
pub mod gen_sk;
pub mod key_files;
pub mod key_laws;
pub mod key_messages;
pub mod key_path;
pub mod key_permissions;
pub mod key_world;
pub mod link_target;
pub mod listen;
pub mod message_laws;
pub mod private_key;
pub mod public_key;
pub mod secret_key;
pub mod secret_key_laws;
pub mod servers;
pub mod temporary_name;
pub mod text;
pub mod text_laws;
pub mod update;
