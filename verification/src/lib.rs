//! Pogoot: the rules of a multiplayer quiz game, its wire protocol, note-card
//! storage and the account bookkeeping around them, with their contracts.
#![allow(non_camel_case_types, non_snake_case)]
pub mod payload;
pub mod protocol;
pub mod quiz;
pub mod accounts;
pub mod compression;
pub mod counting;
pub mod dashboard;
pub mod drill;
pub mod game;
pub mod notecards;
pub mod ids;
pub mod login;
pub mod records;
pub mod sessions;
pub mod split;
pub mod storage;
pub mod text;
pub mod token_storage;
pub mod util;
pub mod viewport;
