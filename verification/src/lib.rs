//! The logic of a bridge between assistants and the files, note vaults and remote
//! services that a user wants to share with them.
//!
//! Assistants speak JSON-RPC to local servers: one for a folder (`filesystem_server`),
//! one for a vault of notes (`obsidian_fs_server`), and one that passes requests on to
//! a remote service (`proxy_server`). The bridge issues and checks tokens
//! (`incoming_auth`), signs in to remote services (`oauth`), can be reached through a
//! tunnel (`tunnel`) and keeps a record of what it was asked to do (`audit`).
//!
//! The library does no input or output. Where a function needs something of the host, a
//! file or an answer from the network, it returns a step that names it, and another
//! function goes on with the answer.

pub mod audit;
pub mod commands;
pub mod cors;
pub mod crypto;
pub mod dir_cache;
pub mod error;
pub mod file_server;
pub mod filesystem_server;
pub mod forms;
pub mod frontmatter;
pub mod global_server;
pub mod headers;
pub mod host;
pub mod incoming_auth;
pub mod json;
pub mod limits;
pub mod listing;
pub mod models;
pub mod notes;
pub mod oauth;
pub mod obsidian_fs_server;
pub mod outline;
pub mod periodic;
pub mod port_manager;
pub mod proxy_server;
pub mod rpc;
pub mod search;
pub mod security;
pub mod server_manager;
pub mod sorting;
pub mod string_map;
pub mod tags;
pub mod text;
pub mod tls;
pub mod tool_defs;
pub mod tools;
pub mod tunnel;
