//! Verified core of a URL redirector for an IL2CPP game client.

#![allow(non_snake_case)]

pub mod codepage;
pub mod config;
pub mod document;
pub mod host;
pub mod il2cpp;
pub mod redirect;
pub mod scan;
pub mod text;
pub mod utf16;
