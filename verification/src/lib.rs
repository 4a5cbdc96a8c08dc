//! The metadata and tracker-discovery core of a BitTorrent client.
//!
//! The crate turns the bytes of a torrent descriptor into a validated
//! metadata model, derives the 20-byte info hash of its `info` section,
//! classifies tracker URLs, and lays out the 98-byte UDP announce request.
//! Every function is verified against the contract written on it.
#![allow(non_snake_case)]

pub mod wire;
pub mod announce;
pub mod tracker;
pub mod bencode;
pub mod parse;
pub mod digest;
pub mod metadata;
pub mod decode;
pub mod roundtrip;
pub mod laws;
pub mod key_order;
pub mod files_view;
