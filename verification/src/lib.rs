//! Otterm, the output librarian: the part of it that decides.
use vstd::prelude::*;

pub mod banner;
pub mod capture;
pub mod disk_laws;
pub mod figures;
pub mod fleet;
pub mod fleet_laws;
pub mod json;
pub mod order;
pub mod outside;
pub mod qr;
pub mod serve;
pub mod serve_laws;
pub mod store;
pub mod store_laws;
pub mod stream;
pub mod stream_laws;
pub mod text;
pub mod text_laws;
pub mod tui;
pub mod web;
pub mod ws;

verus! {

} // verus!
