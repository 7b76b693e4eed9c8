//! CBOR-Web: a verified library for the CBOR-Web document format.
use vstd::prelude::*;

pub mod value;
pub mod codec;
pub mod canonical;
pub mod text;
pub mod digest;
pub mod lookup;
pub mod json;
pub mod content;
pub mod crawl;
pub mod ledger;
pub mod server;
pub mod clock;
pub mod telemetry;
pub mod describe;
pub mod site;
pub mod html;
pub mod page;
pub mod generate;
pub mod render;
pub mod report;
pub mod saas;
pub mod portal;
pub mod vectors;
pub mod readback;
pub mod laws;
pub mod audit;
pub mod collect;
pub mod content_laws;

verus! {
} // verus!
