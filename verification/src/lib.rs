//! Streaming parser for H.264/AVC Annex-B elementary streams.
//!
//! Bytes go in through [`AnnexBParser::push`]; access units, each with its
//! NAL units and what their headers say, come out of
//! [`AnnexBParser::next_access_unit`].

pub mod au;
pub mod bitreader;
pub mod bytescan;
pub mod eg;
pub mod error;
pub mod nal;
pub mod parser;
pub mod pps;
pub mod sei;
pub mod slice;
pub mod sps;
pub mod syntax;

pub use au::{AccessUnit, AccessUnitKind};
pub use error::Error;
pub use nal::{Nal, NalUnitType};
pub use parser::AnnexBParser;
pub use pps::Pps;
pub use sps::Sps;
