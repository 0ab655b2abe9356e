//! Resolves an MPEG-DASH manifest into the absolute URLs of the segments
//! that make up each of its representations.
pub mod agreement;
pub mod model;
pub mod mpd;
pub mod parser;
pub mod segments;
pub mod template;
pub mod text;
pub mod xml;
