//! Anchor-based field extraction over byte documents.
//!
//! A document is scanned for literal landmark tokens ("anchors") instead of
//! being parsed: `find` locates a token, `nth_occurrence` picks a repeated
//! marker, an `AnchorChain` resolves an ordered run of tokens to one offset,
//! `extract` cuts the bytes between two resolved chains, and `locate_item`
//! threads a cursor through three extractions of one listing item.
pub mod scanner;
pub mod chain;
pub mod extract;
pub mod locate;
pub mod post;
pub mod sample;
