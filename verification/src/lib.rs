//! Keyboard input capture and symbolic decoding pipeline.
//!
//! The library holds the verified core of the pipeline: parsing the input
//! device registry for keyboard event nodes, deciding what a raw key event
//! does to the translator state, building modifier prefixes, and folding
//! accepted key presses into a rolling display phrase.

pub mod phrase;
pub mod registry;
pub mod session;
pub mod translate;
