//! Conversion between a game-agnostic chart package and the bundle format of a
//! lane-based rhythm game: a content-addressed resource store, the timing-list
//! merge and split, the lane/coordinate algebra, and the decoding and encoding
//! of single charts against a plain record of the chart text's fields.
pub mod bundle;
pub mod chart;
pub mod collect;
pub mod decoder;
pub mod encoder;
pub mod error;
pub mod file_pool;
pub mod lane;
pub mod naming;
pub mod number_text;
pub mod path_index;
pub mod resource;
pub mod timing;
pub mod traits;
pub mod types;
