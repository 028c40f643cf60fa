//! Embedding construction, batching and masked-token decoding for a
//! MobileBERT-style encoder, over fixed-point numbers.
//!
//! Every numeric value is an `i32` holding a Q16.16 fixed-point number (see
//! [`fixed`]); every array is a rectangular nest of `Vec`s whose shape is an
//! invariant of its type. The data flows through the modules in this order:
//! [`batch`] pads token-id sequences into a rectangle, [`embeddings`] turns the
//! rectangle into hidden vectors (through [`table`], [`trigram`],
//! [`projector`], [`normalizer`] and [`dropout`]), and [`decoder`] picks the
//! best-scoring id at chosen positions of a score array.
pub mod error;
pub mod fixed;
pub mod batch;
pub mod tensor;
pub mod trigram;
pub mod table;
pub mod projector;
pub mod normalizer;
pub mod dropout;
pub mod decoder;
pub mod embeddings;
