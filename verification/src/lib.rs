//! Context-aware deserialization for structured data.
//!
//! Decoding a value sometimes needs information that is not part of the
//! encoded input itself: a protocol version, a schema table, a fork
//! identifier.  This crate provides the [`ContextDeserialize`] capability,
//! which extends plain decoding by threading a caller-supplied context value
//! of an arbitrary type `C` through an arbitrarily nested decode.
//!
//! The crate is organised around a small decode protocol ([`Decoder`] over a
//! stream of [`Token`]s) that stands for the underlying decoding framework:
//! leaves read single tokens, sequences are visited one element at a time
//! through a single-use seed, and every decode either yields a value or a
//! [`DecodeError`].  On top of it stand:
//!
//! - scalar leaf implementations that accept and ignore the context;
//! - an ownership-forwarding implementation for `Arc`;
//! - the sequence composition for `Vec`, which hands every element decode a
//!   fresh duplicate of the shared context;
//! - domain leaves: a fixed-capacity vector that is rebuilt from a decoded
//!   dynamic sequence, and a self-describing bit-field that ignores the
//!   context entirely;
//! - the planning half of a code-generation facility that emits
//!   context-oblivious implementations for types that never consult the
//!   context.

mod codegen;
mod decode;
mod domain;
mod scalars;
mod sequence;
mod token;
mod wrapper;

pub use codegen::{
    context_deserialize_oblivious, error_matches, lemma_oblivious_context_free, needs_de_lifetime,
    plan_context_impls, plan_outcome, plan_rest, where_clause_ok, AttrArg, AttrValue, CodegenError,
    ImplPlan, PlanError,
};
pub use decode::{CloneContext, ContextDeserialize, PlainDeserialize};
pub use domain::{
    lemma_fixed_vector_cardinality, lemma_fixed_vector_wrong_length, Bitfield, FixedVector,
};
pub use scalars::{
    encode_bool, encode_i128, encode_i16, encode_i32, encode_i64, encode_i8, encode_u128,
    encode_u16, encode_u32, encode_u64, encode_u8, lemma_round_trip_bool, lemma_round_trip_i128,
    lemma_round_trip_i16, lemma_round_trip_i32, lemma_round_trip_i64, lemma_round_trip_i8,
    lemma_round_trip_u128, lemma_round_trip_u16, lemma_round_trip_u32, lemma_round_trip_u64,
    lemma_round_trip_u8,
};
pub use sequence::{
    concat_encodings, decode_sequence, seq_decode_error, lemma_seq_decode_preserves_order, lemma_seq_decodes_deterministic,
    lemma_seq_decodes_extends, lemma_seq_decodes_wf, lemma_vec_decode_preserves_order,
    seq_decodes_to, seq_deep_view, ContextSeed,
};
pub use token::{DecodeError, Decoder, Token};
pub use wrapper::lemma_arc_decode_transparent;
