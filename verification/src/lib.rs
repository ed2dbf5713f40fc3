//! A bidirectional codec for HEF, a line-oriented interchange format that
//! describes an assembly of linear structural elements ("slats") in 3D
//! space, together with opaque caller metadata and a per-axis scale.
//!
//! Every coordinate travels as its validated numeric text token, so the
//! codec round-trips documents losslessly; parsing and serialization are
//! specified against sequence-level definitions, and the round trip is a
//! proved law (`model::lemma_round_trip`). Floating-point length
//! derivations are left to callers, which hand computed length texts back
//! for the bill of materials.
pub mod chars;
pub mod cli;
pub mod error;
pub mod geometry;
pub mod model;
pub mod num;
pub mod slat;
pub mod text;
