//! Byte-alignment accounting for packing variable-length pieces into a
//! fixed-capacity sector.
//!
//! A piece placed after `written_bytes` already-committed bytes must start and
//! end on a boundary of its alignment quantum: the smallest value of the form
//! `127 * 2^k` that holds the piece. This crate computes the left and right
//! zero padding that places a piece on such a boundary, accumulates aligned
//! byte totals over an ordered sequence of pieces, and builds the padded byte
//! stream (left zeros, piece bytes, right zeros) for in-memory sources.

pub mod bytes_amount;
pub mod metadata;
pub mod pieces;
pub mod stream;
