//! Deterministic derivation of a point on the Stark curve, for use as a
//! virtual-machine marker handler.
//!
//! The handler reads five field elements from VM memory — a point p, a
//! scalar m and a point q — hashes their 160-byte big-endian encoding with
//! SHA-256, and rejection-samples x candidates from the digest until one
//! satisfies the curve equation y² = x³ + αx + β over the 252-bit prime
//! field. The matching y is recovered by a Tonelli–Shanks square root and
//! signed by the digest's leading bit; the point is then written back to two
//! consecutive memory cells.
//!
//! Every function is specified against a mathematical model: byte strings
//! are read as integers by `bytes::be_val`, the derivation pipeline is the
//! spec function `ec::derive_point`, and the handler's effect on memory is
//! the spec function `hint::hint_outcome`. Big-integer arithmetic is
//! delegated to num-bigint and hashing to sha2 through small trusted
//! wrappers whose contracts state exactly what those crates document.

use vstd::prelude::*;

pub mod bytes;
pub mod bigint;
pub mod hash;
pub mod field;
pub mod sqrt;
pub mod errors;
pub mod ec;
pub mod vm;
pub mod hint;

verus! {

} // verus!
