//! Verified models of three SP1 machine chips: the local memory chip, the Keccak
//! permutation chip and the 256-bit modular multiplication chip.
//!
//! Each chip is described by its column layout, the constraint program its AIR
//! emits (as data, see [`air`]), the decision of whether a shard includes it, and,
//! for the Keccak chip, the trace rows it fills for one permutation event.

pub mod field;
pub mod air;
pub mod record;
pub mod memory_access;
pub mod memory_local;
pub mod keccak;
pub mod uint256;
