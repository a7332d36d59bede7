//! Deterministic amount commitments, per-account privacy levels and an
//! escrow-id registry, with their contracts proved by Verus.

pub mod commitment;
pub mod contract;
pub mod encoding;
pub mod host;
