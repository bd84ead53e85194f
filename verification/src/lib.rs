//! A minimal state-transition processor for a persistent, externally-addressed
//! record: an instruction codec, an account-state codec, and a request
//! processor that decodes an instruction, checks the caller's authority over a
//! storage region, applies a deterministic update, and writes the new state
//! back into the region.

pub mod error;
pub mod instruction;
pub mod processor;
