//! Core logic of a desktop browser shell: the privacy-mode policy engine,
//! the tiered tab-snapshot store, tab bookkeeping, stability guards and
//! text helpers, each with a verified contract.

pub mod privacy;
pub mod snapshot;

pub mod browser;
pub mod state;
pub mod stability;
pub mod llama;
pub mod shortcuts;

pub mod adblock;
pub mod agent;
pub mod chunker;
pub mod extract;
pub mod page_extractor;
pub mod search;
pub mod security;

pub mod clock;
pub mod keyed;
pub mod text;
