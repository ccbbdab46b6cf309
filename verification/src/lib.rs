//! The decision logic of an orbital data node: a crash-consistent vault, a priority
//! transmission queue with eviction, delay-tolerant chunking, a virtual clock and a
//! power governor.

mod calls;
pub mod clock;
pub mod double;
pub mod dtn;
pub mod eviction;
pub mod heap;
pub mod hexcode;
pub mod ingest;
pub mod orbit;
pub mod paths;
pub mod priority;
pub mod recovery;
pub mod recovery_laws;
pub mod sealing;
pub mod serde_bytes_compat;
pub mod sorting;
pub mod storage;
pub mod supervisor;
pub mod text;
pub mod timestamp;
pub mod vault;
