//! Where file keys come from.
pub mod sequencer;
pub mod memory_sequencer;

pub use self::memory_sequencer::MemorySequencer;
pub use self::sequencer::Sequencer;
