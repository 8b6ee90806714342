//! The parts of the engine, leaves first: epochs and flags, the stack that
//! holds the roster and the parked bags, the coordinator with its
//! participants, and the mathematical account of what they do.

pub mod epoch;
pub mod gc;
pub mod history;
pub mod model;
pub mod stack;
