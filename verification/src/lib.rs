//! Driver for a hardware true-random-number-generator peripheral.
//!
//! The peripheral is modelled as an exclusively owned register handle whose
//! successive status polls are described by a script of status snapshots.
//! Initialization brings the clock tree and the generator up, the word reader
//! polls for one validated 32-bit word or a classified fault, and the byte
//! adapters turn word reads into buffer fills.

pub mod bytes;
pub mod clock;
pub mod device;
pub mod driver;
pub mod error;

pub use clock::ClockControl;
pub use device::{Sample, Status, Trng};
pub use driver::{Rng, RngExt};
pub use error::ErrorKind;
