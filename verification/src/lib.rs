//! Generators backed by the `rdrand` and `rdseed` processor instructions.
//!
//! The processor is reached through the [`Hardware`] interface, and a
//! [`Processor`] keeps the record of everything that is asked of it. What
//! detection finds, what a draw with bounded retry returns and what the
//! filling of a byte buffer writes are stated over that record, for every
//! processor, and over the script of a processor whose answers are fixed in
//! advance, such as [`Scripted`].
pub mod detector;
pub mod errors;
pub mod filler;
pub mod generator;
pub mod hardware;
pub mod invoker;
pub mod layout;
pub mod script;
pub mod scripted;

pub use errors::{ErrorCode, NotAnErrorCode};
pub use generator::{RdRand, RdSeed};
pub use hardware::{CpuidResult, Event, Hardware, Instruction, Processor, Target, Width};
pub use script::Script;
pub use scripted::Scripted;
