//! Contracts that the library takes on trust from the outside crates it
//! calls. Each item names the outside function it stands for; nothing here
//! is proved, everything else in the crate is proved against these.
pub mod hashing;
pub mod maps;
pub mod queues;
pub mod text;
pub mod uring;
