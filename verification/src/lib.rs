//! Conflict-free replicated data types: G-Counter, PN-Counter, G-Set, OR-Set, LWW-Register.
pub mod gcounter;
pub mod gset;
pub mod lawful;
pub mod lww;
pub mod orset;
pub mod pncounter;

pub use gcounter::GCounter;
pub use gset::GSet;
pub use lww::LWWRegister;
pub use orset::ORSet;
pub use pncounter::PNCounter;
