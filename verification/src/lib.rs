//! netdd: a `dd`-style byte mover whose endpoints may be local files or TCP
//! peers. This library holds the verified core: specifier resolution,
//! argument classification, and the copy-loop state machine. The surrounding
//! binary performs the actual file and socket I/O.

pub mod cli;
pub mod endpoint;
pub mod transfer;
