//! The verified core of a terminal and transcript server: the pane link's
//! framing, the joins of successive screen reads, key encoding, the terminal
//! grid, and the readers that turn an agent's records into turns.
pub mod bytes;
pub mod paths;
pub mod terminal;
pub mod text;
pub mod transcript;
