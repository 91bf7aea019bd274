//! A real-time message broadcast hub: a registry of live connections with
//! per-connection ordered outbound queues, an identifier allocator, an
//! envelope enricher, a broadcaster that fans a message out to every
//! registered connection, and a per-connection session lifecycle state
//! machine. Beside the hub live the podcast feed reader, the sudoku
//! solver and the lottery draw that share this crate.

pub mod articles;
pub mod envelope;
pub mod feed;
pub mod hub;
pub mod ids;
pub mod lotto;
pub mod laws;
pub mod msg;
pub mod podcast;
pub mod registry;
pub mod session;
pub mod sudoku;
