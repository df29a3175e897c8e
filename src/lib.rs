//! Session logic of a terminal process monitor: a snapshot of processes,
//! its sorted and filtered view, the selection, and the key-driven modes
//! that search and end processes. Pulling snapshots, ending processes and
//! drawing are left to the caller.
pub mod song;
pub mod text;
pub mod process;
pub mod app;
pub mod laws;
