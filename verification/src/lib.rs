//! A timing-based arcade game with a leaderboard service: falling tiles cross
//! fixed lanes and must be struck while overlapping a hit bar; finished scores
//! can be submitted over a small text wire protocol and reconciled against a
//! per-identity store.
//!
//! The crate holds the verified core: the simulation engine and its session
//! state machine, the wire codec for the client and server packets, the score
//! reconciliation rules of the service, and the client-side interpretation of
//! replies. Rendering, sockets and the backing store are collaborators outside
//! this crate; they exchange plain values with the functions here.
pub mod client;
pub mod codec;
pub mod digits;
pub mod game_state;
pub mod leader_board_stat;
pub mod packet;
pub mod server;
pub mod tile;
