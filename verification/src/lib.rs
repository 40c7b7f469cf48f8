//! Verified game logic of a peer-to-peer clicker: counters, lobby join
//! handshake, score merging and the per-frame decisions of the game systems.
pub mod click_counter;
pub mod game_plugin;
pub mod model;
pub mod topics;
pub mod wire;
pub mod lobby;
pub mod tombstones;
pub mod digest;
pub mod idset;
pub mod systems;
pub mod scores;
pub mod seqs;
pub mod text;
pub mod laws;
pub mod score_laws;
