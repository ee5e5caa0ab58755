//! Room engine for real-time multiplayer typing races.
//!
//! Every room walks a lobby, countdown, race and finished lifecycle for a mix
//! of human and simulated players. The engine is written as a pure state
//! machine: each operation takes the events of the outside world as plain
//! values and hands back the messages to publish, in order.

pub mod bots;
pub mod clock;
pub mod fsm;
pub mod ingest;
pub mod inputs;
pub mod laws;
pub mod model;
pub mod normalize;
pub mod passages;
pub mod player;
pub mod protocol;
pub mod registry;
pub mod room;
pub mod scoring;
pub mod table;
pub mod text;
pub mod typing;
