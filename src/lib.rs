//! Bridge between a game server's console and a chat platform: the log-line
//! grammar, the online-player registry, the voice-presence edge detector, the
//! remote-instance power controller and the central event dispatcher.
pub mod text;
pub mod state;
pub mod event;
pub mod presence;
pub mod power;
pub mod dispatch;
