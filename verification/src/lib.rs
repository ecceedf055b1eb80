//! Client-side engine for the RCON remote-administration protocol, together
//! with the lobby and server bookkeeping that supplies its connection targets.

pub mod lobby;
pub mod rcon;
pub mod server;
pub mod vu;
