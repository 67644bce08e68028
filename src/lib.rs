//! Server side of a number-guessing session: the message vocabulary shared by
//! participants, the administrator and the server, the registry of live
//! connections, and the routing state machine that reacts to each event.

pub mod protocol;
pub mod registry;
pub mod server;
pub mod laws;
pub mod console;
