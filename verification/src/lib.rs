//! A verified conversation core for a chat-completion client: an append-only
//! ledger of turns with listener broadcast, a strict line codec for the
//! durable session log, and the driver state machine that sequences a
//! conversation in interactive or batch mode.

pub mod codec;
pub mod driver;
pub mod ledger;
pub mod listeners;
pub mod turn;
