//! Passive decoding of a realtime game's UDP traffic: the typed value codec,
//! the command framer, the schema binder, the world model that turns decoded
//! messages into stable game events, and the sessions that the statistics
//! are drawn from.

pub mod cursor;
pub mod codec;
pub mod framing;
pub mod ids;
pub mod messages;
pub mod events;
pub mod party;
pub mod world;
pub mod combat;
pub mod pipeline;
pub mod item_table;
pub mod meter;
