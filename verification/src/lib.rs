//! A verified coordinator for synchronized group playback on top of a
//! personal media server: rooms and their access rules, the playback
//! state machine with its drift-free position arithmetic, the ready
//! consensus, the wire protocol with a proven encode/decode round
//! trip, the upstream-session token resolver, and the transcode
//! decision protocol. The HTTP and WebSocket transport around it is
//! ordinary glue and lives outside the library.

pub mod auth;
pub mod codec;
pub mod config;
pub mod http_error;
pub mod plex;
pub mod queue;
pub mod room;
pub mod store;
pub mod strutil;
pub mod subtitles;
pub mod transcode;
pub mod websocket;
