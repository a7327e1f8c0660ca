//! Connection core of a display-protocol client: the registry of server-side
//! resources, the guard that frees them, and the multiplexer that assigns
//! sequence numbers and routes replies, errors and events.

pub mod async_traits;
pub mod guard;
pub mod multiplexer;
pub mod ordering;
pub mod resources;
