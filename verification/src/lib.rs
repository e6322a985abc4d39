//! Core of a dynamically reconfigurable TCP reverse proxy: the control
//! orders and their JSON codec, the routing tables, the handle-range
//! bookkeeping, the back-end accounting, and the per-session
//! forwarding state machine.  Socket work stays outside; every
//! decision in here is verified.

pub mod backend;
pub mod buffer;
pub mod codec;
pub mod events;
pub mod json;
pub mod messages;
pub mod routing;
pub mod server;
pub mod session;
pub mod slab;
pub mod wire;
