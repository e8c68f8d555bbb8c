//! The client side: the server as a client program sees it.

pub mod server;
pub mod ui_event;

pub use server::Server;
pub use ui_event::UIEvent;
