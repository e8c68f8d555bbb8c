//! The server side: the peers it serves and the broadcast loop.

pub mod client;
pub mod delivery;
pub mod listener;
pub mod server;

pub use client::{Client, ClientView};
pub use listener::{Listener, ListenerView};
pub use server::{IdGen, Server, ServerView};
