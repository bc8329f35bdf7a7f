pub mod server;
pub mod now_playing;
pub mod identity;
pub mod wireless;
pub mod client_gadget;
pub mod client_session;
