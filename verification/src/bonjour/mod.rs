pub mod carplay_ctrl;
pub mod dns_parse;
pub mod dns_query;
pub mod mdns_coder;
pub mod packet;
pub mod types;
pub mod resolve;
pub mod registry;
