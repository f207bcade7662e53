//! The core of a small DNS server: the wire codec over octet buffers, a
//! record cache, an authority store and the decisions of an iterative
//! resolver, each with a contract that is proved.
pub mod addr;
pub mod addr_laws;
pub mod authority;
pub mod authority_laws;
pub mod buffer;
pub mod cache;
pub mod cache_laws;
pub mod chance;
pub mod codec_laws;
pub mod errors;
pub mod labels;
pub mod name_laws;
pub mod names;
pub mod packet;
pub mod packet_laws;
pub mod parse;
pub mod protocol;
pub mod requests;
pub mod resolver;
pub mod resolver_laws;
pub mod routes;
pub mod select;
pub mod server;
pub mod stores;
pub mod text;
pub mod web;
pub mod wire;
