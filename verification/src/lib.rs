//! Logic of a Bitcoin peer-to-peer network crawler.
//!
//! Everything that decides or computes stands here: address texts, the wire protocol, the
//! dialogue with a peer, the books of a crawl, and the files it leaves behind. Sockets,
//! files and worker pools belong to the program around it.
pub mod address;
pub mod address_laws;
pub mod addrlog;
pub mod attempt_laws;
pub mod crawl_laws;
pub mod crawler;
pub mod csv_text;
pub mod dialogue;
pub mod dns;
pub mod document;
pub mod encoding;
pub mod frontier_laws;
pub mod io_error;
pub mod ip;
pub mod lexical;
pub mod listing;
pub mod log_laws;
pub mod message_laws;
pub mod output;
pub mod preflight;
pub mod probe;
pub mod probe_laws;
pub mod protocol;
pub mod protocol_laws;
pub mod report;
pub mod seed_laws;
pub mod settings;
pub mod settings_laws;
pub mod stats_laws;
pub mod store;
pub mod table_laws;
pub mod text;
pub mod transport;
pub mod transport_laws;
pub mod wire;
