//! A development server with live reload, for the Zed editor.
//!
//! The library decides; it does no I/O. What it decides about is found out by
//! whoever drives it, one question at a time.

pub mod actions;
pub mod answer_laws;
pub mod backend_laws;
pub mod batch_laws;
pub mod channel_laws;
pub mod cli;
pub mod cli_laws;
pub mod config;
pub mod connection;
pub mod control;
pub mod control_laws;
pub mod encoding_laws;
pub mod extension;
pub mod frame_laws;
pub mod globs;
pub mod handler;
pub mod handler_laws;
pub mod http;
pub mod http_laws;
pub mod ignore;
pub mod inject;
pub mod inject_laws;
pub mod listing;
pub mod listing_laws;
pub mod lsp;
pub mod mount_laws;
pub mod number;
pub mod number_laws;
pub mod overlay;
pub mod overlay_laws;
pub mod path;
pub mod path_laws;
pub mod quote;
pub mod range_laws;
pub mod reload;
pub mod reload_laws;
pub mod response;
pub mod server;
pub mod server_laws;
pub mod site_laws;
pub mod status;
pub mod text;
pub mod text_laws;
pub mod urls;
pub mod urls_laws;
pub mod watch;
pub mod watch_laws;
pub mod ws;
