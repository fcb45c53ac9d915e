//! A small reverse-proxy engine: backend selection, access control, response
//! caching, compression decisions and request routing, with their contracts.
//!
//! The request pipeline is `server::ProxyServer`: `handle_request` decides
//! what to do with a request (answer, forward, serve a file, read or replace
//! the configuration) and `complete_forward` finishes a forwarded one. It
//! draws on `router` (routes and static paths), `access_control` (CIDR lists
//! and per-client windows), `cache`, `compression`, `load_balancing` and
//! `monitoring`. Sockets, files and clocks stay with the caller: times and
//! backend answers come in as plain values.

pub mod ab_testing;
pub mod access_control;
pub mod basic_auth;
pub mod cache;
pub mod compression;
pub mod config;
pub mod error_pages;
pub mod fastcgi;
pub mod geoip;
pub mod http;
pub mod load_balancing;
pub mod logging;
pub mod mail;
pub mod modules;
pub mod monitoring;
pub mod performance;
pub mod platform;
pub mod process;
pub mod router;
pub mod server;
pub mod static_files;
pub mod text;
pub mod tls;
pub mod websocket;
