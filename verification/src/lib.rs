//! A managed gateway for the Codex engine: the rules by which its traffic is routed, and
//! what is written to its files.
//!
//! - `managed_gateway`: which hosts go through the SOCKS5 upstream, and the PAC script and
//!   launch arguments that say so to a browser.
//! - `managed_proxy`, `connection`, `socks5`, `startup`: the local proxy that applies the
//!   same rules for the engine. It fails closed: a host that belongs on the upstream is
//!   never reached in another way.
//! - `managed_env`, `managed_config`: the managed parts of the engine's `.env` and
//!   `config.toml`; what else stands there is kept.
//! - `credential`, `command`: the token in the system's credential store, and the helper
//!   that gives it to the engine.
//! - `text`, `number`: texts as sequences of characters.
//! - `routing_laws`, `proxy_laws`: what holds of several of these together.
//!
//! The library reads, writes and connects to nothing. It decides, and its caller acts.
pub mod command;
pub mod connection;
pub mod credential;
pub mod managed_config;
pub mod managed_env;
pub mod managed_gateway;
pub mod managed_proxy;
pub mod number;
pub mod proxy_laws;
pub mod routing_laws;
pub mod socks5;
pub mod startup;
pub mod text;
