//! Core of a dynamic-DNS reconciler for the Porkbun API.
//!
//! Given a set of configured domain/subdomain targets and the machine's
//! current public IPv4/IPv6 addresses, the reconciler decides, for each
//! target and address family, whether the DNS records at the provider
//! already match, need an edit, or need a fresh record. Everything here is
//! pure decision logic: network transport, configuration-file parsing and
//! logging live outside the library and hand it plain values.

pub mod addr;
pub mod config;
pub mod matcher;
pub mod parse;
pub mod reconciler;
pub mod record;
pub mod resolver;
pub mod store;
pub mod text;
