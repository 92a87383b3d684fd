//! A SAML 2.0 identity-federation proxy core.
//!
//! To each downstream service provider the proxy appears as a single
//! identity provider; to the upstream federation it appears as a single
//! service provider.  This crate holds the proxy's logic: the binding
//! codecs, the metadata aggregate scanner, the discovery index, the
//! metadata-query cache, the session store, the flow engine and the
//! self-metadata emitters.  HTTP transport, task scheduling and key
//! loading live outside the library and hand it plain values.

pub mod aggregate;
pub mod attributes;
pub mod bytes;
pub mod codec;
pub mod config;
pub mod error;
pub mod flow;
pub mod index;
pub mod mdq;
pub mod params;
pub mod reissue;
pub mod saml;
pub mod selfmeta;
pub mod session;
pub mod textenc;
