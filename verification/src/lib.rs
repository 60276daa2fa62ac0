//! The core of a sanitizing web proxy.
//!
//! The proxy fetches pages for its clients, takes out of them what could run
//! or leak, and sends every reference in them back through itself. This crate
//! holds the rules of that work, with their proofs:
//!
//! - [`rewrite_url`] makes the signed proxy URLs, and [`client`] checks them;
//! - [`host`] decides which addresses may be reached at all;
//! - [`rewrite_css`] rewrites the `url(...)` tokens of style sheets as they
//!   stream by, and [`css_laws`] says what that amounts to on whole sheets;
//! - [`rewrite_html`] and [`rewriter`] sanitize pages, element by element;
//! - [`client`] and [`server`] decide what is asked of the origin and what
//!   the client is told.
//!
//! Reading sockets and files, and serving HTTP, is left to the program around
//! this crate.

pub mod client;
pub mod config;
pub mod css_laws;
pub mod digest;
pub mod element;
pub mod host;
pub mod html_text;
pub mod ip_range;
pub mod rewrite_css;
pub mod rewrite_html;
pub mod rewrite_url;
pub mod rewriter;
pub mod server;
pub mod text;
