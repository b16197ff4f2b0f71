//! hat: the logic of a small terminal chat, client and server.
//!
//! A client and the server exchange lines of text over one connection. What
//! kind of line it is stands before the first space. The modules, from the
//! ground up:
//!
//! - [`text`], [`number`], [`order`], [`clock`], [`names`]: text, and what is
//!   written as text;
//! - [`frame`]: lines in a stream of bytes;
//! - [`bans`], [`model`], [`rules`], [`server`]: what the server keeps, what it
//!   does on each event, and the code that does it; [`upkeep`], [`laws`], [`runs`]
//!   and [`requests`] say what holds of it;
//! - [`connection`], [`command`], [`token`]: one connection of the server, the
//!   commands that are run for it, and the token that opens it;
//! - [`json`], [`llm`]: asking a language model;
//! - [`client`], [`screen`]: the client and what it draws; [`client_laws`] and
//!   [`client_steps`] say what holds of it, and how a message gets from one
//!   client to another.

pub mod text;
pub mod number;
pub mod names;
pub mod clock;
pub mod order;
pub mod frame;
pub mod bans;
pub mod model;
pub mod rules;
pub mod server;
pub mod upkeep;
pub mod laws;
pub mod runs;
pub mod requests;
pub mod connection;
pub mod command;
pub mod token;
pub mod json;
pub mod llm;
pub mod client;
pub mod screen;
pub mod client_laws;
pub mod client_steps;
