//! One-way, fire-and-forget method calls carried as tagged frames between
//! peers.
//!
//! A service is declared as a set of methods with typed parameters and no
//! return value. The declaration is read from its tokens ([`declaration`]),
//! checked ([`schema`]) and built ([`service`]): every method gets a wire tag
//! derived from its name. A call is framed under its tag ([`codec`], over
//! [`wire`]), sealed with the token of the session that makes it
//! ([`envelope`]) and queued for sending ([`proxy`], [`queue`], [`client`]).
//! A relay hands the envelope to every other peer ([`server`]), whose
//! sessions open it and whose dispatchers route the frame to the arm of the
//! method that was called ([`dispatch`]). [`broadcast`] states the whole path.

pub mod broadcast;
pub mod client;
pub mod codec;
pub mod declaration;
pub mod dispatch;
pub mod envelope;
pub mod message;
pub mod proxy;
pub mod queue;
pub mod schema;
pub mod server;
pub mod service;
pub mod token;
pub mod wire;
