//! A capability transport protocol core: the self-describing binary codec,
//! the typed protocol messages, session establishment, the session state
//! machine, resolvers and the session registry.
pub mod codec;
pub mod handshake;
pub mod io;
pub mod locator;
pub mod manager;
pub mod msg;
pub mod netlayer;
pub mod resolver;
pub mod session;
pub mod tables;
pub mod uri;
