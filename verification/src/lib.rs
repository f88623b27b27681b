//! Account, session and connection logic of a trade server: registration and login with
//! session tokens, their expiry and logout, the answers sent on a connection, the cache of
//! ticker data, and how the server announces itself.
pub mod authentication;
pub mod checks;
pub mod clock;
pub mod dominator;
pub mod protocol;
pub mod text;
pub mod token;
pub mod user;
pub mod watchlistmap;
