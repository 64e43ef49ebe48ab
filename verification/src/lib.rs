//! Key synchronisation for SSH `authorized_keys` files among the members of a
//! group that share a secret token.
pub mod text;
pub mod ssh_keys;
pub mod hex;
pub mod crypto;
pub mod auth;
pub mod authorized_keys;
pub mod daemon;
pub mod payload;
pub mod discovery;
pub mod transport;
