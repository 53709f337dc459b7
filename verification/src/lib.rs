//! Local TOTP authenticator core: one-time codes and the account vault.

pub mod text;
pub mod totp;
pub mod vault;
pub mod view;
