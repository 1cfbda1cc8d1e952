//! A multi-user credential store: it issues, verifies and revokes
//! labelled application passwords, derives an authenticated identity from
//! the subject DN of a TLS client certificate, and resolves alias names to
//! destination users.

pub mod crypto;
pub mod identity;
pub mod laws;
pub mod store;
pub mod text;

pub use crypto::password_check;
pub use store::{Alias, AuthenticationResult, Created, InitState, MigrationsDone, Password,
    Service, StoreError, User};
