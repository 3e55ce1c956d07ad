//! Account provisioning and credential storage for a shared analysis-server
//! deployment.
//!
//! Two independent components:
//!
//! - [`gateway`]: decides how the privileged external administration command
//!   is invoked to create an account, and what its outcome means. The shell
//!   around this library owns the actual process spawn and holds a mutual
//!   exclusion lock across it, so at most one invocation is in flight.
//! - [`store`]: an in-memory collection of username / password-hash records,
//!   with scrypt hashing and verification ([`hashing`]) and a binary
//!   snapshot encoding with a proved round trip ([`snapshot`]).

pub mod gateway;
pub mod hashing;
pub mod snapshot;
pub mod store;
