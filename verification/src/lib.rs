//! Signed-cookie sessions with role-scoped access: a cookie codec that signs
//! and checks session payloads, a password verifier, the per-request
//! decisions of an identity middleware and the login and logout transitions.

pub mod account;
pub mod base64url;
pub mod codec;
pub mod header;
pub mod mac;
pub mod middleware;
pub mod password;
pub mod payload;
pub mod realm;
pub mod session;
pub mod upload;
