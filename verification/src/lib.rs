//! Bearer-token authentication with per-route role requirements.
//!
//! Tokens are compact signed strings of three base64url segments: a fixed
//! header, a claim set (subject, role, expiry) and an HMAC-SHA256 tag over
//! the first two. The guard reads the `Authorization` header, verifies the
//! token and compares the role it carries with the role a route requires.

pub mod account;
pub mod base64url;
pub mod bytes;
pub mod claims;
pub mod decimal;
pub mod error;
pub mod guard;
pub mod json_text;
pub mod mac;
pub mod password;
pub mod role;
pub mod token;
