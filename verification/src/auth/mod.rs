//! Request authentication.
pub mod hmac;
