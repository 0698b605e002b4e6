//! An encrypted container format for serializable payloads, and the secure
//! request/response exchange used to validate a license against a remote
//! server.  Both are built on one versioned encryption capability that is
//! supplied from outside: every function here that needs a cryptographic
//! result takes that result as a plain value, states exactly what it does
//! with it, and is verified for every value the capability could hand back.

pub mod client;
pub mod encryption;
pub mod json;
pub mod version;

pub use client::{SecureResponse as Response, TClient as LicenseClient, TError as Error};
pub use encryption::{ChipaError, ChipaFile};
