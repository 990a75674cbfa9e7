//! Pseudonymous application identities: one global identity presents a
//! distinct pseudonym to each relying-party domain, the pseudonym resolves
//! back to its owner only when this registry issued it, and each pseudonym
//! carries its own set of consented attributes.

pub mod application_map;
pub mod ids;
pub mod laws;
