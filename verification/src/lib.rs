//! An authoritative DNS server whose zone data is derived from two outside
//! trust roots: a blockchain that records ownership of DNS labels through
//! inscribed transaction scripts, and a Nostr relay that hosts the live,
//! owner-signed zone-file text.
//!
//! The crate holds the verified core: the DNS wire codec, the zone-file
//! parser, the inscription parser, the confirmation-gated name-token
//! registry, and the resolver that answers queries from an in-memory
//! record set.

pub mod ascii;
pub mod class;
pub mod data;
pub mod datagram;
pub mod dns_nostr_token;
pub mod handler;
pub mod ip;
pub mod label;
pub mod message;
pub mod name;
pub mod name_token;
pub mod name_token_registry;
pub mod nostr_authority;
pub mod query_class;
pub mod query_type;
pub mod question;
pub mod record;
pub mod record_type;
pub mod resolver;
pub mod script;
pub mod zone_file;

pub use label::Label;
pub use label::LabelFromStrErr;
pub use name::Name;
