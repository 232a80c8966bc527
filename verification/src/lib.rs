//! A verified DNS message codec.
//!
//! The crate turns a DNS message (header, questions, and three
//! resource-record sections) into the exact byte layout of the DNS wire
//! protocol, and reconstructs a message from received bytes.  Domain names
//! are compressed with backward pointers on encode; decoding follows pointer
//! chains without ever reading out of bounds or looping forever.

pub mod a_record;
pub mod aaaa_record;
pub mod cname_record;
pub mod codes;
pub mod cookie_opt;
pub mod dnskey_record;
pub mod https_record;
pub mod mx_record;
pub mod nsec_record;
pub mod ns_record;
pub mod owner_map;
pub mod opt_record;
pub mod ptr_record;
pub mod query;
pub mod record;
pub mod soa_record;
pub mod srv_record;
pub mod txt_record;
pub mod envelope;
pub mod handlers;
pub mod message;
pub mod errors;
pub mod names;
pub mod wire;
