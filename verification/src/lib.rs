//! Codecs for layered network-protocol headers.
//!
//! Each protocol module converts raw byte buffers into typed header
//! structures and back into wire-exact bytes: Ethernet frames, ARP packets
//! in fixed and extended mode, IPv4 and IPv6 packets with their option and
//! extension-header machinery, and TCP and UDP with their pseudo-header
//! checksums.  Decoding is total: every malformed input is reported
//! through `util::DecodeError` instead of a panic, and no decoder ever
//! reads past the end of the supplied buffer.
//!
//! Each structure carries a mathematical model (its view), and the codecs
//! are specified against it: encoders state the exact bytes they produce,
//! decoders state the exact structure (or error) for every input, and
//! round-trip lemmas prove that decoding an encoded, structurally valid
//! packet recovers the packet.

pub mod arp;
pub mod ethernet;
pub mod ipv4;
pub mod ipv6;
pub mod options;
pub mod tcp;
pub mod udp;
pub mod util;
