//! A SOCKS5-compatible local proxy core: an RC4-style stream cipher keyed
//! through MD5-based key derivation, IV-framed encrypted stream codecs,
//! SOCKS5 handshake/request parsing, and the per-connection session state
//! machine that ties them together.
pub mod rc4;
pub mod session;
pub mod socks;
pub mod stream;
