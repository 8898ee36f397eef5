//! The SOCKS5 subset the proxy speaks: the method-selection greeting and the
//! CONNECT request. Parsing works on plain byte buffers; the raw address
//! encoding (type tag + address + port) is kept verbatim because it is
//! forwarded to the upstream peer as the tunnel's first payload.
use vstd::prelude::*;

verus! {

/// Why a SOCKS5 exchange was rejected.
#[derive(Clone, Copy, Debug, PartialEq, Eq, Structural)]
pub enum SocksError {
    /// The version byte was not 5.
    UnsupportedVersion,
    /// The command was not CONNECT.
    UnsupportedCommand,
    /// The address type tag was not IPv4, domain name or IPv6.
    UnsupportedAddressType,
    /// The buffer ends before the message does.
    Incomplete,
}

/// A parsed destination address.
pub enum DestAddr {
    /// Four address octets.
    V4 { octets: Vec<u8> },
    /// Sixteen address octets.
    V6 { octets: Vec<u8> },
    /// The bytes of a domain name, to be resolved elsewhere.
    Domain { name: Vec<u8> },
}

/// Spec-level destination address.
pub enum DestKind {
    V4(Seq<u8>),
    V6(Seq<u8>),
    Domain(Seq<u8>),
}

impl DestAddr {
    pub open spec fn model(self) -> DestKind {
        match self {
            DestAddr::V4 { octets } => DestKind::V4(octets@),
            DestAddr::V6 { octets } => DestKind::V6(octets@),
            DestAddr::Domain { name } => DestKind::Domain(name@),
        }
    }
}

/// A parsed CONNECT request: the destination, the port, and the raw on-wire
/// address encoding (type tag + address + port) exactly as received.
pub struct ConnectRequest {
    pub dest: DestAddr,
    pub port: u16,
    pub raw: Vec<u8>,
}

/// Spec-level parsed CONNECT request; `consumed` is how many input bytes the
/// request occupied.
pub struct RequestModel {
    pub dest: DestKind,
    pub port: u16,
    pub raw: Seq<u8>,
    pub consumed: int,
}

impl ConnectRequest {
    pub open spec fn wf(self) -> bool {
        match self.dest {
            DestAddr::V4 { octets } => octets@.len() == 4 && self.raw@.len() == 7,
            DestAddr::V6 { octets } => octets@.len() == 16 && self.raw@.len() == 19,
            DestAddr::Domain { name } => name@.len() < 256 && self.raw@.len() == 4 + name@.len(),
        }
    }
}

/// What parsing the greeting yields: how many bytes the greeting occupied
/// (version byte, method count, and that many method identifiers), or why it
/// is rejected.
pub open spec fn parse_greeting_spec(b: Seq<u8>) -> Result<int, SocksError> {
    if b.len() < 1 {
        Err(SocksError::Incomplete)
    } else if b[0] != 5 {
        Err(SocksError::UnsupportedVersion)
    } else if b.len() < 2 {
        Err(SocksError::Incomplete)
    } else if b.len() < 2 + b[1] {
        Err(SocksError::Incomplete)
    } else {
        Ok(2 + b[1])
    }
}

/// What parsing the CONNECT request yields. The four header bytes are
/// version, command, a reserved byte (ignored), and the address type; the
/// address type decides the variable-length tail, and the port is the last
/// two bytes, big-endian. The raw encoding starts at the address type tag.
pub open spec fn parse_request_spec(b: Seq<u8>) -> Result<RequestModel, SocksError> {
    if b.len() < 4 {
        Err(SocksError::Incomplete)
    } else if b[0] != 5 {
        Err(SocksError::UnsupportedVersion)
    } else if b[1] != 1 {
        Err(SocksError::UnsupportedCommand)
    } else if b[3] == 1 {
        if b.len() < 10 {
            Err(SocksError::Incomplete)
        } else {
            Ok(RequestModel {
                dest: DestKind::V4(b.subrange(4, 8)),
                port: (b[8] * 256 + b[9]) as u16,
                raw: b.subrange(3, 10),
                consumed: 10,
            })
        }
    } else if b[3] == 3 {
        if b.len() < 5 {
            Err(SocksError::Incomplete)
        } else if b.len() < 7 + b[4] {
            Err(SocksError::Incomplete)
        } else {
            Ok(RequestModel {
                dest: DestKind::Domain(b.subrange(5, 5 + b[4])),
                port: (b[5 + b[4]] * 256 + b[6 + b[4]]) as u16,
                raw: b.subrange(3, 7 + b[4]),
                consumed: 7 + b[4],
            })
        }
    } else if b[3] == 4 {
        if b.len() < 22 {
            Err(SocksError::Incomplete)
        } else {
            Ok(RequestModel {
                dest: DestKind::V6(b.subrange(4, 20)),
                port: (b[20] * 256 + b[21]) as u16,
                raw: b.subrange(3, 22),
                consumed: 22,
            })
        }
    } else {
        Err(SocksError::UnsupportedAddressType)
    }
}

/// Parse the method-selection greeting from the front of `input`: returns
/// how many bytes it occupied. The offered methods are discarded; only "no
/// authentication" is ever chosen.
pub fn parse_greeting(input: &[u8]) -> (r: Result<usize, SocksError>)
    ensures
        match r {
            Ok(consumed) => parse_greeting_spec(input@) == Ok::<int, SocksError>(consumed as int),
            Err(e) => parse_greeting_spec(input@) == Err::<int, SocksError>(e),
        },
{
    if input.len() < 1 {
        return Err(SocksError::Incomplete);
    }
    if input[0] != 5 {
        return Err(SocksError::UnsupportedVersion);
    }
    if input.len() < 2 {
        return Err(SocksError::Incomplete);
    }
    let nmethods = input[1] as usize;
    if input.len() < 2 + nmethods {
        return Err(SocksError::Incomplete);
    }
    Ok(2 + nmethods)
}

/// Parse the CONNECT request from the front of `input`: returns the parsed
/// request and how many bytes it occupied.
pub fn parse_request(input: &[u8]) -> (r: Result<(ConnectRequest, usize), SocksError>)
    ensures
        match r {
            Ok(p) => {
                &&& parse_request_spec(input@) is Ok
                &&& p.0.wf()
                &&& ({
                    let m = parse_request_spec(input@)->Ok_0;
                    p.0.dest.model() == m.dest && p.0.port == m.port && p.0.raw@ == m.raw
                        && p.1 as int == m.consumed
                })
            },
            Err(e) => parse_request_spec(input@) == Err::<RequestModel, SocksError>(e),
        },
{
    if input.len() < 4 {
        return Err(SocksError::Incomplete);
    }
    if input[0] != 5 {
        return Err(SocksError::UnsupportedVersion);
    }
    if input[1] != 1 {
        return Err(SocksError::UnsupportedCommand);
    }
    let atyp = input[3];
    if atyp == 1 {
        if input.len() < 10 {
            return Err(SocksError::Incomplete);
        }
        let octets = vstd::slice::slice_to_vec(vstd::slice::slice_subrange(input, 4, 8));
        let raw = vstd::slice::slice_to_vec(vstd::slice::slice_subrange(input, 3, 10));
        let port = (input[8] as u16) * 256 + (input[9] as u16);
        Ok((ConnectRequest { dest: DestAddr::V4 { octets }, port, raw }, 10))
    } else if atyp == 3 {
        if input.len() < 5 {
            return Err(SocksError::Incomplete);
        }
        let nlen = input[4] as usize;
        if input.len() < 7 + nlen {
            return Err(SocksError::Incomplete);
        }
        let name = vstd::slice::slice_to_vec(vstd::slice::slice_subrange(input, 5, 5 + nlen));
        let raw = vstd::slice::slice_to_vec(vstd::slice::slice_subrange(input, 3, 7 + nlen));
        let port = (input[5 + nlen] as u16) * 256 + (input[6 + nlen] as u16);
        Ok((ConnectRequest { dest: DestAddr::Domain { name }, port, raw }, 7 + nlen))
    } else if atyp == 4 {
        if input.len() < 22 {
            return Err(SocksError::Incomplete);
        }
        let octets = vstd::slice::slice_to_vec(vstd::slice::slice_subrange(input, 4, 20));
        let raw = vstd::slice::slice_to_vec(vstd::slice::slice_subrange(input, 3, 22));
        let port = (input[20] as u16) * 256 + (input[21] as u16);
        Ok((ConnectRequest { dest: DestAddr::V6 { octets }, port, raw }, 22))
    } else {
        Err(SocksError::UnsupportedAddressType)
    }
}

/// The method-selection reply: version 5, method 0 (no authentication).
pub open spec fn greeting_reply_spec() -> Seq<u8> {
    seq![5u8, 0u8]
}

/// The fixed request reply: success, with IPv4 0.0.0.0:0 as the bound
/// address placeholder.
pub open spec fn request_reply_spec() -> Seq<u8> {
    seq![5u8, 0u8, 0u8, 1u8, 0u8, 0u8, 0u8, 0u8, 0u8, 0u8]
}

/// Build the method-selection reply sent back to the client.
pub fn greeting_reply() -> (r: Vec<u8>)
    ensures
        r@ == greeting_reply_spec(),
{
    let mut v: Vec<u8> = Vec::new();
    v.push(5);
    v.push(0);
    assert(v@ =~= greeting_reply_spec());
    v
}

/// Build the fixed success reply sent back to the client after the request
/// parses, before the upstream connection is attempted.
pub fn request_reply() -> (r: Vec<u8>)
    ensures
        r@ == request_reply_spec(),
{
    let mut v: Vec<u8> = Vec::new();
    v.push(5);
    v.push(0);
    v.push(0);
    v.push(1);
    v.push(0);
    v.push(0);
    v.push(0);
    v.push(0);
    v.push(0);
    v.push(0);
    assert(v@ =~= request_reply_spec());
    v
}

} // verus!
