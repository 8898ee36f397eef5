//! One client session, as a state machine over plain values: the greeting,
//! the CONNECT request, and the hand-off into the proxying phase. The relay
//! loop around it performs the socket work and feeds bytes in; every
//! decision — what to reply, what to forward upstream first, when the
//! session is over — is made here.
use vstd::prelude::*;
use crate::rc4::Rc4;
use crate::socks::{
    ConnectRequest, RequestModel, SocksError, greeting_reply, greeting_reply_spec,
    parse_greeting, parse_greeting_spec, parse_request, parse_request_spec, request_reply,
    request_reply_spec,
};
use crate::stream::{
    Cipher, CryptoRead, CryptoWrite, ReaderModel, WriterModel, writer_next, writer_wire,
};

verus! {

/// Where one client session stands. Failures in any phase before proxying
/// abort the session; there are no retries.
#[derive(Clone, Copy, Debug, PartialEq, Eq, Structural)]
pub enum Phase {
    Greeting,
    Request,
    Proxying,
    Closed,
}

/// One client session: the phase and the two upstream-side codecs. The
/// client-facing directions carry plaintext and need no codec.
pub struct Session {
    pub phase: Phase,
    /// Encrypts the client-to-upstream direction.
    pub enc: CryptoWrite,
    /// Decrypts the upstream-to-client direction.
    pub dec: CryptoRead,
}

/// Everything the relay must act on after a successful request parse, in
/// this order: send `client_reply` to the client, connect to the configured
/// upstream, then send `upstream_first` — the IV followed by the encrypted
/// raw address bytes — as the first upstream payload. The reply goes out
/// before the upstream connection is attempted; a later connect failure is
/// not reflected in it.
pub struct RequestOutcome {
    pub request: ConnectRequest,
    pub consumed: usize,
    pub client_reply: Vec<u8>,
    pub upstream_first: Vec<u8>,
}

impl Session {
    /// The shared password both directions were keyed with.
    pub open spec fn pw(self) -> Seq<u8> {
        match self.enc.enc {
            Cipher::Encrypted(rc4) => rc4.password@,
            Cipher::Plain => Seq::<u8>::empty(),
        }
    }

    /// Both codecs well-formed; before the proxying phase neither direction
    /// has seen an IV yet and both are keyed with the same password.
    pub open spec fn wf(self) -> bool {
        &&& self.enc.wf()
        &&& self.dec.wf()
        &&& (self.phase == Phase::Greeting || self.phase == Phase::Request) ==> (
        self.enc.model() == WriterModel::Fresh { pw: self.pw() } && self.dec.model()
            == ReaderModel::Buffering { pw: self.pw(), ivbuf: Seq::<u8>::empty() })
    }

    /// A fresh session in the greeting phase, with one cipher per upstream
    /// direction, both keyed with the password.
    pub fn new(password: &[u8]) -> (r: Session)
        ensures
            r.wf(),
            r.phase == Phase::Greeting,
            r.pw() == password@,
    {
        let enc = CryptoWrite::new(Cipher::Encrypted(Rc4::new(password)));
        let dec = CryptoRead::new(Cipher::Encrypted(Rc4::new(password)));
        Session { phase: Phase::Greeting, enc, dec }
    }

    /// Handle the client's method-selection greeting: on success, the bytes
    /// to send back and how many input bytes the greeting occupied; on
    /// failure, the session closes.
    pub fn on_greeting(&mut self, input: &[u8]) -> (r: Result<(Vec<u8>, usize), SocksError>)
        requires
            old(self).wf(),
            old(self).phase == Phase::Greeting,
        ensures
            final(self).wf(),
            final(self).pw() == old(self).pw(),
            final(self).enc == old(self).enc,
            final(self).dec == old(self).dec,
            match r {
                Ok(p) => parse_greeting_spec(input@) == Ok::<int, SocksError>(p.1 as int) && p.0@
                    == greeting_reply_spec() && final(self).phase == Phase::Request,
                Err(e) => parse_greeting_spec(input@) == Err::<int, SocksError>(e)
                    && final(self).phase == Phase::Closed,
            },
    {
        match parse_greeting(input) {
            Ok(consumed) => {
                self.phase = Phase::Request;
                Ok((greeting_reply(), consumed))
            },
            Err(e) => {
                self.phase = Phase::Closed;
                Err(e)
            },
        }
    }

    /// Handle the CONNECT request: on success, the fixed reply for the
    /// client and the first upstream payload — a fresh IV followed by the
    /// encrypted raw address encoding — and the session starts proxying; on
    /// failure, the session closes.
    pub fn on_request(&mut self, input: &[u8]) -> (r: Result<RequestOutcome, SocksError>)
        requires
            old(self).wf(),
            old(self).phase == Phase::Request,
        ensures
            final(self).wf(),
            final(self).dec == old(self).dec,
            match r {
                Ok(o) => {
                    &&& parse_request_spec(input@) is Ok
                    &&& ({
                        let m = parse_request_spec(input@)->Ok_0;
                        &&& o.request.wf()
                        &&& o.request.dest.model() == m.dest
                        &&& o.request.port == m.port
                        &&& o.request.raw@ == m.raw
                        &&& o.consumed as int == m.consumed
                        &&& o.client_reply@ == request_reply_spec()
                        &&& o.upstream_first@.len() == 16 + m.raw.len()
                        &&& o.upstream_first@ == writer_wire(
                            WriterModel::Fresh { pw: old(self).pw() },
                            o.upstream_first@.take(16),
                            m.raw,
                        )
                        &&& final(self).enc.model() == writer_next(
                            WriterModel::Fresh { pw: old(self).pw() },
                            o.upstream_first@.take(16),
                            m.raw,
                        )
                        &&& final(self).phase == Phase::Proxying
                    })
                },
                Err(e) => parse_request_spec(input@) == Err::<RequestModel, SocksError>(e)
                    && final(self).phase == Phase::Closed && final(self).enc == old(self).enc,
            },
    {
        match parse_request(input) {
            Ok((request, consumed)) => {
                let upstream_first = self.enc.write(request.raw.as_slice());
                self.phase = Phase::Proxying;
                Ok(
                    RequestOutcome {
                        request,
                        consumed,
                        client_reply: request_reply(),
                        upstream_first,
                    },
                )
            },
            Err(e) => {
                self.phase = Phase::Closed;
                Err(e)
            },
        }
    }

    /// Hand out the two upstream-side codecs for the proxying phase: the
    /// client-to-upstream copy loop owns the writer, the upstream-to-client
    /// loop owns the reader.
    pub fn into_parts(self) -> (r: (CryptoWrite, CryptoRead))
        ensures
            r.0 == self.enc,
            r.1 == self.dec,
    {
        let Session { phase: _, enc, dec } = self;
        (enc, dec)
    }

    /// Either copy direction ending — clean EOF or error — ends the whole
    /// session; the relay must then shut both halves of both sockets.
    pub fn on_eof(&mut self)
        requires
            old(self).wf(),
        ensures
            final(self).wf(),
            final(self).phase == Phase::Closed,
            final(self).enc == old(self).enc,
            final(self).dec == old(self).dec,
    {
        self.phase = Phase::Closed;
    }
}

} // verus!
