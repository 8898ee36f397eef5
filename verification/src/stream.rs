//! The encrypted-stream codecs: the write side frames its first output with
//! a fresh 16-byte IV and encrypts every payload, the read side strips the
//! 16-byte IV prefix (however it is split across reads) and decrypts the
//! rest. Either side may instead run as a transparent passthrough, the mode
//! used for the client-facing plaintext direction.
use vstd::prelude::*;
use crate::rc4::{
    Rc4, ksa, rc4_key, keystream, prga_run, xor_seq, lemma_crypt_streaming,
    lemma_keystream_len, lemma_prga_run_append, lemma_xor_self_inverse,
};

verus! {

/// One direction's cipher: absent for the plaintext side, or a stream cipher
/// for the obfuscated side.
pub enum Cipher {
    Plain,
    Encrypted(Rc4),
}

impl Cipher {
    pub open spec fn wf(self) -> bool {
        match self {
            Cipher::Plain => true,
            Cipher::Encrypted(rc4) => rc4.wf(),
        }
    }
}

/// Spec-level state of a write-side cipher: passthrough, encrypted but with
/// no IV chosen yet, or streaming from a scheduled state.
pub enum WriterModel {
    Passthrough,
    Fresh { pw: Seq<u8> },
    Streaming { s: Seq<u8>, i: u8, j: u8 },
}

/// Spec-level state of a read-side cipher: passthrough, still collecting the
/// 16 IV bytes, or streaming from a scheduled state.
pub enum ReaderModel {
    Passthrough,
    Buffering { pw: Seq<u8>, ivbuf: Seq<u8> },
    Streaming { s: Seq<u8>, i: u8, j: u8 },
}

pub open spec fn reader_model_wf(m: ReaderModel) -> bool {
    match m {
        ReaderModel::Buffering { pw, ivbuf } => ivbuf.len() < 16,
        ReaderModel::Streaming { s, i, j } => s.len() == 256,
        ReaderModel::Passthrough => true,
    }
}

/// The bytes a write puts on the wire: the payload as is, or the IV followed
/// by the encrypted payload on the first encrypted write, or the encrypted
/// payload alone afterwards.
pub open spec fn writer_wire(m: WriterModel, iv: Seq<u8>, buf: Seq<u8>) -> Seq<u8> {
    match m {
        WriterModel::Passthrough => buf,
        WriterModel::Fresh { pw } => iv + xor_seq(
            buf,
            keystream(ksa(rc4_key(pw, iv)), 0, 0, buf.len() as nat),
        ),
        WriterModel::Streaming { s, i, j } => xor_seq(buf, keystream(s, i, j, buf.len() as nat)),
    }
}

/// The write-side cipher state after one write.
pub open spec fn writer_next(m: WriterModel, iv: Seq<u8>, buf: Seq<u8>) -> WriterModel {
    match m {
        WriterModel::Passthrough => WriterModel::Passthrough,
        WriterModel::Fresh { pw } => {
            let r = prga_run(ksa(rc4_key(pw, iv)), 0, 0, buf.len() as nat);
            WriterModel::Streaming { s: r.0, i: r.1, j: r.2 }
        },
        WriterModel::Streaming { s, i, j } => {
            let r = prga_run(s, i, j, buf.len() as nat);
            WriterModel::Streaming { s: r.0, i: r.1, j: r.2 }
        },
    }
}

/// The plaintext a read hands back for one incoming chunk.
pub open spec fn reader_plain(m: ReaderModel, chunk: Seq<u8>) -> Seq<u8> {
    match m {
        ReaderModel::Passthrough => chunk,
        ReaderModel::Buffering { pw, ivbuf } => {
            let need = 16 - ivbuf.len();
            if chunk.len() < need {
                Seq::<u8>::empty()
            } else {
                let iv = ivbuf + chunk.take(need as int);
                let rest = chunk.skip(need as int);
                xor_seq(rest, keystream(ksa(rc4_key(pw, iv)), 0, 0, rest.len() as nat))
            }
        },
        ReaderModel::Streaming { s, i, j } => xor_seq(
            chunk,
            keystream(s, i, j, chunk.len() as nat),
        ),
    }
}

/// The read-side cipher state after one incoming chunk.
pub open spec fn reader_next(m: ReaderModel, chunk: Seq<u8>) -> ReaderModel {
    match m {
        ReaderModel::Passthrough => ReaderModel::Passthrough,
        ReaderModel::Buffering { pw, ivbuf } => {
            let need = 16 - ivbuf.len();
            if chunk.len() < need {
                ReaderModel::Buffering { pw, ivbuf: ivbuf + chunk }
            } else {
                let iv = ivbuf + chunk.take(need as int);
                let rest = chunk.skip(need as int);
                let r = prga_run(ksa(rc4_key(pw, iv)), 0, 0, rest.len() as nat);
                ReaderModel::Streaming { s: r.0, i: r.1, j: r.2 }
            }
        },
        ReaderModel::Streaming { s, i, j } => {
            let r = prga_run(s, i, j, chunk.len() as nat);
            ReaderModel::Streaming { s: r.0, i: r.1, j: r.2 }
        },
    }
}

/// The first encrypted write emits exactly 16 bytes more than its payload,
/// every later one exactly its payload's length, and after any encrypted
/// write the cipher is streaming.
pub proof fn lemma_writer_emission_sizes(m: WriterModel, iv: Seq<u8>, buf: Seq<u8>)
    requires
        iv.len() == 16,
    ensures
        m is Fresh ==> writer_wire(m, iv, buf).len() == 16 + buf.len(),
        m is Streaming ==> writer_wire(m, iv, buf).len() == buf.len(),
        !(m is Passthrough) ==> writer_next(m, iv, buf) is Streaming,
{
}

/// Chunking does not matter on the read side: decoding one chunk `c1 + c2`
/// yields the same plaintext and the same cipher state as decoding `c1` and
/// then `c2` — in particular, the 16 IV bytes may be split across reads in
/// any way.
pub proof fn lemma_reader_split(m: ReaderModel, c1: Seq<u8>, c2: Seq<u8>)
    requires
        reader_model_wf(m),
    ensures
        reader_plain(m, c1 + c2) == reader_plain(m, c1) + reader_plain(reader_next(m, c1), c2),
        reader_next(m, c1 + c2) == reader_next(reader_next(m, c1), c2),
{
    match m {
        ReaderModel::Passthrough => {
            assert(reader_plain(m, c1 + c2) =~= reader_plain(m, c1) + reader_plain(
                reader_next(m, c1),
                c2,
            ));
        },
        ReaderModel::Streaming { s, i, j } => {
            lemma_crypt_streaming(s, i, j, c1, c2);
            lemma_prga_run_append(s, i, j, c1.len() as nat, c2.len() as nat);
        },
        ReaderModel::Buffering { pw, ivbuf } => {
            let need = 16 - ivbuf.len();
            let c = c1 + c2;
            if c.len() < need {
                assert(reader_plain(m, c1) =~= Seq::<u8>::empty());
                assert(reader_plain(reader_next(m, c1), c2) =~= Seq::<u8>::empty());
                assert(reader_plain(m, c) =~= Seq::<u8>::empty());
                assert((ivbuf + c1) + c2 =~= ivbuf + (c1 + c2));
                assert(reader_plain(m, c1 + c2) =~= reader_plain(m, c1) + reader_plain(
                    reader_next(m, c1),
                    c2,
                ));
            } else if c1.len() < need {
                let m1 = reader_next(m, c1);
                let ivbuf1 = ivbuf + c1;
                let need1 = 16 - ivbuf1.len();
                assert(m1 == ReaderModel::Buffering { pw, ivbuf: ivbuf1 });
                let iv = ivbuf + c.take(need);
                let iv1 = ivbuf1 + c2.take(need1);
                assert(iv1 =~= iv);
                let rest = c.skip(need);
                let rest1 = c2.skip(need1);
                assert(rest1 =~= rest);
                assert(reader_plain(m, c1) =~= Seq::<u8>::empty());
                assert(reader_plain(m, c) =~= reader_plain(m, c1) + reader_plain(m1, c2));
                assert(reader_next(m, c) == reader_next(m1, c2));
            } else {
                let m1 = reader_next(m, c1);
                let iv = ivbuf + c.take(need);
                let iv1 = ivbuf + c1.take(need);
                assert(iv1 =~= iv);
                let rest = c.skip(need);
                let rest1 = c1.skip(need);
                assert(rest =~= rest1 + c2);
                let s0 = ksa(rc4_key(pw, iv));
                lemma_crypt_streaming(s0, 0, 0, rest1, c2);
                lemma_prga_run_append(s0, 0, 0, rest1.len() as nat, c2.len() as nat);
                assert(reader_plain(m, c) =~= reader_plain(m, c1) + reader_plain(m1, c2));
                assert(reader_next(m, c) == reader_next(m1, c2));
            }
        },
    }
}

/// Writer-to-reader round trip: a fresh reader keyed with the same password
/// decodes a fresh writer's first wire output back to the payload, and both
/// ends land in matching streaming states.
pub proof fn lemma_wire_roundtrip(pw: Seq<u8>, iv: Seq<u8>, buf: Seq<u8>)
    requires
        iv.len() == 16,
    ensures
        reader_plain(
            ReaderModel::Buffering { pw, ivbuf: Seq::<u8>::empty() },
            writer_wire(WriterModel::Fresh { pw }, iv, buf),
        ) == buf,
{
    let s0 = ksa(rc4_key(pw, iv));
    let ks = keystream(s0, 0, 0, buf.len() as nat);
    lemma_keystream_len(s0, 0, 0, buf.len() as nat);
    let wire = writer_wire(WriterModel::Fresh { pw }, iv, buf);
    assert(wire.take(16) =~= iv);
    assert(wire.skip(16) =~= xor_seq(buf, ks));
    assert(Seq::<u8>::empty() + wire.take(16) =~= iv);
    lemma_xor_self_inverse(buf, ks);
    assert(xor_seq(xor_seq(buf, ks), ks) == buf);
}

/// Relies on `rand::random` (the `rand` crate): 16 bytes from the thread's
/// random generator; no promise is made about their values.
#[verifier::external_body]
fn generate_iv() -> (r: Vec<u8>)
    ensures
        r@.len() == 16,
{
    rand::random::<[u8; 16]>().to_vec()
}

impl Cipher {
    /// The cipher inside an encrypted-mode value.
    pub open spec fn rc4(self) -> Rc4 {
        self->Encrypted_0
    }

    /// Mix the IV into an encrypted, not-yet-initialized cipher.
    fn init_with(&mut self, iv: &[u8])
        requires
            old(self).wf(),
            (*old(self)) is Encrypted,
            !old(self).rc4().init,
        ensures
            final(self).wf(),
            (*final(self)) is Encrypted,
            final(self).rc4().init,
            final(self).rc4().password@ == old(self).rc4().password@,
            final(self).rc4().state@ == ksa(rc4_key(old(self).rc4().password@, iv@)),
            final(self).rc4().i == 0,
            final(self).rc4().j == 0,
    {
        match self {
            Cipher::Encrypted(rc4) => rc4.init(iv),
            Cipher::Plain => {},
        }
    }

    /// XOR the next keystream bytes into `data`.
    fn crypt(&mut self, data: &mut Vec<u8>)
        requires
            old(self).wf(),
            (*old(self)) is Encrypted,
            old(self).rc4().init,
        ensures
            final(self).wf(),
            (*final(self)) is Encrypted,
            final(self).rc4().init,
            final(self).rc4().password@ == old(self).rc4().password@,
            final(data)@ == xor_seq(
                old(data)@,
                keystream(
                    old(self).rc4().state@,
                    old(self).rc4().i,
                    old(self).rc4().j,
                    old(data)@.len() as nat,
                ),
            ),
            (final(self).rc4().state@, final(self).rc4().i, final(self).rc4().j) == {
                let r = prga_run(
                    old(self).rc4().state@,
                    old(self).rc4().i,
                    old(self).rc4().j,
                    old(data)@.len() as nat,
                );
                (r.0, r.1, r.2)
            },
    {
        match self {
            Cipher::Encrypted(rc4) => rc4.crypt_inplace(data),
            Cipher::Plain => {},
        }
    }

    /// Whether this is an initialized encrypted cipher.
    fn ready(&self) -> (r: bool)
        ensures
            r == ((*self) is Encrypted && self.rc4().init),
    {
        match self {
            Cipher::Encrypted(rc4) => rc4.is_init(),
            Cipher::Plain => false,
        }
    }

    /// Whether this is the passthrough mode.
    fn is_plain(&self) -> (r: bool)
        ensures
            r == ((*self) is Plain),
    {
        match self {
            Cipher::Plain => true,
            Cipher::Encrypted(_) => false,
        }
    }
}

/// The write-side adapter: encrypts payloads and frames the first one with
/// the IV, or passes them through untouched when no cipher is present.
pub struct CryptoWrite {
    pub enc: Cipher,
}

impl CryptoWrite {
    pub open spec fn wf(self) -> bool {
        self.enc.wf()
    }

    /// Which spec-level writer state this adapter is in.
    pub open spec fn model(self) -> WriterModel {
        match self.enc {
            Cipher::Plain => WriterModel::Passthrough,
            Cipher::Encrypted(rc4) => if !rc4.init {
                WriterModel::Fresh { pw: rc4.password@ }
            } else {
                WriterModel::Streaming { s: rc4.state@, i: rc4.i, j: rc4.j }
            },
        }
    }

    pub fn new(enc: Cipher) -> (r: Self)
        ensures
            r.enc == enc,
    {
        CryptoWrite { enc }
    }

    /// Turn one payload into the bytes to send: on the first encrypted write
    /// the result is a fresh 16-byte IV followed by the encrypted payload,
    /// afterwards the encrypted payload alone; in passthrough mode the
    /// payload itself.
    pub fn write(&mut self, buf: &[u8]) -> (wire: Vec<u8>)
        requires
            old(self).wf(),
        ensures
            final(self).wf(),
            old(self).model() is Fresh ==> wire@.len() == 16 + buf@.len()
                && wire@ == writer_wire(old(self).model(), wire@.take(16), buf@)
                && final(self).model() == writer_next(old(self).model(), wire@.take(16), buf@),
            !(old(self).model() is Fresh) ==> wire@ == writer_wire(
                old(self).model(),
                Seq::<u8>::empty(),
                buf@,
            ) && final(self).model() == writer_next(old(self).model(), Seq::<u8>::empty(), buf@),
    {
        if self.enc.is_plain() {
            return vstd::slice::slice_to_vec(buf);
        }
        if self.enc.ready() {
            let mut out = vstd::slice::slice_to_vec(buf);
            self.enc.crypt(&mut out);
            return out;
        }
        let mut wire = generate_iv();
        let ghost ivs = wire@;
        self.enc.init_with(wire.as_slice());
        let mut data = vstd::slice::slice_to_vec(buf);
        self.enc.crypt(&mut data);
        wire.append(&mut data);
        proof {
            lemma_keystream_len(
                ksa(rc4_key(old(self).model()->Fresh_pw, ivs)),
                0,
                0,
                buf@.len() as nat,
            );
            assert(wire@.take(16) =~= ivs);
            assert(wire@ =~= writer_wire(old(self).model(), ivs, buf@));
        }
        wire
    }
}

/// The read-side adapter: collects the 16 IV bytes from the front of the
/// stream (across however many reads they arrive in), then decrypts every
/// later byte; or passes chunks through untouched when no cipher is present.
pub struct CryptoRead {
    pub dec: Cipher,
    pub ivbuf: Vec<u8>,
}

impl CryptoRead {
    pub open spec fn wf(self) -> bool {
        self.dec.wf() && match self.dec {
            Cipher::Plain => self.ivbuf@.len() == 0,
            Cipher::Encrypted(rc4) => if rc4.init {
                self.ivbuf@.len() == 0
            } else {
                self.ivbuf@.len() < 16
            },
        }
    }

    /// Which spec-level reader state this adapter is in.
    pub open spec fn model(self) -> ReaderModel {
        match self.dec {
            Cipher::Plain => ReaderModel::Passthrough,
            Cipher::Encrypted(rc4) => if !rc4.init {
                ReaderModel::Buffering { pw: rc4.password@, ivbuf: self.ivbuf@ }
            } else {
                ReaderModel::Streaming { s: rc4.state@, i: rc4.i, j: rc4.j }
            },
        }
    }

    pub fn new(dec: Cipher) -> (r: Self)
        ensures
            r.dec == dec,
            r.ivbuf@ == Seq::<u8>::empty(),
    {
        CryptoRead { dec, ivbuf: Vec::new() }
    }

    /// Decode one chunk received from the wire: IV bytes are consumed
    /// silently, everything after them is decrypted, and in passthrough mode
    /// the chunk comes back unchanged.
    pub fn read(&mut self, chunk: &[u8]) -> (plain: Vec<u8>)
        requires
            old(self).wf(),
        ensures
            final(self).wf(),
            plain@ == reader_plain(old(self).model(), chunk@),
            final(self).model() == reader_next(old(self).model(), chunk@),
    {
        if self.dec.is_plain() {
            return vstd::slice::slice_to_vec(chunk);
        }
        if self.dec.ready() {
            let mut out = vstd::slice::slice_to_vec(chunk);
            self.dec.crypt(&mut out);
            return out;
        }
        let need = 16 - self.ivbuf.len();
        let ghost ivbuf0 = self.ivbuf@;
        if chunk.len() < need {
            let mut t: usize = 0;
            while t < chunk.len()
                invariant
                    t <= chunk@.len(),
                    self.dec == old(self).dec,
                    self.ivbuf@ == ivbuf0 + chunk@.take(t as int),
                decreases chunk@.len() - t,
            {
                let byte = chunk[t];
                self.ivbuf.push(byte);
                assert(self.ivbuf@ =~= ivbuf0 + chunk@.take(t as int + 1));
                t += 1;
            }
            assert(self.ivbuf@ =~= ivbuf0 + chunk@);
            Vec::new()
        } else {
            let mut t: usize = 0;
            while t < need
                invariant
                    t <= need,
                    need <= chunk@.len(),
                    self.dec == old(self).dec,
                    self.ivbuf@ == ivbuf0 + chunk@.take(t as int),
                decreases need - t,
            {
                let byte = chunk[t];
                self.ivbuf.push(byte);
                assert(self.ivbuf@ =~= ivbuf0 + chunk@.take(t as int + 1));
                t += 1;
            }
            assert(self.ivbuf@ =~= ivbuf0 + chunk@.take(need as int));
            self.dec.init_with(self.ivbuf.as_slice());
            self.ivbuf.clear();
            let rest = vstd::slice::slice_subrange(chunk, need, chunk.len());
            let mut out = vstd::slice::slice_to_vec(rest);
            self.dec.crypt(&mut out);
            assert(rest@ =~= chunk@.skip(need as int));
            out
        }
    }
}

} // verus!
