//! The stream cipher engine: MD5-based key derivation (a password and a
//! per-direction IV are turned into a 16-byte cipher key), the key-scheduling
//! pass that builds the 256-byte permutation, and the per-byte pseudo-random
//! generation step whose output is XORed into the data.
use vstd::prelude::*;
use vstd::pervasive::VecAdditionalExecFns;

verus! {

/// XOR of two byte sequences, pointwise over the length of `a`.
pub open spec fn xor_seq(a: Seq<u8>, k: Seq<u8>) -> Seq<u8> {
    Seq::new(a.len(), |t: int| a[t] ^ k[t])
}

/// The 16-byte MD5 digest of `data`, named but not written out: the wrapper
/// `compute` is the only source of facts about it.
pub uninterp spec fn md5_of(data: Seq<u8>) -> Seq<u8>;

/// Relies on `Md5::digest` of the `md-5` crate: the 16-byte MD5 digest,
/// a function of the input bytes alone.
#[verifier::external_body]
pub fn compute(data: &[u8]) -> (r: Vec<u8>)
    ensures
        r@ == md5_of(data@),
        r@.len() == 16,
{
    <md5::Md5 as md5::Digest>::digest(data).to_vec()
}

/// `count` blocks of the iterative stretch: the first block hashes the data
/// itself, each later block hashes the previous block followed by the data.
pub open spec fn stretch_blocks(data: Seq<u8>, count: nat) -> Seq<u8>
    decreases count,
{
    if count == 0 {
        Seq::empty()
    } else if count == 1 {
        md5_of(data)
    } else {
        let prev = stretch_blocks(data, (count - 1) as nat);
        prev + md5_of(prev.skip(prev.len() - 16) + data)
    }
}

/// How many 16-byte hash blocks cover `key_len` bytes.
pub open spec fn blocks_for(key_len: nat) -> nat {
    if key_len % 16 == 0 {
        key_len / 16
    } else {
        key_len / 16 + 1
    }
}

/// The password stretched to exactly `key_len` bytes by iterative hashing.
pub open spec fn stretched_key(data: Seq<u8>, key_len: nat) -> Seq<u8> {
    stretch_blocks(data, blocks_for(key_len)).take(key_len as int)
}

/// The cipher key derived from a password and a per-direction IV: the digest
/// of the stretched password followed by the IV.
pub open spec fn rc4_key(password: Seq<u8>, iv: Seq<u8>) -> Seq<u8> {
    md5_of(stretched_key(password, 16) + iv)
}

/// Stretch `data` to exactly `key_len` bytes by iterative hashing: hash the
/// data, then repeatedly hash the previous 16 bytes followed by the data,
/// until `key_len` bytes are accumulated.
pub fn generate_key(data: &[u8], key_len: usize) -> (r: Vec<u8>)
    ensures
        r@ == stretched_key(data@, key_len as nat),
{
    let blocks: usize = if key_len % 16 == 0 {
        key_len / 16
    } else {
        key_len / 16 + 1
    };
    let mut key: Vec<u8> = Vec::new();
    if blocks == 0 {
        assert(stretch_blocks(data@, 0).take(key_len as int) =~= Seq::<u8>::empty());
        return key;
    }
    let mut first = compute(data);
    key.append(&mut first);
    let mut b: usize = 1;
    while b < blocks
        invariant
            1 <= b <= blocks,
            key@ == stretch_blocks(data@, b as nat),
            key@.len() == 16 * b,
        decreases blocks - b,
    {
        let ghost prev = key@;
        let start = key.len() - 16;
        let mut d: Vec<u8> = Vec::new();
        let mut t: usize = start;
        while t < key.len()
            invariant
                start <= t <= key@.len(),
                start == key@.len() - 16,
                d@ == key@.subrange(start as int, t as int),
            decreases key@.len() - t,
        {
            let byte = key[t];
            d.push(byte);
            t += 1;
        }
        assert(d@ =~= prev.skip(prev.len() - 16));
        let mut u: usize = 0;
        while u < data.len()
            invariant
                u <= data@.len(),
                d@ == prev.skip(prev.len() - 16) + data@.take(u as int),
            decreases data@.len() - u,
        {
            let byte = data[u];
            d.push(byte);
            assert(d@ =~= prev.skip(prev.len() - 16) + data@.take(u as int + 1));
            u += 1;
        }
        assert(d@ =~= prev.skip(prev.len() - 16) + data@);
        let mut h = compute(d.as_slice());
        key.append(&mut h);
        b += 1;
        assert(key@ == stretch_blocks(data@, b as nat));
    }
    proof {
        assert(16 * blocks >= key_len) by (nonlinear_arith)
            requires
                blocks == blocks_for(key_len as nat),
        ;
    }
    key.truncate(key_len);
    assert(key@ =~= stretched_key(data@, key_len as nat));
    key
}

/// Derive the 16-byte cipher key for one direction: the digest of the
/// stretched password followed by the IV.
pub fn generate_rc4_key(password: &[u8], iv: &[u8]) -> (r: Vec<u8>)
    ensures
        r@ == rc4_key(password@, iv@),
        r@.len() == 16,
{
    let mut buf = generate_key(password, 16);
    let ghost stretched = buf@;
    let mut u: usize = 0;
    while u < iv.len()
        invariant
            u <= iv@.len(),
            buf@ == stretched + iv@.take(u as int),
        decreases iv@.len() - u,
    {
        let byte = iv[u];
        buf.push(byte);
        assert(buf@ =~= stretched + iv@.take(u as int + 1));
        u += 1;
    }
    assert(buf@ =~= stretched + iv@);
    compute(buf.as_slice())
}

/// `s` with the entries at `x` and `y` exchanged.
pub open spec fn swap_seq(s: Seq<u8>, x: int, y: int) -> Seq<u8> {
    s.update(x, s[y]).update(y, s[x])
}

/// The identity permutation of the 256 byte values.
pub open spec fn identity_perm() -> Seq<u8> {
    Seq::new(256, |k: int| k as u8)
}

/// One round of key scheduling at position `i`: mix a key byte into `j` and
/// swap the entries at `i` and `j`.
pub open spec fn ksa_round(s: Seq<u8>, j: u8, key: Seq<u8>, i: int) -> (Seq<u8>, u8) {
    let j2 = (((j + s[i] + key[i % (key.len() as int)]) % 256) as u8);
    (swap_seq(s, i, j2 as int), j2)
}

/// The permutation and the mixing index after the first `n` rounds of key
/// scheduling, starting from the identity permutation.
pub open spec fn ksa_upto(key: Seq<u8>, n: int) -> (Seq<u8>, u8)
    decreases n,
{
    if n <= 0 {
        (identity_perm(), 0u8)
    } else {
        let prev = ksa_upto(key, n - 1);
        ksa_round(prev.0, prev.1, key, n - 1)
    }
}

/// The cipher permutation produced by the full key-scheduling pass over `key`.
pub open spec fn ksa(key: Seq<u8>) -> Seq<u8> {
    ksa_upto(key, 256).0
}

/// Some entry of the 256-byte table holds the value `b`.
pub open spec fn contains_byte(s: Seq<u8>, b: u8) -> bool {
    exists|k: int| 0 <= k < 256 && #[trigger] s[k] == b
}

/// A 256-entry table holding every byte value: what the cipher state table
/// is at all times once initialized.
pub open spec fn is_permutation(s: Seq<u8>) -> bool {
    s.len() == 256 && forall|b: u8| contains_byte(s, b)
}

/// Exchanging two entries keeps every byte value in the table.
proof fn lemma_swap_preserves_permutation(s: Seq<u8>, x: int, y: int)
    requires
        is_permutation(s),
        0 <= x < 256,
        0 <= y < 256,
    ensures
        is_permutation(swap_seq(s, x, y)),
{
    let s2 = swap_seq(s, x, y);
    assert forall|b: u8| contains_byte(s2, b) by {
        assert(contains_byte(s, b));
        let k0 = choose|k: int| 0 <= k < 256 && #[trigger] s[k] == b;
        if k0 == x {
            assert(s2[y] == b);
        } else if k0 == y {
            assert(s2[x] == b);
        } else {
            assert(s2[k0] == b);
        }
    }
}

/// After any number of key-scheduling rounds the table still holds every
/// byte value.
proof fn lemma_ksa_upto_permutation(key: Seq<u8>, n: int)
    requires
        n <= 256,
    ensures
        is_permutation(ksa_upto(key, n).0),
    decreases n,
{
    if n <= 0 {
        assert forall|b: u8| contains_byte(identity_perm(), b) by {
            assert(identity_perm()[b as int] == b);
        }
    } else {
        lemma_ksa_upto_permutation(key, n - 1);
        let prev = ksa_upto(key, n - 1);
        lemma_swap_preserves_permutation(
            prev.0,
            n - 1,
            ksa_round(prev.0, prev.1, key, n - 1).1 as int,
        );
    }
}

/// The key-scheduling pass produces a permutation of the 256 byte values.
pub proof fn lemma_ksa_is_permutation(key: Seq<u8>)
    ensures
        is_permutation(ksa(key)),
{
    lemma_ksa_upto_permutation(key, 256);
}

/// Every pseudo-random generation step keeps the table a permutation of the
/// 256 byte values: the invariant holds for the whole life of a direction's
/// cipher.
pub proof fn lemma_prga_preserves_permutation(s: Seq<u8>, i: u8, j: u8, n: nat)
    requires
        is_permutation(s),
    ensures
        is_permutation(prga_run(s, i, j, n).0),
    decreases n,
{
    if n > 0 {
        let st = prga_step(s, i, j);
        lemma_swap_preserves_permutation(s, st.1 as int, st.2 as int);
        lemma_prga_preserves_permutation(st.0, st.1, st.2, (n - 1) as nat);
    }
}

/// One pseudo-random generation step from state `(s, i, j)`: the new state
/// and the keystream byte it emits.
pub open spec fn prga_step(s: Seq<u8>, i: u8, j: u8) -> (Seq<u8>, u8, u8, u8) {
    let i2 = (((i + 1) % 256) as u8);
    let j2 = (((j + s[i2 as int]) % 256) as u8);
    let s2 = swap_seq(s, i2 as int, j2 as int);
    let out = s2[((s2[i2 as int] + s2[j2 as int]) % 256) as int];
    (s2, i2, j2, out)
}

/// `n` pseudo-random generation steps from state `(s, i, j)`: the final
/// state and the `n` keystream bytes emitted along the way.
pub open spec fn prga_run(s: Seq<u8>, i: u8, j: u8, n: nat) -> (Seq<u8>, u8, u8, Seq<u8>)
    decreases n,
{
    if n == 0 {
        (s, i, j, Seq::<u8>::empty())
    } else {
        let st = prga_step(s, i, j);
        let rest = prga_run(st.0, st.1, st.2, (n - 1) as nat);
        (rest.0, rest.1, rest.2, seq![st.3] + rest.3)
    }
}

/// The next `n` keystream bytes from state `(s, i, j)`.
pub open spec fn keystream(s: Seq<u8>, i: u8, j: u8, n: nat) -> Seq<u8> {
    prga_run(s, i, j, n).3
}

/// The keystream is one byte per step.
pub proof fn lemma_keystream_len(s: Seq<u8>, i: u8, j: u8, n: nat)
    ensures
        keystream(s, i, j, n).len() == n,
    decreases n,
{
    if n > 0 {
        let st = prga_step(s, i, j);
        lemma_keystream_len(st.0, st.1, st.2, (n - 1) as nat);
    }
}

/// Streaming equivalence: running the generator `a + b` steps is the same as
/// running it `a` steps and then `b` more from the state it reached, and the
/// keystream of the long run is the two shorter keystreams concatenated.
pub proof fn lemma_prga_run_append(s: Seq<u8>, i: u8, j: u8, a: nat, b: nat)
    ensures
        ({
            let ra = prga_run(s, i, j, a);
            let rb = prga_run(ra.0, ra.1, ra.2, b);
            prga_run(s, i, j, a + b) == (rb.0, rb.1, rb.2, ra.3 + rb.3)
        }),
    decreases a,
{
    let ra = prga_run(s, i, j, a);
    let rb = prga_run(ra.0, ra.1, ra.2, b);
    if a == 0 {
        assert(ra.3 + rb.3 =~= rb.3);
        assert(prga_run(s, i, j, a + b) == prga_run(s, i, j, b));
    } else {
        let st = prga_step(s, i, j);
        lemma_prga_run_append(st.0, st.1, st.2, (a - 1) as nat, b);
        let ra1 = prga_run(st.0, st.1, st.2, (a - 1) as nat);
        let rb1 = prga_run(ra1.0, ra1.1, ra1.2, b);
        assert(prga_run(st.0, st.1, st.2, (a - 1 + b) as nat)
            == (rb1.0, rb1.1, rb1.2, ra1.3 + rb1.3));
        assert(a + b == 1 + ((a - 1 + b) as nat));
        assert(prga_run(s, i, j, a + b).3 =~= seq![st.3] + (ra1.3 + rb1.3));
        assert(seq![st.3] + (ra1.3 + rb1.3) =~= (seq![st.3] + ra1.3) + rb1.3);
        assert(prga_run(s, i, j, a + b).3 =~= ra.3 + rb.3);
    }
}

/// One more step at the end: state `n + 1` is one generation step past state
/// `n`, and the keystream grows by that step's byte.
pub proof fn lemma_prga_run_snoc(s: Seq<u8>, i: u8, j: u8, n: nat)
    ensures
        ({
            let rn = prga_run(s, i, j, n);
            let st = prga_step(rn.0, rn.1, rn.2);
            prga_run(s, i, j, n + 1) == (st.0, st.1, st.2, rn.3 + seq![st.3])
        }),
{
    let rn = prga_run(s, i, j, n);
    let st = prga_step(rn.0, rn.1, rn.2);
    lemma_prga_run_append(s, i, j, n, 1);
    assert(prga_run(st.0, st.1, st.2, 0) == (st.0, st.1, st.2, Seq::<u8>::empty()));
    assert(prga_run(rn.0, rn.1, rn.2, 1).3 =~= seq![st.3]);
    assert(prga_run(rn.0, rn.1, rn.2, 1).0 =~= st.0);
}

/// The stream cipher for one direction of one connection: constructed holding
/// the raw password, initialized exactly once when that direction's IV is
/// known, then advanced byte by byte.
pub struct Rc4 {
    pub i: u8,
    pub j: u8,
    pub state: Vec<u8>,
    pub password: Vec<u8>,
    pub init: bool,
}

impl Rc4 {
    /// The state table always holds the 256 byte values.
    pub open spec fn wf(self) -> bool {
        self.state@.len() == 256
    }

    /// A fresh, uninitialized cipher holding the password.
    pub fn new(password: &[u8]) -> (r: Rc4)
        ensures
            r.wf(),
            !r.init,
            r.password@ == password@,
            r.i == 0,
            r.j == 0,
    {
        let mut state: Vec<u8> = Vec::new();
        let mut k: usize = 0;
        while k < 256
            invariant
                k <= 256,
                state@.len() == k,
            decreases 256 - k,
        {
            state.push(0);
            k += 1;
        }
        Rc4 { i: 0, j: 0, state, password: vstd::slice::slice_to_vec(password), init: false }
    }

    /// Whether the IV has been mixed in yet.
    pub fn is_init(&self) -> (r: bool)
        ensures
            r == self.init,
    {
        self.init
    }

    /// Mix the IV into the password-derived key and run the key-scheduling
    /// pass; afterwards the state table is `ksa` of the derived key and the
    /// generator indexes are zero.
    pub fn init(&mut self, iv: &[u8])
        requires
            old(self).wf(),
            !old(self).init,
        ensures
            final(self).wf(),
            final(self).init,
            final(self).password@ == old(self).password@,
            final(self).state@ == ksa(rc4_key(old(self).password@, iv@)),
            is_permutation(final(self).state@),
            final(self).i == 0,
            final(self).j == 0,
    {
        proof {
            lemma_ksa_is_permutation(rc4_key(old(self).password@, iv@));
        }
        let key = generate_rc4_key(self.password.as_slice(), iv);
        let mut idx: usize = 0;
        while idx < 256
            invariant
                idx <= 256,
                self.state@.len() == 256,
                self.password@ == old(self).password@,
                self.i == old(self).i,
                self.j == old(self).j,
                self.init == old(self).init,
                key@ == rc4_key(old(self).password@, iv@),
                key@.len() == 16,
                forall|k: int| 0 <= k < idx ==> self.state@[k] == k as u8,
            decreases 256 - idx,
        {
            self.state.set(idx, idx as u8);
            idx += 1;
        }
        assert(self.state@ =~= identity_perm());
        let mut j: u8 = 0;
        let mut i: usize = 0;
        while i < 256
            invariant
                i <= 256,
                self.state@.len() == 256,
                self.password@ == old(self).password@,
                self.init == old(self).init,
                key@ == rc4_key(old(self).password@, iv@),
                key@.len() == 16,
                self.state@ == ksa_upto(key@, i as int).0,
                j == ksa_upto(key@, i as int).1,
            decreases 256 - i,
        {
            let si = self.state[i];
            let kb = key[i % key.len()];
            proof {
                let jold = j;
                assert(vstd::wrapping::u8_specs::wrapping_add(
                    vstd::wrapping::u8_specs::wrapping_add(jold, si), kb)
                    == ((jold + si + kb) % 256) as u8);
            }
            j = j.wrapping_add(si).wrapping_add(kb);
            let a = self.state[i];
            let b = self.state[j as usize];
            self.state.set(i, b);
            self.state.set(j as usize, a);
            i += 1;
            assert(self.state@ == ksa_upto(key@, i as int).0);
        }
        self.i = 0;
        self.j = 0;
        self.init = true;
    }

    /// One pseudo-random generation step: advance the indexes, swap two
    /// table entries, and emit the next keystream byte.
    pub fn next_byte(&mut self) -> (r: u8)
        requires
            old(self).wf(),
            old(self).init,
        ensures
            final(self).wf(),
            final(self).init,
            final(self).password@ == old(self).password@,
            (final(self).state@, final(self).i, final(self).j, r)
                == prga_step(old(self).state@, old(self).i, old(self).j),
            is_permutation(old(self).state@) ==> is_permutation(final(self).state@),
    {
        proof {
            if is_permutation(old(self).state@) {
                lemma_prga_preserves_permutation(old(self).state@, old(self).i, old(self).j, 1);
                let st = prga_step(old(self).state@, old(self).i, old(self).j);
                assert(prga_run(st.0, st.1, st.2, 0) == (st.0, st.1, st.2, Seq::<u8>::empty()));
                assert(prga_run(old(self).state@, old(self).i, old(self).j, 1).0 == st.0);
            }
            let s = self.state@;
            assert(vstd::wrapping::u8_specs::wrapping_add(self.i, 1)
                == ((self.i + 1) % 256) as u8);
        }
        self.i = self.i.wrapping_add(1);
        let si = self.state[self.i as usize];
        proof {
            assert(vstd::wrapping::u8_specs::wrapping_add(self.j, si)
                == ((self.j + si) % 256) as u8);
        }
        self.j = self.j.wrapping_add(si);
        let a = self.state[self.i as usize];
        let b = self.state[self.j as usize];
        self.state.set(self.i as usize, b);
        self.state.set(self.j as usize, a);
        let x = self.state[self.i as usize];
        let y = self.state[self.j as usize];
        proof {
            assert(vstd::wrapping::u8_specs::wrapping_add(x, y) == ((x + y) % 256) as u8);
        }
        let out = self.state[x.wrapping_add(y) as usize];
        out
    }

    /// XOR the keystream into `input` byte by byte: afterwards `input` holds
    /// the old bytes XORed with the next `input.len()` keystream bytes, and
    /// the cipher state has advanced by exactly that many steps.
    pub fn crypt_inplace(&mut self, input: &mut Vec<u8>)
        requires
            old(self).wf(),
            old(self).init,
        ensures
            final(self).wf(),
            final(self).init,
            final(self).password@ == old(self).password@,
            final(input)@.len() == old(input)@.len(),
            final(input)@ == xor_seq(
                old(input)@,
                keystream(old(self).state@, old(self).i, old(self).j, old(input)@.len() as nat),
            ),
            (final(self).state@, final(self).i, final(self).j) == {
                let r = prga_run(
                    old(self).state@,
                    old(self).i,
                    old(self).j,
                    old(input)@.len() as nat,
                );
                (r.0, r.1, r.2)
            },
            is_permutation(old(self).state@) ==> is_permutation(final(self).state@),
    {
        proof {
            if is_permutation(old(self).state@) {
                lemma_prga_preserves_permutation(
                    old(self).state@,
                    old(self).i,
                    old(self).j,
                    old(input)@.len() as nat,
                );
            }
        }
        let ghost s0 = old(self).state@;
        let ghost i0 = old(self).i;
        let ghost j0 = old(self).j;
        let n = input.len();
        let mut k: usize = 0;
        while k < n
            invariant
                k <= n,
                self.wf(),
                self.init,
                self.password@ == old(self).password@,
                n == input@.len(),
                n == old(input)@.len(),
                (self.state@, self.i, self.j) == {
                    let r = prga_run(s0, i0, j0, k as nat);
                    (r.0, r.1, r.2)
                },
                input@ == xor_seq(old(input)@.take(k as int), keystream(s0, i0, j0, k as nat))
                    + old(input)@.skip(k as int),
            decreases n - k,
        {
            proof {
                lemma_keystream_len(s0, i0, j0, k as nat);
            }
            let ks = self.next_byte();
            let cur = input[k];
            input.set(k, cur ^ ks);
            proof {
                lemma_prga_run_snoc(s0, i0, j0, k as nat);
                lemma_keystream_len(s0, i0, j0, (k + 1) as nat);
                assert(input@ =~= xor_seq(
                    old(input)@.take(k as int + 1),
                    keystream(s0, i0, j0, (k + 1) as nat),
                ) + old(input)@.skip(k as int + 1));
            }
            k += 1;
        }
        proof {
            lemma_keystream_len(s0, i0, j0, n as nat);
            assert(input@ =~= xor_seq(old(input)@, keystream(s0, i0, j0, n as nat)));
        }
    }
}

/// Streaming equivalence at the data level: encrypting `a + b` against one
/// continuous keystream gives the same bytes as encrypting `a` and then `b`,
/// the second call picking up from the state the first one reached.
pub proof fn lemma_crypt_streaming(s: Seq<u8>, i: u8, j: u8, a: Seq<u8>, b: Seq<u8>)
    ensures
        ({
            let r = prga_run(s, i, j, a.len() as nat);
            xor_seq(a + b, keystream(s, i, j, (a.len() + b.len()) as nat)) == xor_seq(
                a,
                keystream(s, i, j, a.len() as nat),
            ) + xor_seq(b, keystream(r.0, r.1, r.2, b.len() as nat))
        }),
{
    let r = prga_run(s, i, j, a.len() as nat);
    let ka = keystream(s, i, j, a.len() as nat);
    let kb = keystream(r.0, r.1, r.2, b.len() as nat);
    let kab = keystream(s, i, j, (a.len() + b.len()) as nat);
    lemma_prga_run_append(s, i, j, a.len() as nat, b.len() as nat);
    lemma_keystream_len(s, i, j, a.len() as nat);
    lemma_keystream_len(r.0, r.1, r.2, b.len() as nat);
    assert(kab == ka + kb);
    assert forall|t: int| 0 <= t < a.len() + b.len() implies xor_seq(a + b, kab)[t] == (xor_seq(
        a,
        ka,
    ) + xor_seq(b, kb))[t] by {
        if t < a.len() {
            assert((a + b)[t] == a[t]);
            assert(kab[t] == ka[t]);
        } else {
            assert((a + b)[t] == b[t - a.len()]);
            assert(kab[t] == kb[t - a.len()]);
        }
    }
    assert(xor_seq(a + b, kab) =~= xor_seq(a, ka) + xor_seq(b, kb));
}

/// XOR with the same sequence is self-inverse: applying `xor_seq` with `k`
/// twice restores the bytes.
pub proof fn lemma_xor_self_inverse(a: Seq<u8>, k: Seq<u8>)
    requires
        k.len() >= a.len(),
    ensures
        xor_seq(xor_seq(a, k), k) == a,
{
    assert forall|t: int| 0 <= t < a.len() implies xor_seq(xor_seq(a, k), k)[t] == a[t] by {
        let x = a[t];
        let y = k[t];
        assert((x ^ y) ^ y == x) by (bit_vector);
    }
    assert(xor_seq(xor_seq(a, k), k) =~= a);
}

/// Cipher round trip: XORing a buffer with the keystream of a state and then
/// again with the same keystream restores the buffer.
pub proof fn lemma_crypt_roundtrip(s: Seq<u8>, i: u8, j: u8, b: Seq<u8>)
    ensures
        xor_seq(xor_seq(b, keystream(s, i, j, b.len() as nat)), keystream(s, i, j, b.len() as nat))
            == b,
{
    lemma_keystream_len(s, i, j, b.len() as nat);
    lemma_xor_self_inverse(b, keystream(s, i, j, b.len() as nat));
}

} // verus!
