//! The SHA2 hash suite of FIPS 205 for security category 1 (section 11.2.1):
//! the tweakable hash functions `F`, `H`, `T_l` and the message hash `H_msg`,
//! built on SHA-256 and MGF1-SHA-256.

use vstd::prelude::*;
use sha2::Digest;
use crate::adrs::{Adrs, be32, lemma_be32_bytes};

verus! {

/// The SHA-256 digest of a byte string.
pub uninterp spec fn sha256_digest(data: Seq<u8>) -> Seq<u8>;

/// Calls `sha2::Sha256::digest`. Claims that the 32 bytes it returns are
/// the SHA-256 digest of `data`, named `sha256_digest`; nothing else is
/// stated of SHA-256.
#[verifier::external_body]
fn sha256(data: &[u8]) -> (digest: [u8; 32])
    ensures
        digest@ == sha256_digest(data@),
{
    sha2::Sha256::digest(data).into()
}

/// `k` zero bytes.
pub open spec fn zeros(k: nat) -> Seq<u8> {
    Seq::new(k, |i: int| 0u8)
}

/// The concatenation of a sequence of byte strings.
pub open spec fn concat(parts: Seq<Seq<u8>>) -> Seq<u8> {
    parts.flatten()
}

/// The SHA-256 input of the tweakable hash functions:
/// `PK.seed || toByte(0, 64 - n) || ADRS^c || M`.
pub open spec fn tweak_input(pk_seed: Seq<u8>, adrs: Adrs, msg: Seq<u8>, n: nat) -> Seq<u8> {
    pk_seed + zeros((64 - n) as nat) + adrs.compressed() + msg
}

/// The tweakable hash of the SHA2 category-1 suite (`F`, `H` and `T_l` alike):
/// the first `n` bytes of SHA-256 of `tweak_input`.
pub open spec fn tweak_hash(pk_seed: Seq<u8>, adrs: Adrs, msg: Seq<u8>, n: nat) -> Seq<u8> {
    sha256_digest(tweak_input(pk_seed, adrs, msg, n)).take(n as int)
}

/// The MGF1-SHA-256 output blocks for the counters `0 .. count`.
pub open spec fn mgf1_blocks(seed: Seq<u8>, count: nat) -> Seq<u8>
    decreases count,
{
    if count == 0 {
        Seq::empty()
    } else {
        mgf1_blocks(seed, (count - 1) as nat) + sha256_digest(seed + be32((count - 1) as u32))
    }
}

/// MGF1-SHA-256 (RFC 8017, appendix B.2.1): `len` bytes of output.
pub open spec fn mgf1(seed: Seq<u8>, len: nat) -> Seq<u8> {
    mgf1_blocks(seed, (len + 31) / 32).take(len as int)
}

/// `H_msg(R, PK.seed, PK.root, M)` = MGF1-SHA-256(R || PK.seed ||
/// SHA-256(R || PK.seed || PK.root || M), m).
pub open spec fn spec_h_msg(r: Seq<u8>, pk_seed: Seq<u8>, pk_root: Seq<u8>, msg: Seq<u8>, m: nat) -> Seq<u8> {
    mgf1(r + pk_seed + sha256_digest(r + pk_seed + pk_root + msg), m)
}

/// The tweakable hash is SHA-256 of `PK.seed`, `64 - n` zero bytes, the
/// 22-byte compressed address and the whole message, truncated to `n`
/// bytes; inputs that differ in the seed, the compressed address or any byte
/// of the message are different SHA-256 inputs.
pub proof fn law_tweak_hash_input(
    seed1: Seq<u8>,
    adrs1: Adrs,
    msg1: Seq<u8>,
    seed2: Seq<u8>,
    adrs2: Adrs,
    msg2: Seq<u8>,
    n: nat,
)
    requires
        n <= 64,
    ensures
        tweak_hash(seed1, adrs1, msg1, n) == sha256_digest(
            seed1 + Seq::new((64 - n) as nat, |i: int| 0u8) + adrs1.compressed() + msg1,
        ).take(n as int),
        tweak_input(seed1, adrs1, msg1, n).len() == seed1.len() + 86 - n + msg1.len(),
        seed1.len() == seed2.len() && tweak_input(seed1, adrs1, msg1, n) == tweak_input(seed2, adrs2, msg2, n)
            ==> seed1 == seed2 && adrs1.compressed() == adrs2.compressed() && msg1 == msg2,
{
    crate::adrs::law_compressed_injective(adrs1, adrs2);
    crate::adrs::law_compressed_injective(adrs2, adrs1);
    let t1 = tweak_input(seed1, adrs1, msg1, n);
    let t2 = tweak_input(seed2, adrs2, msg2, n);
    assert(zeros((64 - n) as nat) =~= Seq::new((64 - n) as nat, |i: int| 0u8));
    if seed1.len() == seed2.len() && t1 == t2 {
        let a = seed1.len() as int;
        let b = a + 64 - n;
        let c = b + 22;
        assert(t1.subrange(0, a) =~= seed1);
        assert(t2.subrange(0, a) =~= seed2);
        assert(t1.subrange(b, c) =~= adrs1.compressed());
        assert(t2.subrange(b, c) =~= adrs2.compressed());
        assert(t1.subrange(c, t1.len() as int) =~= msg1);
        assert(t2.subrange(c, t2.len() as int) =~= msg2);
    }
}

/// The MGF1 block stream: byte `j` of the first `count` blocks is byte
/// `j mod 32` of SHA-256 of the seed followed by the counter `j / 32`.
pub proof fn lemma_mgf1_blocks_bytes(seed: Seq<u8>, count: nat)
    requires
        forall|c: nat| c < count ==> (#[trigger] sha256_digest(seed + be32(c as u32))).len() == 32,
    ensures
        mgf1_blocks(seed, count).len() == 32 * count,
        forall|j: int|
            0 <= j < 32 * count ==> #[trigger] mgf1_blocks(seed, count)[j] == sha256_digest(
                seed + be32((j / 32) as u32),
            )[j % 32],
    decreases count,
{
    if count > 0 {
        let prev = (count - 1) as nat;
        lemma_mgf1_blocks_bytes(seed, prev);
        let d = sha256_digest(seed + be32(prev as u32));
        assert(d.len() == 32);
        assert forall|j: int| 0 <= j < 32 * count implies #[trigger] mgf1_blocks(seed, count)[j]
            == sha256_digest(seed + be32((j / 32) as u32))[j % 32] by {
            if j >= 32 * prev {
                assert(j / 32 == prev);
                assert(j % 32 == j - 32 * prev);
            }
        }
    }
}

/// MGF1-SHA-256 output: `len` bytes, byte `j` being byte `j mod 32` of
/// SHA-256 of the seed followed by the big-endian counter `j / 32`.
pub proof fn law_mgf1_bytes(seed: Seq<u8>, len: nat)
    requires
        forall|c: nat| c < (len + 31) / 32 ==> (#[trigger] sha256_digest(seed + be32(c as u32))).len() == 32,
    ensures
        mgf1(seed, len).len() == len,
        forall|j: int|
            0 <= j < len ==> #[trigger] mgf1(seed, len)[j] == sha256_digest(seed + be32((j / 32) as u32))[j
                % 32],
{
    lemma_mgf1_blocks_bytes(seed, (len + 31) / 32);
}

/// `H_msg` is MGF1-SHA-256, seeded with `R || PK.seed` and the SHA-256 digest
/// of the whole of `R || PK.seed || PK.root || M`, whatever the length of `M`.
pub proof fn law_h_msg_formula(r: Seq<u8>, pk_seed: Seq<u8>, pk_root: Seq<u8>, msg: Seq<u8>, m: nat)
    ensures
        spec_h_msg(r, pk_seed, pk_root, msg, m) == mgf1(
            r + pk_seed + sha256_digest(r + pk_seed + pk_root + msg),
            m,
        ),
{
}

/// `H_msg` depends on the message through the SHA-256 digest of the complete
/// input `R || PK.seed || PK.root || M`: two messages whose complete inputs
/// have the same digest have the same `H_msg`, and a message that changes the
/// digest of the complete input changes the MGF1 seed.
pub proof fn law_h_msg_whole_message(
    r: Seq<u8>,
    pk_seed: Seq<u8>,
    pk_root: Seq<u8>,
    msg1: Seq<u8>,
    msg2: Seq<u8>,
    m: nat,
)
    ensures
        sha256_digest(r + pk_seed + pk_root + msg1) == sha256_digest(r + pk_seed + pk_root + msg2)
            ==> spec_h_msg(r, pk_seed, pk_root, msg1, m) == spec_h_msg(r, pk_seed, pk_root, msg2, m),
        msg1 != msg2 ==> r + pk_seed + pk_root + msg1 != r + pk_seed + pk_root + msg2,
{
    if msg1 != msg2 && r + pk_seed + pk_root + msg1 == r + pk_seed + pk_root + msg2 {
        let p = r + pk_seed + pk_root;
        assert((p + msg1).subrange(p.len() as int, (p + msg1).len() as int) =~= msg1);
        assert((p + msg2).subrange(p.len() as int, (p + msg2).len() as int) =~= msg2);
    }
}

/// The byte strings of an array of `n`-byte blocks.
pub open spec fn blocks<const X: usize, const N: usize>(ml: [[u8; N]; X]) -> Seq<Seq<u8>> {
    ml@.map_values(|b: [u8; N]| b@)
}

/// The byte strings of a slice of messages.
pub open spec fn pieces(m: Seq<&[u8]>) -> Seq<Seq<u8>> {
    m.map_values(|p: &[u8]| p@)
}

/// Appends the bytes of `s` to `buf`.
pub fn append_bytes(buf: &mut Vec<u8>, s: &[u8])
    ensures
        final(buf)@ == old(buf)@ + s@,
{
    let mut i: usize = 0;
    while i < s.len()
        invariant
            i <= s@.len(),
            buf@ == old(buf)@ + s@.take(i as int),
        decreases s.len() - i,
    {
        buf.push(s[i]);
        i = i + 1;
        proof {
            assert(s@.take(i as int) =~= s@.take(i - 1).push(s@[i - 1]));
        }
    }
    proof {
        assert(s@.take(i as int) =~= s@);
    }
}

/// `PK.seed || toByte(0, 64 - N) || ADRS^c`.
fn tweak_prefix<const N: usize>(pk_seed: &[u8], adrs: &Adrs) -> (buf: Vec<u8>)
    requires
        N <= 64,
    ensures
        buf@ == pk_seed@ + zeros((64 - N) as nat) + adrs.compressed(),
{
    let mut buf: Vec<u8> = Vec::new();
    append_bytes(&mut buf, pk_seed);
    let mut k: usize = 0;
    while k < 64 - N
        invariant
            N <= 64,
            k <= 64 - N,
            buf@ == pk_seed@ + zeros(k as nat),
        decreases 64 - N - k,
    {
        buf.push(0u8);
        k = k + 1;
        proof {
            assert(zeros(k as nat) =~= zeros((k - 1) as nat).push(0u8));
        }
    }
    let c = adrs.to_22_bytes();
    append_bytes(&mut buf, &c);
    buf
}

/// The first `N` bytes of SHA-256 of `buf`.
fn truncated_digest<const N: usize>(buf: &Vec<u8>) -> (r: [u8; N])
    requires
        N <= 32,
    ensures
        r@ == sha256_digest(buf@).take(N as int),
{
    let d = sha256(buf.as_slice());
    let mut r = [0u8; N];
    let mut i: usize = 0;
    while i < N
        invariant
            N <= 32,
            d@ == sha256_digest(buf@),
            i <= N,
            r@.len() == N,
            forall|j: int| 0 <= j < i ==> r@[j] == d@[j],
        decreases N - i,
    {
        r[i] = d[i];
        i = i + 1;
    }
    proof {
        assert(r@ =~= d@.take(N as int));
    }
    r
}

/// `F(PK.seed, ADRS, M1)`.
pub fn f<const N: usize>(pk_seed: &[u8], adrs: &Adrs, m1: &[u8]) -> (r: [u8; N])
    requires
        N <= 32,
    ensures
        r@ == tweak_hash(pk_seed@, *adrs, m1@, N as nat),
        r@ == sha256_digest(pk_seed@ + Seq::new((64 - N) as nat, |i: int| 0u8) + adrs.compressed() + m1@).take(
            N as int,
        ),
{
    proof {
        law_tweak_hash_input(pk_seed@, *adrs, m1@, pk_seed@, *adrs, m1@, N as nat);
    }
    let mut buf = tweak_prefix::<N>(pk_seed, adrs);
    append_bytes(&mut buf, m1);
    truncated_digest::<N>(&buf)
}

/// `H(PK.seed, ADRS, M1 || M2)`.
pub fn h<const N: usize>(pk_seed: &[u8], adrs: &Adrs, m1: &[u8], m2: &[u8]) -> (r: [u8; N])
    requires
        N <= 32,
    ensures
        r@ == tweak_hash(pk_seed@, *adrs, m1@ + m2@, N as nat),
        r@ == sha256_digest(
            pk_seed@ + Seq::new((64 - N) as nat, |i: int| 0u8) + adrs.compressed() + m1@ + m2@,
        ).take(N as int),
{
    proof {
        law_tweak_hash_input(pk_seed@, *adrs, m1@ + m2@, pk_seed@, *adrs, m1@ + m2@, N as nat);
        let p = pk_seed@ + Seq::new((64 - N) as nat, |i: int| 0u8) + adrs.compressed();
        assert(p + m1@ + m2@ =~= p + (m1@ + m2@));
    }
    let mut buf = tweak_prefix::<N>(pk_seed, adrs);
    append_bytes(&mut buf, m1);
    append_bytes(&mut buf, m2);
    proof {
        let p = pk_seed@ + zeros((64 - N) as nat) + adrs.compressed();
        assert(p + m1@ + m2@ =~= p + (m1@ + m2@));
    }
    truncated_digest::<N>(&buf)
}

/// `T_l(PK.seed, ADRS, M)` for `M` given as `X` blocks of `N` bytes.
pub fn t_l<const X: usize, const N: usize>(pk_seed: &[u8], adrs: &Adrs, ml: &[[u8; N]; X]) -> (r: [u8; N])
    requires
        N <= 32,
    ensures
        r@ == tweak_hash(pk_seed@, *adrs, concat(blocks(*ml)), N as nat),
        r@ == sha256_digest(
            pk_seed@ + Seq::new((64 - N) as nat, |i: int| 0u8) + adrs.compressed() + blocks(*ml).flatten(),
        ).take(N as int),
{
    proof {
        law_tweak_hash_input(pk_seed@, *adrs, concat(blocks(*ml)), pk_seed@, *adrs, concat(blocks(*ml)), N as nat);
    }
    let mut buf = tweak_prefix::<N>(pk_seed, adrs);
    let ghost p = buf@;
    let mut i: usize = 0;
    while i < X
        invariant
            i <= X,
            ml@.len() == X,
            buf@ == p + concat(blocks(*ml).take(i as int)),
        decreases X - i,
    {
        append_bytes(&mut buf, &ml[i]);
        proof {
            let bs = blocks(*ml);
            assert(bs.take(i + 1) =~= bs.take(i as int).push(bs[i as int]));
            bs.take(i as int).lemma_flatten_push(bs[i as int]);
            assert(p + concat(bs.take(i as int)) + bs[i as int] =~= p + (concat(bs.take(i as int)) + bs[i as int]));
        }
        i = i + 1;
    }
    proof {
        assert(blocks(*ml).take(X as int) =~= blocks(*ml));
    }
    truncated_digest::<N>(&buf)
}

/// `T_k(PK.seed, ADRS, M)` compressing the FORS roots; the same function as
/// `t_l`.
pub fn t_len<const X: usize, const N: usize>(pk_seed: &[u8], adrs: &Adrs, ml: &[[u8; N]; X]) -> (r: [u8; N])
    requires
        N <= 32,
    ensures
        r@ == tweak_hash(pk_seed@, *adrs, concat(blocks(*ml)), N as nat),
        r@ == sha256_digest(
            pk_seed@ + Seq::new((64 - N) as nat, |i: int| 0u8) + adrs.compressed() + blocks(*ml).flatten(),
        ).take(N as int),
{
    proof {
        law_tweak_hash_input(pk_seed@, *adrs, concat(blocks(*ml)), pk_seed@, *adrs, concat(blocks(*ml)), N as nat);
    }
    t_l::<X, N>(pk_seed, adrs, ml)
}

/// MGF1-SHA-256 with `M` bytes of output.
fn mgf1_exec<const M: usize>(seed: &Vec<u8>) -> (out: [u8; M])
    requires
        M <= u32::MAX,
    ensures
        out@ == mgf1(seed@, M as nat),
        forall|c: nat| c < (M as nat + 31) / 32 ==> (#[trigger] sha256_digest(seed@ + be32(c as u32))).len() == 32,
{
    let mut out = [0u8; M];
    let mut pos: usize = 0;
    let mut counter: u32 = 0;
    while pos < M
        invariant
            M <= u32::MAX,
            out@.len() == M,
            mgf1_blocks(seed@, counter as nat).len() == 32 * counter,
            pos == (if 32 * counter <= M { 32 * counter } else { M as int }),
            32 * counter < M + 32,
            forall|j: int| 0 <= j < pos ==> out@[j] == mgf1_blocks(seed@, counter as nat)[j],
            forall|c: nat| c < counter ==> (#[trigger] sha256_digest(seed@ + be32(c as u32))).len() == 32,
        decreases M - pos,
    {
        let mut input = seed.clone();
        let cb = [
            (counter >> 24u32) as u8,
            ((counter >> 16u32) & 0xff) as u8,
            ((counter >> 8u32) & 0xff) as u8,
            (counter & 0xff) as u8,
        ];
        proof {
            lemma_be32_bytes(counter);
            assert(cb@ =~= be32(counter));
        }
        append_bytes(&mut input, &cb);
        let d = sha256(input.as_slice());
        let ghost prev = mgf1_blocks(seed@, counter as nat);
        let take: usize = if M - pos < 32 { M - pos } else { 32 };
        let mut j: usize = 0;
        while j < take
            invariant
                out@.len() == M,
                take <= 32,
                pos + take <= M,
                j <= take,
                d@.len() == 32,
                forall|k: int| 0 <= k < pos ==> out@[k] == prev[k],
                forall|k: int| 0 <= k < j ==> out@[pos + k] == d@[k],
            decreases take - j,
        {
            out[pos + j] = d[j];
            j = j + 1;
        }
        proof {
            assert(seed@ + be32(counter) == input@);
            let next = mgf1_blocks(seed@, (counter + 1) as nat);
            assert(next == prev + d@);
            assert forall|k: int| 0 <= k < pos + take implies out@[k] == next[k] by {
                if k >= pos {
                    assert(out@[pos + (k - pos)] == d@[k - pos]);
                }
            }
        }
        pos = pos + take;
        counter = counter + 1;
    }
    proof {
        assert(counter == (M + 31) / 32);
        assert(out@ =~= mgf1(seed@, M as nat));
    }
    out
}

/// `H_msg(R, PK.seed, PK.root, M)` with the message given in pieces whose
/// concatenation is `M`.
pub fn h_msg<const M: usize>(r: &[u8], pk_seed: &[u8], pk_root: &[u8], m: &[&[u8]]) -> (digest: [u8; M])
    requires
        M <= u32::MAX,
    ensures
        digest@ == spec_h_msg(r@, pk_seed@, pk_root@, concat(pieces(m@)), M as nat),
        digest@ == mgf1(
            r@ + pk_seed@ + sha256_digest(r@ + pk_seed@ + pk_root@ + concat(pieces(m@))),
            M as nat,
        ),
        forall|j: int|
            0 <= j < M ==> #[trigger] digest@[j] == sha256_digest(
                r@ + pk_seed@ + sha256_digest(r@ + pk_seed@ + pk_root@ + concat(pieces(m@))) + be32(
                    (j / 32) as u32,
                ),
            )[j % 32],
{
    let mut buf: Vec<u8> = Vec::new();
    append_bytes(&mut buf, r);
    append_bytes(&mut buf, pk_seed);
    append_bytes(&mut buf, pk_root);
    let ghost p = buf@;
    let mut i: usize = 0;
    while i < m.len()
        invariant
            i <= m@.len(),
            buf@ == p + concat(pieces(m@).take(i as int)),
        decreases m@.len() - i,
    {
        append_bytes(&mut buf, m[i]);
        proof {
            let ps = pieces(m@);
            assert(ps.take(i + 1) =~= ps.take(i as int).push(ps[i as int]));
            ps.take(i as int).lemma_flatten_push(ps[i as int]);
            assert(p + concat(ps.take(i as int)) + ps[i as int] =~= p + (concat(ps.take(i as int)) + ps[i as int]));
        }
        i = i + 1;
    }
    proof {
        assert(pieces(m@).take(m@.len() as int) =~= pieces(m@));
    }
    let inner = sha256(buf.as_slice());
    let mut seed: Vec<u8> = Vec::new();
    append_bytes(&mut seed, r);
    append_bytes(&mut seed, pk_seed);
    append_bytes(&mut seed, &inner);
    let out = mgf1_exec::<M>(&seed);
    proof {
        law_mgf1_bytes(seed@, M as nat);
    }
    out
}

} // verus!
