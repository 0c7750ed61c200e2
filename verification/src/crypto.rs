//! Key derivation: `prf+` over HMAC-SHA256 (RFC 7296 section 2.13) and the keys of
//! a CHILD SA (section 2.17).

use vstd::prelude::*;
use vstd::slice::{slice_subrange, slice_to_vec};

use crate::bytes::append;
use crate::primitives::{hmac_sha256, hmac_sha256_code, HASH_MAX_LEN, PRF_MAX_LEN};

verus! {

/// Output length of the PRF.
pub const PRF_LEN: usize = 32;

/// The most bytes that `prf+` can give: its block counter is one byte.
pub const PRF_PLUS_MAX: usize = 8160;

/// Block `n` of `prf+`: the PRF of the block before it, the seed, and the counter.
/// Blocks count from 1.
pub open spec fn prf_block(key: Seq<u8>, seed: Seq<u8>, n: nat) -> Seq<u8>
    decreases n,
{
    if n == 0 {
        Seq::empty()
    } else {
        hmac_sha256_code(key, prf_block(key, seed, (n - 1) as nat) + seed + seq![n as u8])
    }
}

/// Blocks 1 to `n` of `prf+`, one after the other.
pub open spec fn prf_blocks(key: Seq<u8>, seed: Seq<u8>, n: nat) -> Seq<u8>
    decreases n,
{
    if n == 0 {
        Seq::empty()
    } else {
        prf_blocks(key, seed, (n - 1) as nat) + prf_block(key, seed, n)
    }
}

/// The first `len` bytes of `prf+(key, seed)`.
pub open spec fn prf_plus_bytes(key: Seq<u8>, seed: Seq<u8>, len: nat) -> Seq<u8> {
    prf_blocks(key, seed, ((len + PRF_LEN - 1) / PRF_LEN as int) as nat).take(len as int)
}

/// Block `i` of the stream `out`, 32 bytes or what `out` has left of them, is the
/// PRF of the block before it, the seed and the number `i + 1`; the first block has
/// none before it.
pub open spec fn prf_chained(key: Seq<u8>, seed: Seq<u8>, out: Seq<u8>, i: int) -> bool {
    let before = if i == 0 { Seq::empty() } else { out.subrange(32 * (i - 1), 32 * i) };
    let end = if 32 * i + 32 <= out.len() { 32 * i + 32 } else { out.len() as int };
    out.subrange(32 * i, end) == hmac_sha256_code(key, before + seed + seq![(i + 1) as u8]).take(end - 32 * i)
}

/// The lengths are within what the hash function's length field can count.
pub open spec fn prf_admits(key_len: nat, seed_len: nat) -> bool {
    &&& key_len <= HASH_MAX_LEN
    &&& seed_len + PRF_LEN + 1 <= PRF_MAX_LEN
}

/// The first `len` bytes of `prf+(key, seed)`.
pub fn prf_plus(key: &[u8], seed: &[u8], len: usize) -> (r: Vec<u8>)
    requires
        prf_admits(key@.len(), seed@.len()),
        len <= PRF_PLUS_MAX,
    ensures
        r@ == prf_plus_bytes(key@, seed@, len as nat),
        r@.len() == len,
        forall|i: int|
            #![trigger prf_chained(key@, seed@, r@, i)]
            0 <= i && 32 * i < len ==> prf_chained(key@, seed@, r@, i),
{
    let mut out: Vec<u8> = Vec::new();
    let mut block: Vec<u8> = Vec::new();
    let count: usize = (len + PRF_LEN - 1) / PRF_LEN;
    for i in 0..count
        invariant
            prf_admits(key@.len(), seed@.len()),
            len <= PRF_PLUS_MAX,
            count == (len + PRF_LEN - 1) / PRF_LEN as int,
            block@ == prf_block(key@, seed@, i as nat),
            block@.len() <= PRF_LEN,
            out@ == prf_blocks(key@, seed@, i as nat),
            out@.len() == i * PRF_LEN,
            forall|j: int|
                0 <= j < i ==> #[trigger] out@.subrange(32 * j, 32 * j + 32) == prf_block(key@, seed@, (j + 1) as nat),
    {
        let mut input: Vec<u8> = block;
        append(&mut input, seed);
        input.push((i + 1) as u8);
        let code = hmac_sha256(key, &input);
        assert(input@ =~= prf_block(key@, seed@, i as nat) + seed@ + seq![(i + 1) as u8]);
        let ghost before = out@;
        append(&mut out, &code);
        assert forall|j: int| 0 <= j < i + 1 implies #[trigger] out@.subrange(32 * j, 32 * j + 32) == prf_block(
            key@,
            seed@,
            (j + 1) as nat,
        ) by {
            if j < i {
                assert(out@.subrange(32 * j, 32 * j + 32) =~= before.subrange(32 * j, 32 * j + 32));
            } else {
                assert(out@.subrange(32 * j, 32 * j + 32) =~= code@);
            }
        }
        block = Vec::new();
        append(&mut block, &code);
        assert(block@ =~= code@);
    }
    let r = slice_to_vec(slice_subrange(&out, 0, len));
    assert(r@ =~= out@.take(len as int));
    proof {
        assert forall|i: int|
            #![trigger prf_chained(key@, seed@, r@, i)]
            0 <= i && 32 * i < len implies prf_chained(key@, seed@, r@, i) by {
            assert(i < count);
            assert(out@.subrange(32 * i, 32 * i + 32) == prf_block(key@, seed@, (i + 1) as nat));
            if i > 0 {
                assert(out@.subrange(32 * (i - 1), 32 * (i - 1) + 32) == prf_block(key@, seed@, i as nat));
                assert(r@.subrange(32 * (i - 1), 32 * i) =~= prf_block(key@, seed@, i as nat));
            }
            let before = prf_block(key@, seed@, i as nat);
            assert(i == 0 ==> before =~= Seq::<u8>::empty());
            assert(prf_block(key@, seed@, (i + 1) as nat) == hmac_sha256_code(
                key@,
                before + seed@ + seq![(i + 1) as u8],
            ));
            let end = if 32 * i + 32 <= len { 32 * i + 32 } else { len as int };
            assert(r@.subrange(32 * i, end) =~= prf_block(key@, seed@, (i + 1) as nat).take(end - 32 * i));
        }
    }
    r
}

/// The keys of a CHILD SA, for both directions.
pub struct ChildKeys {
    /// Encryption key of the initiator's outbound traffic.
    pub encr_i: Vec<u8>,
    /// Integrity key of the initiator's outbound traffic.
    pub integ_i: Vec<u8>,
    /// Encryption key of the responder's outbound traffic.
    pub encr_r: Vec<u8>,
    /// Integrity key of the responder's outbound traffic.
    pub integ_r: Vec<u8>,
}

/// Derives CHILD-SA keys: `prf+(SK_d, Ni | Nr)`, cut into the initiator's
/// encryption and integrity key and then the responder's.
pub fn derive_child_keys(
    sk_d: &[u8],
    ni: &[u8],
    nr: &[u8],
    encr_len: usize,
    integ_len: usize,
) -> (r: ChildKeys)
    requires
        prf_admits(sk_d@.len(), ni@.len() + nr@.len()),
        2 * (encr_len + integ_len) <= PRF_PLUS_MAX,
    ensures
        ({
            let keymat = prf_plus_bytes(sk_d@, ni@ + nr@, (2 * (encr_len + integ_len)) as nat);
            let half = encr_len + integ_len;
            &&& keymat.len() == 2 * half
            &&& r.encr_i@ == keymat.subrange(0, encr_len as int)
            &&& r.integ_i@ == keymat.subrange(encr_len as int, half)
            &&& r.encr_r@ == keymat.subrange(half, half + encr_len)
            &&& r.integ_r@ == keymat.subrange(half + encr_len, 2 * half)
        }),
{
    let mut seed: Vec<u8> = slice_to_vec(ni);
    append(&mut seed, nr);
    let half: usize = encr_len + integ_len;
    let keymat = prf_plus(sk_d, &seed, 2 * half);
    ChildKeys {
        encr_i: slice_to_vec(slice_subrange(&keymat, 0, encr_len)),
        integ_i: slice_to_vec(slice_subrange(&keymat, encr_len, half)),
        encr_r: slice_to_vec(slice_subrange(&keymat, half, half + encr_len)),
        integ_r: slice_to_vec(slice_subrange(&keymat, half + encr_len, 2 * half)),
    }
}

/// Law: the key material of a CHILD SA is the first 72 bytes of three blocks, each
/// the PRF of the block before it, both nonces and the block's number.
pub proof fn child_key_material(sk_d: Seq<u8>, ni: Seq<u8>, nr: Seq<u8>)
    ensures
        ({
            let t1 = hmac_sha256_code(sk_d, ni + nr + seq![1u8]);
            let t2 = hmac_sha256_code(sk_d, t1 + ni + nr + seq![2u8]);
            let t3 = hmac_sha256_code(sk_d, t2 + ni + nr + seq![3u8]);
            prf_plus_bytes(sk_d, ni + nr, 72) == (t1 + t2 + t3).take(72)
        }),
{
    let seed = ni + nr;
    let t1 = hmac_sha256_code(sk_d, ni + nr + seq![1u8]);
    let t2 = hmac_sha256_code(sk_d, t1 + ni + nr + seq![2u8]);
    let t3 = hmac_sha256_code(sk_d, t2 + ni + nr + seq![3u8]);
    reveal_with_fuel(prf_block, 4);
    reveal_with_fuel(prf_blocks, 4);
    assert(Seq::<u8>::empty() + seed + seq![1u8] =~= ni + nr + seq![1u8]);
    assert(t1 + seed + seq![2u8] =~= t1 + ni + nr + seq![2u8]);
    assert(t2 + seed + seq![3u8] =~= t2 + ni + nr + seq![3u8]);
    assert(prf_block(sk_d, seed, 1) == t1);
    assert(prf_block(sk_d, seed, 2) == t2);
    assert(prf_block(sk_d, seed, 3) == t3);
    assert(prf_blocks(sk_d, seed, 3) =~= t1 + t2 + t3);
    assert((72 + PRF_LEN - 1) / PRF_LEN as int == 3);
}

/// Law: how the key stream goes on, from any block to the next: each block is the
/// PRF of the one before it, the seed and its own number, and is appended to what
/// stands already; the stream is cut to the length that is asked for.
pub proof fn key_stream_goes_on(key: Seq<u8>, seed: Seq<u8>, n: nat, len: nat)
    ensures
        prf_block(key, seed, 0) == Seq::<u8>::empty(),
        prf_blocks(key, seed, 0) == Seq::<u8>::empty(),
        prf_block(key, seed, n + 1) == hmac_sha256_code(key, prf_block(key, seed, n) + seed + seq![(n + 1) as u8]),
        prf_blocks(key, seed, n + 1) == prf_blocks(key, seed, n) + hmac_sha256_code(
            key,
            prf_block(key, seed, n) + seed + seq![(n + 1) as u8],
        ),
        32 * n < len <= 32 * (n + 1) ==> prf_plus_bytes(key, seed, len) == prf_blocks(key, seed, n + 1).take(len as int),
{
}

} // verus!
