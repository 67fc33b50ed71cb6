//! NIST SP 800-56C Rev.2 one-step KDF (Option 1: hash-based) with SHA-256, as
//! used by EAP-NOOB: a 32-bit big-endian counter starting at 1, FixedInfo led
//! by `"EAP-NOOB"`, and a 320-byte output split into
//! MSK/EMSK/AMSK/MethodId/Kms/Kmp/Kz.
//!
//! One block: `H( counter_be_u32 || Z || FixedInfo )`, concatenated until L bytes.

use vstd::prelude::*;
use crate::pairing::mac::{sha256, sha256_digest};
use crate::pairing::pin::be_bytes;

verus! {

/// EAP-NOOB derived-key material total length (bytes).
pub const EAPNOOB_OUTPUT_LEN: usize = 320;

/// The algorithm-id that leads FixedInfo: the ASCII bytes of `EAP-NOOB`.
pub open spec fn algorithm_id() -> Seq<u8> {
    seq![69u8, 65u8, 80u8, 45u8, 78u8, 79u8, 79u8, 66u8]
}

/// The input hashed for block number `counter`.
pub open spec fn kdf_block_input(counter: nat, z: Seq<u8>, fixed_info: Seq<u8>) -> Seq<u8> {
    be_bytes(counter, 4) + z + fixed_info
}

/// The first `n` blocks of the KDF output stream.
pub open spec fn kdf_stream(z: Seq<u8>, fixed_info: Seq<u8>, n: nat) -> Seq<u8>
    decreases n,
{
    if n == 0 {
        seq![]
    } else {
        kdf_stream(z, fixed_info, (n - 1) as nat) + sha256_digest(
            kdf_block_input(n, z, fixed_info),
        )
    }
}

/// The number of 32-byte blocks needed for `out_len` bytes.
pub open spec fn kdf_blocks(out_len: nat) -> nat {
    (out_len + 31) / 32
}

/// The one-step KDF output of length `out_len`.
pub open spec fn spec_kdf(z: Seq<u8>, fixed_info: Seq<u8>, out_len: nat) -> Seq<u8> {
    kdf_stream(z, fixed_info, kdf_blocks(out_len)).subrange(0, out_len as int)
}

/// The four big-endian bytes of a `u32`.
fn be_u32(c: u32) -> (out: Vec<u8>)
    ensures
        out@ == be_bytes(c as nat, 4),
{
    let mut out: Vec<u8> = Vec::new();
    out.push((c / 16777216) as u8);
    out.push(((c / 65536) % 256) as u8);
    out.push(((c / 256) % 256) as u8);
    out.push((c % 256) as u8);
    proof {
        let v = c as nat;
        reveal_with_fuel(be_bytes, 5);
        assert(v / 256 / 256 == v / 65536) by {
            vstd::arithmetic::div_mod::lemma_div_denominator(v as int, 256, 256);
        }
        assert(v / 65536 / 256 == v / 16777216) by {
            vstd::arithmetic::div_mod::lemma_div_denominator(v as int, 65536, 256);
        }
        assert(v / 16777216 < 256);
        assert(v / 256 / 256 / 256 / 256 == 0);
        assert(out@ =~= be_bytes(v, 4));
    }
    out
}

/// SP 800-56C one-step KDF with SHA-256: the first `out_len` bytes of
/// `H(1 || z || fixed_info) || H(2 || z || fixed_info) || ...`. Each full
/// 32-byte block of the output is the digest of its counter's input, and the
/// output for a shorter length is a prefix of this one.
pub fn one_step_kdf_sha256(z: &[u8], fixed_info: &[u8], out_len: usize) -> (out: Vec<u8>)
    requires
        out_len <= 32 * 0xFFFF_FFFEusize,
    ensures
        out@ == spec_kdf(z@, fixed_info@, out_len as nat),
        out@.len() == out_len,
        forall|n: int| 0 <= n <= out_len ==> #[trigger] out@.take(n) == spec_kdf(z@, fixed_info@, n as nat),
        forall|k: int|
            0 <= k && 32 * k + 32 <= out_len ==> #[trigger] out@.subrange(32 * k, 32 * k + 32) == sha256_digest(
                kdf_block_input((k + 1) as nat, z@, fixed_info@),
            ),
{
    let mut out: Vec<u8> = Vec::new();
    let mut counter: u32 = 1;
    while out.len() < out_len
        invariant
            1 <= counter,
            out@.len() == 32 * (counter - 1),
            out@ == kdf_stream(z@, fixed_info@, (counter - 1) as nat),
            forall|j: int| 0 <= j < counter ==> #[trigger] kdf_stream(z@, fixed_info@, j as nat) == out@.subrange(0, 32 * j),
            (counter - 1) * 32 < out_len + 32,
            out_len <= 32 * 0xFFFF_FFFEusize,
        decreases out_len + 32 - out@.len(),
    {
        let mut input = be_u32(counter);
        input.extend_from_slice(z);
        input.extend_from_slice(fixed_info);
        let block = sha256(input.as_slice());
        proof {
            assert(input@ =~= kdf_block_input(counter as nat, z@, fixed_info@));
        }
        let ghost old_out = out@;
        out.extend_from_slice(&block);
        proof {
            assert(out@ =~= kdf_stream(z@, fixed_info@, counter as nat));
            assert forall|j: int| 0 <= j < counter + 1 implies #[trigger] kdf_stream(z@, fixed_info@, j as nat) == out@.subrange(0, 32 * j) by {
                if j < counter {
                    assert(old_out.subrange(0, 32 * j) =~= out@.subrange(0, 32 * j));
                } else {
                    assert(out@.subrange(0, 32 * j) =~= out@);
                }
            }
        }
        counter = counter + 1;
    }
    let ghost full = out@;
    let ghost k = (counter - 1) as nat;
    proof {
        assert(k == kdf_blocks(out_len as nat)) by (nonlinear_arith)
            requires
                32 * k >= out_len,
                k * 32 < out_len + 32,
        ;
    }
    out.truncate(out_len);
    proof {
        assert(out@ =~= spec_kdf(z@, fixed_info@, out_len as nat));
        assert forall|n: int| 0 <= n <= out_len implies #[trigger] out@.take(n) == spec_kdf(z@, fixed_info@, n as nat) by {
            let b = kdf_blocks(n as nat);
            assert(b <= k && n <= 32 * b && 32 * b <= n + 31) by (nonlinear_arith)
                requires
                    b == (n + 31) / 32,
                    0 <= n <= out_len,
                    32 * k >= out_len,
            ;
            let bi: int = b as int;
            assert(kdf_stream(z@, fixed_info@, bi as nat) == full.subrange(0, 32 * bi));
            assert(out@.take(n) =~= full.subrange(0, (32 * b) as int).subrange(0, n));
        }
        assert forall|j: int|
            0 <= j && 32 * j + 32 <= out_len implies #[trigger] out@.subrange(32 * j, 32 * j + 32) == sha256_digest(
                kdf_block_input((j + 1) as nat, z@, fixed_info@),
            ) by {
            assert(j + 1 <= k) by (nonlinear_arith)
                requires
                    32 * j + 32 <= out_len,
                    32 * k >= out_len,
            ;
            let s0 = kdf_stream(z@, fixed_info@, j as nat);
            let s1 = kdf_stream(z@, fixed_info@, (j + 1) as nat);
            assert(s0 == full.subrange(0, 32 * j));
            assert(s1 == full.subrange(0, 32 * (j + 1)));
            assert(s1 == s0 + sha256_digest(kdf_block_input((j + 1) as nat, z@, fixed_info@)));
            assert(out@.subrange(32 * j, 32 * j + 32) =~= s1.subrange(32 * j, 32 * j + 32));
            assert(s1.subrange(32 * j, 32 * j + 32) =~= sha256_digest(kdf_block_input((j + 1) as nat, z@, fixed_info@)));
        }
    }
    out
}

/// The Completion-Exchange FixedInfo (RFC 9140 §3.5):
/// `"EAP-NOOB" || Np || Ns || len(Noob) as one byte || Noob`.
pub open spec fn spec_fixed_info(np: Seq<u8>, ns: Seq<u8>, noob: Seq<u8>) -> Seq<u8> {
    algorithm_id() + np + ns + seq![(noob.len() % 256) as u8] + noob
}

/// Build the Completion-Exchange FixedInfo (RFC 9140 §3.5, Table 4):
/// `AlgorithmId("EAP-NOOB") || PartyUInfo(Np) || PartyVInfo(Ns) ||
/// SuppPrivInfo(Datalen=len(Noob) as one byte, Noob)`.
pub fn eapnoob_fixed_info(np: &[u8], ns: &[u8], noob: &[u8]) -> (fi: Vec<u8>)
    ensures
        fi@ == spec_fixed_info(np@, ns@, noob@),
{
    let mut fi: Vec<u8> = Vec::new();
    fi.push(69u8);
    fi.push(65u8);
    fi.push(80u8);
    fi.push(45u8);
    fi.push(78u8);
    fi.push(79u8);
    fi.push(79u8);
    fi.push(66u8);
    fi.extend_from_slice(np);
    fi.extend_from_slice(ns);
    fi.push((noob.len() % 256) as u8);
    fi.extend_from_slice(noob);
    proof {
        assert(fi@ =~= spec_fixed_info(np@, ns@, noob@));
    }
    fi
}

/// Why a KDF output could not be split into keys.
#[derive(Debug, Clone, Copy, PartialEq, Eq, Structural)]
pub enum KdfError {
    /// Fewer than 320 bytes were supplied.
    OutputTooShort,
}

/// The 320-byte EAP-NOOB output, split into named keys:
/// MSK(64) EMSK(64) AMSK(64) MethodId(32) Kms(32) Kmp(32) Kz(32).
#[derive(Debug, Clone)]
pub struct DerivedKeys {
    pub msk: [u8; 64],
    pub emsk: [u8; 64],
    pub amsk: [u8; 64],
    pub method_id: [u8; 32],
    pub kms: [u8; 32],
    pub kmp: [u8; 32],
    pub kz: [u8; 32],
}

/// The keys carved out of a KDF output at the RFC 9140 offsets.
pub open spec fn keys_of(out: Seq<u8>, k: DerivedKeys) -> bool {
    &&& k.msk@ == out.subrange(0, 64)
    &&& k.emsk@ == out.subrange(64, 128)
    &&& k.amsk@ == out.subrange(128, 192)
    &&& k.method_id@ == out.subrange(192, 224)
    &&& k.kms@ == out.subrange(224, 256)
    &&& k.kmp@ == out.subrange(256, 288)
    &&& k.kz@ == out.subrange(288, 320)
}

fn copy64(src: &[u8], off: usize) -> (out: [u8; 64])
    requires
        off + 64 <= src@.len(),
    ensures
        out@ == src@.subrange(off as int, off + 64),
{
    let n = src.len();
    let mut out = [0u8; 64];
    let mut i: usize = 0;
    while i < 64
        invariant
            i <= 64,
            n == src@.len(),
            off + 64 <= src@.len(),
            out@.len() == 64,
            forall|j: int| 0 <= j < i ==> out@[j] == src@[off + j],
        decreases 64 - i,
    {
        out[i] = src[off + i];
        i = i + 1;
    }
    proof {
        assert(out@ =~= src@.subrange(off as int, off + 64));
    }
    out
}

fn copy32(src: &[u8], off: usize) -> (out: [u8; 32])
    requires
        off + 32 <= src@.len(),
    ensures
        out@ == src@.subrange(off as int, off + 32),
{
    let n = src.len();
    let mut out = [0u8; 32];
    let mut i: usize = 0;
    while i < 32
        invariant
            i <= 32,
            n == src@.len(),
            off + 32 <= src@.len(),
            out@.len() == 32,
            forall|j: int| 0 <= j < i ==> out@[j] == src@[off + j],
        decreases 32 - i,
    {
        out[i] = src[off + i];
        i = i + 1;
    }
    proof {
        assert(out@ =~= src@.subrange(off as int, off + 32));
    }
    out
}

impl DerivedKeys {
    /// Split a KDF output into keys; fails when it is shorter than 320 bytes.
    pub fn from_output(out: &[u8]) -> (r: Result<DerivedKeys, KdfError>)
        ensures
            match r {
                Ok(k) => out@.len() >= 320 && keys_of(out@, k),
                Err(e) => out@.len() < 320 && e == KdfError::OutputTooShort,
            },
    {
        if out.len() < EAPNOOB_OUTPUT_LEN {
            return Err(KdfError::OutputTooShort);
        }
        Ok(DerivedKeys {
            msk: copy64(out, 0),
            emsk: copy64(out, 64),
            amsk: copy64(out, 128),
            method_id: copy32(out, 192),
            kms: copy32(out, 224),
            kmp: copy32(out, 256),
            kz: copy32(out, 288),
        })
    }
}

/// The keys of the Completion Exchange: the KDF over `z` and the FixedInfo of
/// `(np, ns, noob)`, split at the RFC offsets.
pub open spec fn completion_keys(z: Seq<u8>, np: Seq<u8>, ns: Seq<u8>, noob: Seq<u8>, k: DerivedKeys) -> bool {
    keys_of(spec_kdf(z, spec_fixed_info(np, ns, noob), 320), k)
}

/// Derive the Completion-Exchange keys from the ECDH secret, the two nonces and
/// the out-of-band Noob.
pub fn derive_completion(z: &[u8], np: &[u8], ns: &[u8], noob: &[u8]) -> (k: DerivedKeys)
    ensures
        completion_keys(z@, np@, ns@, noob@, k),
{
    let fi = eapnoob_fixed_info(np, ns, noob);
    let out = one_step_kdf_sha256(z, fi.as_slice(), EAPNOOB_OUTPUT_LEN);
    match DerivedKeys::from_output(out.as_slice()) {
        Ok(k) => k,
        Err(_) => {
            proof {
                assert(false);
            }
            DerivedKeys {
                msk: [0u8; 64],
                emsk: [0u8; 64],
                amsk: [0u8; 64],
                method_id: [0u8; 32],
                kms: [0u8; 32],
                kmp: [0u8; 32],
                kz: [0u8; 32],
            }
        },
    }
}

} // verus!
