//! The multiplicative rolling hash of a symbol's bytes.
use vstd::prelude::*;
use vstd::string::StringSliceAdditionalSpecFns;

verus! {

/// 2^32: every step of the hash is taken modulo this.
pub open spec fn hash_modulus() -> nat {
    0x1_0000_0000
}

/// The hash of a byte sequence: starting from 0, each byte in order
/// updates the accumulator to `acc * 31 + byte`, modulo 2^32.
pub open spec fn hash_bytes(b: Seq<u8>) -> u32
    decreases b.len(),
{
    if b.len() == 0 {
        0
    } else {
        ((hash_bytes(b.drop_last()) as nat * 31 + b.last() as nat) % hash_modulus()) as u32
    }
}

/// The hash of a string: the hash of its UTF-8 bytes.
pub open spec fn hash_str(s: &str) -> u32 {
    hash_bytes(s.spec_bytes())
}

/// Hashes the bytes of `s` with multiplier 31 and 32-bit wraparound.
pub fn hash_code(s: &str) -> (r: u32)
    ensures
        r == hash_str(s),
{
    let bytes = s.as_bytes();
    let n: usize = bytes.len();
    let mut acc: u32 = 0;
    let mut i: usize = 0;
    while i < n
        invariant
            n == bytes@.len(),
            bytes@ == s.spec_bytes(),
            i <= n,
            acc == hash_bytes(bytes@.subrange(0, i as int)),
        decreases n - i,
    {
        let byte: u8 = bytes[i];
        proof {
            let next = bytes@.subrange(0, i + 1);
            assert(next.drop_last() =~= bytes@.subrange(0, i as int));
            assert(next.last() == byte);
        }
        acc = acc.wrapping_mul(31).wrapping_add(byte as u32);
        proof {
            let prev = hash_bytes(bytes@.subrange(0, i as int)) as nat;
            assert(((prev * 31) % hash_modulus() + byte as nat) % hash_modulus()
                == (prev * 31 + byte as nat) % hash_modulus()) by (nonlinear_arith)
                requires hash_modulus() > 0;
        }
        i = i + 1;
    }
    assert(bytes@.subrange(0, n as int) =~= bytes@);
    acc
}

/// The hash is a function of the string's contents: two strings with the
/// same characters hash alike.
pub proof fn lemma_hash_depends_on_content(s: &str, t: &str)
    requires
        s@ == t@,
    ensures
        hash_str(s) == hash_str(t),
{
}

/// Appending a byte multiplies the hash by 31 and adds the byte, wrapping
/// around at 2^32.
pub proof fn lemma_hash_step(b: Seq<u8>, x: u8)
    ensures
        hash_bytes(b.push(x)) as nat == (hash_bytes(b) as nat * 31 + x as nat) % hash_modulus(),
{
    assert(b.push(x).drop_last() =~= b);
}

} // verus!
