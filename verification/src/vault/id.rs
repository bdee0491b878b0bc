//! Note identity: recognising the persistent `arkeles_id` (a ULID written by
//! Hermes) and deriving a stable transient identity for unmanaged notes.
//! Nothing here generates a ULID.
use vstd::prelude::*;

use crate::text::{chars_of, dec, push_dec, push_str};
use vstd::string::StringSliceAdditionalSpecFns;

verus! {

/// The frontmatter key that carries a note's persistent identity.
pub const ID_KEY: &'static str = "arkeles_id";

/// A character of Crockford Base32 in upper case (no I, L, O, U).
pub open spec fn is_crockford(c: char) -> bool {
    ||| ('0' <= c && c <= '9')
    ||| ('A' <= c && c <= 'H')
    ||| c == 'J'
    ||| c == 'K'
    ||| c == 'M'
    ||| c == 'N'
    ||| ('P' <= c && c <= 'T')
    ||| ('V' <= c && c <= 'Z')
}

/// A well-formed ULID: 26 characters, each in Crockford Base32.
pub open spec fn ulid_shaped(s: Seq<char>) -> bool {
    s.len() == 26 && forall|i: int| 0 <= i < s.len() ==> is_crockford(#[trigger] s[i])
}

/// Recognises a ULID written by Hermes: 26 characters of Crockford Base32.
pub fn is_valid_ulid(candidate: &str) -> (b: bool)
    ensures
        b == ulid_shaped(candidate@),
{
    let cs = chars_of(candidate);
    if cs.len() != 26 {
        return false;
    }
    let mut i: usize = 0;
    while i < cs.len()
        invariant
            i <= cs@.len(),
            cs@ == candidate@,
            forall|j: int| 0 <= j < i ==> is_crockford(#[trigger] cs@[j]),
        decreases cs@.len() - i,
    {
        let c = cs[i];
        if !(('0' <= c && c <= '9') || ('A' <= c && c <= 'H') || c == 'J' || c == 'K' || c == 'M'
            || c == 'N' || ('P' <= c && c <= 'T') || ('V' <= c && c <= 'Z')) {
            return false;
        }
        i += 1;
    }
    true
}

/// FNV-1a offset basis.
pub const FNV_OFFSET: u64 = 0xcbf2_9ce4_8422_2325;

/// FNV-1a prime.
pub const FNV_PRIME: u64 = 0x0000_0100_0000_01b3;

/// 64-bit FNV-1a over a byte sequence.
pub open spec fn fnv1a64_spec(bytes: Seq<u8>) -> u64
    decreases bytes.len(),
{
    if bytes.len() == 0 {
        FNV_OFFSET
    } else {
        (fnv1a64_spec(bytes.drop_last()) ^ (bytes.last() as u64)).wrapping_mul(FNV_PRIME)
    }
}

/// 64-bit FNV-1a: not cryptographic, only for deriving identities.
pub fn fnv1a64(bytes: &[u8]) -> (h: u64)
    ensures
        h == fnv1a64_spec(bytes@),
{
    let mut hash: u64 = FNV_OFFSET;
    let mut i: usize = 0;
    while i < bytes.len()
        invariant
            i <= bytes@.len(),
            hash == fnv1a64_spec(bytes@.subrange(0, i as int)),
        decreases bytes@.len() - i,
    {
        proof {
            assert(bytes@.subrange(0, i + 1).drop_last() =~= bytes@.subrange(0, i as int));
        }
        hash = (hash ^ (bytes[i] as u64)).wrapping_mul(FNV_PRIME);
        i += 1;
    }
    assert(bytes@.subrange(0, bytes@.len() as int) =~= bytes@);
    hash
}

/// The transient identity of an unmanaged note: `path:` followed by the
/// decimal FNV-1a hash of its vault-relative path.
pub open spec fn transient_id_spec(path_bytes: Seq<u8>) -> Seq<char> {
    seq!['p', 'a', 't', 'h', ':'] + dec(fnv1a64_spec(path_bytes) as nat)
}

/// Stable identity for a note that carries no `arkeles_id`. It is derived
/// from the path and marked with a prefix so it never looks like a ULID.
pub fn transient_id(source_path: &str) -> (id: String)
    ensures
        id@ == transient_id_spec(source_path.spec_bytes()),
{
    let h = fnv1a64(source_path.as_bytes());
    let mut out = String::new();
    push_str(&mut out, "path:");
    proof {
        reveal_strlit("path:");
    }
    push_dec(&mut out, h);
    out
}

/// A transient identity is never taken for a persistent one: it starts
/// with a lower-case `p`, which Crockford Base32 does not use.
pub proof fn lemma_transient_id_not_ulid(path_bytes: Seq<u8>)
    ensures
        !ulid_shaped(transient_id_spec(path_bytes)),
{
    let t = transient_id_spec(path_bytes);
    assert(t[0] == 'p');
    assert(!is_crockford(t[0]));
}

} // verus!
