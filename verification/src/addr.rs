//! Content addresser: derives a stable storage key from a string identifier.
//!
//! The digest is a Fowler–Noll–Vo (FNV-1a) hash of the identifier's UTF-8
//! bytes: a pure function of the input, so the same identifier maps to the
//! same key in every call and in every process.  The canonical on-disk form
//! of a key is the digest written as sixteen lowercase hexadecimal digits.

use vstd::prelude::*;
use vstd::string::StringExecFns;
use vstd::string::StringSliceAdditionalSpecFns;

verus! {

/// FNV-1a 64-bit offset basis.
pub const FNV_OFFSET: u64 = 0xcbf29ce484222325;

/// FNV-1a 64-bit prime.
pub const FNV_PRIME: u64 = 0x100000001b3;

/// One FNV-1a round: fold a byte into the running hash.
pub open spec fn digest_step(acc: u64, b: u8) -> u64 {
    (((acc ^ (b as u64)) as nat * FNV_PRIME as nat) % 0x1_0000_0000_0000_0000) as u64
}

/// The digest of a byte sequence: FNV-1a folded over the bytes, left to right.
pub open spec fn digest_of(bytes: Seq<u8>) -> u64
    decreases bytes.len(),
{
    if bytes.len() == 0 {
        FNV_OFFSET
    } else {
        digest_step(digest_of(bytes.drop_last()), bytes.last())
    }
}

/// Derives the 64-bit digest of an identifier from its UTF-8 bytes.
///
/// Same input, same output: the result depends on the identifier alone,
/// so repeated calls — in one process or across processes — agree.
pub fn hash_uri(uri: &str) -> (r: u64)
    ensures
        r == digest_of(uri.spec_bytes()),
{
    let bytes: &[u8] = uri.as_bytes();
    let ghost all: Seq<u8> = bytes@;
    let mut h: u64 = FNV_OFFSET;
    let mut i: usize = 0;
    while i < bytes.len()
        invariant
            i <= all.len(),
            bytes@ == all,
            h == digest_of(all.take(i as int)),
        decreases all.len() - i,
    {
        let b: u8 = bytes[i];
        h = (h ^ (b as u64)).wrapping_mul(FNV_PRIME);
        i = i + 1;
        proof {
            assert(all.take(i as int).drop_last() =~= all.take(i - 1));
            assert(all.take(i as int).last() == b);
        }
    }
    proof {
        assert(all.take(all.len() as int) =~= all);
    }
    h
}

/// Stability of the content addresser: the digest is a function of the
/// identifier's bytes alone, so equal identifiers always receive equal
/// digests, in every call and in every process.
pub proof fn lemma_digest_stable(a: Seq<u8>, b: Seq<u8>)
    requires
        a == b,
    ensures
        digest_of(a) == digest_of(b),
{
}

/// The lowercase hexadecimal digit for a value below sixteen.
pub open spec fn hex_char(n: u64) -> char {
    if n == 0 {
        '0'
    } else if n == 1 {
        '1'
    } else if n == 2 {
        '2'
    } else if n == 3 {
        '3'
    } else if n == 4 {
        '4'
    } else if n == 5 {
        '5'
    } else if n == 6 {
        '6'
    } else if n == 7 {
        '7'
    } else if n == 8 {
        '8'
    } else if n == 9 {
        '9'
    } else if n == 10 {
        'a'
    } else if n == 11 {
        'b'
    } else if n == 12 {
        'c'
    } else if n == 13 {
        'd'
    } else if n == 14 {
        'e'
    } else {
        'f'
    }
}

/// The nibble of `d` at position `i`, counting the most significant first.
pub open spec fn nibble_at(d: u64, i: int) -> u64 {
    (d >> ((60 - 4 * i) as u64)) & 0xf
}

/// A 64-bit digest written as sixteen lowercase hexadecimal digits,
/// most significant first: the canonical on-disk key of an identifier.
pub open spec fn hex16(d: u64) -> Seq<char> {
    Seq::new(16, |i: int| hex_char(nibble_at(d, i)))
}

/// Formats a digest as its canonical sixteen-digit key string.
pub fn format_key(digest: u64) -> (r: String)
    ensures
        r@ == hex16(digest),
        r@.len() == 16,
{
    let mut r: String = String::new();
    let mut i: usize = 0;
    while i < 16
        invariant
            i <= 16,
            r@ == hex16(digest).take(i as int),
        decreases 16 - i,
    {
        let shift: u64 = 60 - 4 * (i as u64);
        let nibble: u64 = (digest >> shift) & 0xf;
        proof {
            reveal_strlit("0");
            reveal_strlit("1");
            reveal_strlit("2");
            reveal_strlit("3");
            reveal_strlit("4");
            reveal_strlit("5");
            reveal_strlit("6");
            reveal_strlit("7");
            reveal_strlit("8");
            reveal_strlit("9");
            reveal_strlit("a");
            reveal_strlit("b");
            reveal_strlit("c");
            reveal_strlit("d");
            reveal_strlit("e");
            reveal_strlit("f");
            assert((digest >> shift) & 0xf < 16) by (bit_vector);
        }
        let digit: &str = if nibble == 0 {
            "0"
        } else if nibble == 1 {
            "1"
        } else if nibble == 2 {
            "2"
        } else if nibble == 3 {
            "3"
        } else if nibble == 4 {
            "4"
        } else if nibble == 5 {
            "5"
        } else if nibble == 6 {
            "6"
        } else if nibble == 7 {
            "7"
        } else if nibble == 8 {
            "8"
        } else if nibble == 9 {
            "9"
        } else if nibble == 10 {
            "a"
        } else if nibble == 11 {
            "b"
        } else if nibble == 12 {
            "c"
        } else if nibble == 13 {
            "d"
        } else if nibble == 14 {
            "e"
        } else {
            "f"
        };
        proof {
            assert(digit@ =~= seq![hex_char(nibble_at(digest, i as int))]);
        }
        r.append(digit);
        i = i + 1;
        proof {
            assert(hex16(digest).take(i as int) =~= hex16(digest).take(i - 1).push(
                hex_char(nibble_at(digest, i - 1)),
            ));
        }
    }
    proof {
        assert(hex16(digest).take(16) =~= hex16(digest));
    }
    r
}

/// Derives the canonical key for an identifier: the hexadecimal form of
/// its digest.
pub fn image_key(uri: &str) -> (r: String)
    ensures
        r@ == hex16(digest_of(uri.spec_bytes())),
{
    let digest = hash_uri(uri);
    format_key(digest)
}

} // verus!
