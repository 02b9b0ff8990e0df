//! Content hashing: SHA-256 digests and their lowercase hex encoding.
//!
//! Document and message identifiers are hex-encoded SHA-256 digests of a
//! canonical byte string. The digest itself comes from an outside
//! implementation and is only named here; the hex encoding is small enough
//! to state and prove outright.

use vstd::prelude::*;
use vstd::string::StringExecFns;

verus! {

/// The SHA-256 digest of a byte sequence. The algorithm is far too large to
/// restate here; all that matters to the identity model is that it is a pure
/// function of the input bytes.
pub uninterp spec fn sha256_of(bytes: Seq<u8>) -> Seq<u8>;

/// Relies on sha2::Sha256::digest: the SHA-256 digest of the input bytes,
/// a pure function of them, 32 bytes long.
#[verifier::external_body]
pub fn sha256_digest(bytes: &[u8]) -> (r: Vec<u8>)
    ensures
        r@ == sha256_of(bytes@),
        r@.len() == 32,
{
    <sha2::Sha256 as sha2::Digest>::digest(bytes).to_vec()
}

/// The lowercase hex digit for a nibble value.
pub open spec fn hex_digit(n: u8) -> char {
    if n == 0 {
        '0'
    } else if n == 1 {
        '1'
    } else if n == 2 {
        '2'
    } else if n == 3 {
        '3'
    } else if n == 4 {
        '4'
    } else if n == 5 {
        '5'
    } else if n == 6 {
        '6'
    } else if n == 7 {
        '7'
    } else if n == 8 {
        '8'
    } else if n == 9 {
        '9'
    } else if n == 10 {
        'a'
    } else if n == 11 {
        'b'
    } else if n == 12 {
        'c'
    } else if n == 13 {
        'd'
    } else if n == 14 {
        'e'
    } else {
        'f'
    }
}

/// Lowercase hex encoding of a byte sequence: high nibble first, two digits
/// per byte.
pub open spec fn hex_of(bytes: Seq<u8>) -> Seq<char>
    decreases bytes.len(),
{
    if bytes.len() == 0 {
        Seq::empty()
    } else {
        seq![hex_digit(bytes[0] >> 4), hex_digit(bytes[0] & 0xf)] + hex_of(bytes.drop_first())
    }
}

/// The one-character string for a nibble value.
fn hex_digit_str(n: u8) -> (r: &'static str)
    requires
        n < 16,
    ensures
        r@ == seq![hex_digit(n)],
{
    proof {
        reveal_strlit("0");
        reveal_strlit("1");
        reveal_strlit("2");
        reveal_strlit("3");
        reveal_strlit("4");
        reveal_strlit("5");
        reveal_strlit("6");
        reveal_strlit("7");
        reveal_strlit("8");
        reveal_strlit("9");
        reveal_strlit("a");
        reveal_strlit("b");
        reveal_strlit("c");
        reveal_strlit("d");
        reveal_strlit("e");
        reveal_strlit("f");
    }
    if n == 0 {
        "0"
    } else if n == 1 {
        "1"
    } else if n == 2 {
        "2"
    } else if n == 3 {
        "3"
    } else if n == 4 {
        "4"
    } else if n == 5 {
        "5"
    } else if n == 6 {
        "6"
    } else if n == 7 {
        "7"
    } else if n == 8 {
        "8"
    } else if n == 9 {
        "9"
    } else if n == 10 {
        "a"
    } else if n == 11 {
        "b"
    } else if n == 12 {
        "c"
    } else if n == 13 {
        "d"
    } else if n == 14 {
        "e"
    } else {
        "f"
    }
}

/// Lowercase hex encoding: high nibble of each byte first.
pub fn hex_encode(bytes: &[u8]) -> (r: String)
    ensures
        r@ == hex_of(bytes@),
{
    let mut out = String::new();
    let n = bytes.len();
    proof {
        assert(bytes@.skip(0) =~= bytes@);
    }
    let mut i: usize = 0;
    while i < n
        invariant
            n == bytes@.len(),
            i <= n,
            hex_of(bytes@) =~= out@ + hex_of(bytes@.skip(i as int)),
        decreases n - i,
    {
        let b = bytes[i];
        proof {
            assert(bytes@.skip(i as int)[0] == bytes@[i as int]);
            assert(bytes@.skip(i as int).drop_first() =~= bytes@.skip(i as int + 1));
            assert(hex_of(bytes@.skip(i as int)) == seq![hex_digit(b >> 4), hex_digit(b & 0xf)]
                + hex_of(bytes@.skip(i as int + 1)));
            assert(b >> 4 < 16 && b & 0xf < 16) by (bit_vector);
            assert(seq![hex_digit(b >> 4), hex_digit(b & 0xf)] =~= seq![hex_digit(b >> 4)] + seq![
                hex_digit(b & 0xf),
            ]);
        }
        out.append(hex_digit_str(b >> 4));
        out.append(hex_digit_str(b & 0xf));
        i += 1;
    }
    proof {
        assert(bytes@.skip(n as int) =~= Seq::<u8>::empty());
    }
    out
}

} // verus!
