//! Keyed one-way pseudonymization of identifier strings.
//!
//! A raw identifier is replaced by the lowercase hexadecimal rendering of the
//! SHA-256 digest of the secret followed by the identifier. The token is a
//! function of `(secret, identifier)` alone, so the same identifier maps to
//! the same token across snapshots, and nothing can be recovered from the
//! token without the secret.

use vstd::prelude::*;
use vstd::utf8::encode_utf8;
use sha2::Digest;

verus! {

/// The SHA-256 digest of a byte sequence. The digest itself is not written
/// out here; the trusted wrapper below ties this name to `sha2`.
pub uninterp spec fn sha256_of(data: Seq<u8>) -> Seq<u8>;

/// Relies on `sha2::Sha256::digest`: the 32-byte SHA-256 digest of the input,
/// a function of the input bytes alone.
#[verifier::external_body]
fn sha256(data: &[u8]) -> (r: Vec<u8>)
    ensures
        r@ == sha256_of(data@),
        r@.len() == 32,
{
    sha2::Sha256::digest(data).to_vec()
}

/// The lowercase hexadecimal digit for a value below 16.
pub open spec fn hex_digit(d: u8) -> char
    recommends
        d < 16,
{
    if d == 0 {
        '0'
    } else if d == 1 {
        '1'
    } else if d == 2 {
        '2'
    } else if d == 3 {
        '3'
    } else if d == 4 {
        '4'
    } else if d == 5 {
        '5'
    } else if d == 6 {
        '6'
    } else if d == 7 {
        '7'
    } else if d == 8 {
        '8'
    } else if d == 9 {
        '9'
    } else if d == 10 {
        'a'
    } else if d == 11 {
        'b'
    } else if d == 12 {
        'c'
    } else if d == 13 {
        'd'
    } else if d == 14 {
        'e'
    } else {
        'f'
    }
}

/// Lowercase hexadecimal rendering of a byte sequence: two digits per byte,
/// high nibble first.
pub open spec fn hex_lower_of(bytes: Seq<u8>) -> Seq<char>
    decreases bytes.len(),
{
    if bytes.len() == 0 {
        Seq::<char>::empty()
    } else {
        hex_lower_of(bytes.drop_last()) + seq![
            hex_digit(bytes.last() / 16),
            hex_digit(bytes.last() % 16),
        ]
    }
}

/// The hexadecimal rendering has exactly two digits per byte.
pub proof fn lemma_hex_lower_len(bytes: Seq<u8>)
    ensures
        hex_lower_of(bytes).len() == 2 * bytes.len(),
    decreases bytes.len(),
{
    if bytes.len() > 0 {
        lemma_hex_lower_len(bytes.drop_last());
    }
}

/// What `transform` returns: the lowercase hexadecimal rendering of the
/// SHA-256 digest of the secret's bytes followed by the identifier's bytes.
pub open spec fn transform_spec(secret: Seq<char>, value: Seq<char>) -> Seq<char> {
    hex_lower_of(sha256_of(encode_utf8(secret) + encode_utf8(value)))
}

fn append_hex_digit(out: &mut String, d: u8)
    requires
        d < 16,
    ensures
        final(out)@ == old(out)@ + seq![hex_digit(d)],
{
    if d == 0 {
        out.append("0");
        proof {
            reveal_strlit("0");
            assert(out@ =~= old(out)@ + seq![hex_digit(d)]);
        }
    } else if d == 1 {
        out.append("1");
        proof {
            reveal_strlit("1");
            assert(out@ =~= old(out)@ + seq![hex_digit(d)]);
        }
    } else if d == 2 {
        out.append("2");
        proof {
            reveal_strlit("2");
            assert(out@ =~= old(out)@ + seq![hex_digit(d)]);
        }
    } else if d == 3 {
        out.append("3");
        proof {
            reveal_strlit("3");
            assert(out@ =~= old(out)@ + seq![hex_digit(d)]);
        }
    } else if d == 4 {
        out.append("4");
        proof {
            reveal_strlit("4");
            assert(out@ =~= old(out)@ + seq![hex_digit(d)]);
        }
    } else if d == 5 {
        out.append("5");
        proof {
            reveal_strlit("5");
            assert(out@ =~= old(out)@ + seq![hex_digit(d)]);
        }
    } else if d == 6 {
        out.append("6");
        proof {
            reveal_strlit("6");
            assert(out@ =~= old(out)@ + seq![hex_digit(d)]);
        }
    } else if d == 7 {
        out.append("7");
        proof {
            reveal_strlit("7");
            assert(out@ =~= old(out)@ + seq![hex_digit(d)]);
        }
    } else if d == 8 {
        out.append("8");
        proof {
            reveal_strlit("8");
            assert(out@ =~= old(out)@ + seq![hex_digit(d)]);
        }
    } else if d == 9 {
        out.append("9");
        proof {
            reveal_strlit("9");
            assert(out@ =~= old(out)@ + seq![hex_digit(d)]);
        }
    } else if d == 10 {
        out.append("a");
        proof {
            reveal_strlit("a");
            assert(out@ =~= old(out)@ + seq![hex_digit(d)]);
        }
    } else if d == 11 {
        out.append("b");
        proof {
            reveal_strlit("b");
            assert(out@ =~= old(out)@ + seq![hex_digit(d)]);
        }
    } else if d == 12 {
        out.append("c");
        proof {
            reveal_strlit("c");
            assert(out@ =~= old(out)@ + seq![hex_digit(d)]);
        }
    } else if d == 13 {
        out.append("d");
        proof {
            reveal_strlit("d");
            assert(out@ =~= old(out)@ + seq![hex_digit(d)]);
        }
    } else if d == 14 {
        out.append("e");
        proof {
            reveal_strlit("e");
            assert(out@ =~= old(out)@ + seq![hex_digit(d)]);
        }
    } else {
        out.append("f");
        proof {
            reveal_strlit("f");
            assert(out@ =~= old(out)@ + seq![hex_digit(d)]);
        }
    }
}

/// Appends the lowercase hexadecimal rendering of `bytes` to `out`.
fn append_hex(out: &mut String, bytes: &[u8])
    ensures
        final(out)@ == old(out)@ + hex_lower_of(bytes@),
{
    let n = bytes.len();
    let mut i: usize = 0;
    while i < n
        invariant
            i <= n,
            n == bytes@.len(),
            out@ == old(out)@ + hex_lower_of(bytes@.take(i as int)),
        decreases n - i,
    {
        let b = bytes[i];
        append_hex_digit(out, b / 16);
        append_hex_digit(out, b % 16);
        proof {
            let t = bytes@.take(i + 1);
            assert(t.drop_last() =~= bytes@.take(i as int));
            assert(t.last() == b);
            assert(out@ =~= old(out)@ + hex_lower_of(bytes@.take(i + 1)));
        }
        i = i + 1;
    }
    proof {
        assert(bytes@.take(n as int) =~= bytes@);
    }
}

/// The deterministic, keyed, one-way transform: maps an identifier to the
/// lowercase hexadecimal SHA-256 digest of secret-then-identifier. The token
/// is 64 characters long and depends on the inputs alone.
pub fn transform(secret: &str, value: &str) -> (token: String)
    ensures
        token@ == transform_spec(secret@, value@),
        token@.len() == 64,
{
    let mut data: Vec<u8> = Vec::new();
    data.extend_from_slice(secret.as_bytes());
    data.extend_from_slice(value.as_bytes());
    proof {
        assert(data@ =~= encode_utf8(secret@) + encode_utf8(value@));
    }
    let digest = sha256(data.as_slice());
    let mut token = String::new();
    append_hex(&mut token, digest.as_slice());
    proof {
        lemma_hex_lower_len(digest@);
        assert(token@ =~= hex_lower_of(digest@));
    }
    token
}

/// Determinism of the pseudonymizer: the token is a function of the secret
/// and the identifier alone, so equal inputs always yield equal tokens.
pub proof fn lemma_transform_deterministic(
    s1: Seq<char>,
    v1: Seq<char>,
    s2: Seq<char>,
    v2: Seq<char>,
)
    requires
        s1 == s2,
        v1 == v2,
    ensures
        transform_spec(s1, v1) == transform_spec(s2, v2),
{
}

} // verus!
