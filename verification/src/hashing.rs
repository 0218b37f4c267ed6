//! SHA-256 (through the `bitcoin` crate), hex rendering of identifiers, and
//! the probing-cookie scheme that marks probe payments.

use vstd::prelude::*;

use crate::types::{PaymentHash, PaymentId, PaymentPreimage};

verus! {

/// The SHA-256 digest of a byte sequence. The digest is a function of the
/// input bytes alone; its value is not restated here.
pub uninterp spec fn sha256_of(data: Seq<u8>) -> Seq<u8>;

/// Relies on `bitcoin::hashes::sha256::Hash::hash`: the SHA-256 digest of the
/// input bytes, 32 bytes long, a function of the input alone.
#[verifier::external_body]
fn sha256(data: &Vec<u8>) -> (r: [u8; 32])
    ensures
        r@ == sha256_of(data@),
{
    <bitcoin::hashes::sha256::Hash as bitcoin::hashes::Hash>::into_inner(
        <bitcoin::hashes::sha256::Hash as bitcoin::hashes::Hash>::hash(data.as_slice()),
    )
}

/// The payment hash committed in HTLCs for a preimage.
pub open spec fn hash_of_preimage(preimage: Seq<u8>) -> Seq<u8> {
    sha256_of(preimage)
}

/// Computes the `PaymentHash` for a preimage: its SHA-256 digest.
pub fn payment_hash_for_preimage(preimage: &PaymentPreimage) -> (r: PaymentHash)
    ensures
        r@ == hash_of_preimage(preimage@),
{
    let mut data: Vec<u8> = Vec::new();
    let mut i: usize = 0;
    while i < 32
        invariant
            0 <= i <= 32,
            data@ == preimage.0@.subrange(0, i as int),
        decreases 32 - i,
    {
        data.push(preimage.0[i]);
        i += 1;
    }
    proof {
        assert(data@ =~= preimage@);
    }
    PaymentHash(sha256(&data))
}

/// The probing cookie for a payment id: the SHA-256 digest of the node's
/// probing secret followed by the id.
pub open spec fn probing_cookie(payment_id: Seq<u8>, probing_cookie_secret: Seq<u8>) -> Seq<u8> {
    sha256_of(probing_cookie_secret + payment_id)
}

/// Returns the probing cookie for the given `PaymentId`.
pub fn probing_cookie_from_id(payment_id: &PaymentId, probing_cookie_secret: [u8; 32]) -> (r:
    PaymentHash)
    ensures
        r@ == probing_cookie(payment_id@, probing_cookie_secret@),
{
    let mut preimage: Vec<u8> = Vec::new();
    let mut i: usize = 0;
    while i < 32
        invariant
            0 <= i <= 32,
            preimage@ == probing_cookie_secret@.subrange(0, i as int),
        decreases 32 - i,
    {
        preimage.push(probing_cookie_secret[i]);
        i += 1;
    }
    let mut j: usize = 0;
    while j < 32
        invariant
            0 <= j <= 32,
            preimage@ == probing_cookie_secret@ + payment_id.0@.subrange(0, j as int),
        decreases 32 - j,
    {
        preimage.push(payment_id.0[j]);
        j += 1;
    }
    proof {
        assert(preimage@ =~= probing_cookie_secret@ + payment_id@);
    }
    PaymentHash(sha256(&preimage))
}

/// Whether a payment with the given hash and id is, in fact, a payment probe:
/// exactly when the hash equals the id's probing cookie.
pub open spec fn is_probe(payment_hash: Seq<u8>, payment_id: Seq<u8>, secret: Seq<u8>) -> bool {
    payment_hash == probing_cookie(payment_id, secret)
}

/// Returns whether a payment with the given hash and id is a payment probe.
pub fn payment_is_probe(
    payment_hash: &PaymentHash,
    payment_id: &PaymentId,
    probing_cookie_secret: [u8; 32],
) -> (r: bool)
    ensures
        r == is_probe(payment_hash@, payment_id@, probing_cookie_secret@),
{
    let target_payment_hash = probing_cookie_from_id(payment_id, probing_cookie_secret);
    crate::bytes_eq(&target_payment_hash.0, &payment_hash.0)
}

/// The probing cookie of an id equals a hash exactly when `payment_is_probe`
/// holds of that hash and id.
pub proof fn lemma_probe_roundtrip(
    payment_hash: PaymentHash,
    payment_id: PaymentId,
    secret: Seq<u8>,
)
    ensures
        is_probe(payment_hash@, payment_id@, secret) <==> probing_cookie(payment_id@, secret)
            == payment_hash@,
{
}

/// One lowercase hex digit.
pub open spec fn hex_digit(n: int) -> char {
    if n == 0 {
        '0'
    } else if n == 1 {
        '1'
    } else if n == 2 {
        '2'
    } else if n == 3 {
        '3'
    } else if n == 4 {
        '4'
    } else if n == 5 {
        '5'
    } else if n == 6 {
        '6'
    } else if n == 7 {
        '7'
    } else if n == 8 {
        '8'
    } else if n == 9 {
        '9'
    } else if n == 10 {
        'a'
    } else if n == 11 {
        'b'
    } else if n == 12 {
        'c'
    } else if n == 13 {
        'd'
    } else if n == 14 {
        'e'
    } else {
        'f'
    }
}

/// Lowercase hex rendering of a byte sequence, two digits per byte.
pub open spec fn hex_of(data: Seq<u8>) -> Seq<char>
    decreases data.len(),
{
    if data.len() == 0 {
        Seq::<char>::empty()
    } else {
        seq![hex_digit((data.first() >> 4u8) as int), hex_digit((data.first() & 0x0fu8) as int)]
            + hex_of(data.drop_first())
    }
}

fn nibble_str(n: u8) -> (r: &'static str)
    requires
        n < 16,
    ensures
        r@ == seq![hex_digit(n as int)],
{
    match n {
        0u8 => {
            proof {
                reveal_strlit("0");
            }
            "0"
        },
        1u8 => {
            proof {
                reveal_strlit("1");
            }
            "1"
        },
        2u8 => {
            proof {
                reveal_strlit("2");
            }
            "2"
        },
        3u8 => {
            proof {
                reveal_strlit("3");
            }
            "3"
        },
        4u8 => {
            proof {
                reveal_strlit("4");
            }
            "4"
        },
        5u8 => {
            proof {
                reveal_strlit("5");
            }
            "5"
        },
        6u8 => {
            proof {
                reveal_strlit("6");
            }
            "6"
        },
        7u8 => {
            proof {
                reveal_strlit("7");
            }
            "7"
        },
        8u8 => {
            proof {
                reveal_strlit("8");
            }
            "8"
        },
        9u8 => {
            proof {
                reveal_strlit("9");
            }
            "9"
        },
        10u8 => {
            proof {
                reveal_strlit("a");
            }
            "a"
        },
        11u8 => {
            proof {
                reveal_strlit("b");
            }
            "b"
        },
        12u8 => {
            proof {
                reveal_strlit("c");
            }
            "c"
        },
        13u8 => {
            proof {
                reveal_strlit("d");
            }
            "d"
        },
        14u8 => {
            proof {
                reveal_strlit("e");
            }
            "e"
        },
        _ => {
            proof {
                reveal_strlit("f");
            }
            "f"
        },
    }
}

/// Renders 32 bytes as 64 lowercase hex digits.
pub fn hex_lower32(bytes: &[u8; 32]) -> (r: String)
    ensures
        r@ == hex_of(bytes@),
{
    let mut r = String::new();
    let mut i: usize = 0;
    proof {
        assert(bytes@.skip(0) =~= bytes@);
    }
    while i < 32
        invariant
            0 <= i <= 32,
            hex_of(bytes@) =~= r@ + hex_of(bytes@.skip(i as int)),
        decreases 32 - i,
    {
        let b = bytes[i];
        let hi = b >> 4;
        let lo = b & 0x0f;
        assert(b >> 4u8 < 16 && b & 0x0fu8 < 16) by (bit_vector);
        r.append(nibble_str(hi));
        r.append(nibble_str(lo));
        proof {
            assert(bytes@.skip(i as int).drop_first() =~= bytes@.skip(i + 1));
        }
        i += 1;
    }
    proof {
        assert(bytes@.skip(32) =~= Seq::<u8>::empty());
        assert(hex_of(bytes@.skip(32)) =~= Seq::<char>::empty());
    }
    r
}

} // verus!
