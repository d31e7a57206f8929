//! Password hashing, constant-time comparison, random bytes and the
//! lowercase hex form of tokens.

use vstd::prelude::*;
use vstd::utf8::encode_utf8;
use pbkdf2::pbkdf2_hmac;
use rand::RngCore;
use rand::rngs::OsRng;
use sha2::Sha256;
use subtle::ConstantTimeEq;
use crate::text::chars_of;

verus! {

broadcast use vstd::string::group_string_axioms;

/// The output of PBKDF2 with HMAC-SHA-256 as its pseudo-random function, for
/// `password`, `salt` and `rounds` iterations, `len` bytes long.
pub uninterp spec fn pbkdf2_hmac_sha256(password: Seq<u8>, salt: Seq<u8>, rounds: u32, len: nat) -> Seq<u8>;

/// Trusted: calls `pbkdf2::pbkdf2_hmac::<sha2::Sha256>` with a 32-byte output
/// buffer. Its result depends on the password, the salt, the number of rounds
/// and the output length alone, so the contract names it `pbkdf2_hmac_sha256`
/// of those four; HMAC accepts keys of any length, so the call does not panic.
#[verifier::external_body]
fn pbkdf2_hmac_sha256_32(password: &[u8], salt: &[u8], rounds: u32) -> (out: [u8; 32])
    ensures
        out@ == pbkdf2_hmac_sha256(password@, salt@, rounds, 32),
{
    let mut out = [0u8; 32];
    pbkdf2_hmac::<Sha256>(password, salt, rounds, &mut out);
    out
}

/// Trusted: calls `subtle::ConstantTimeEq::ct_eq` on two byte slices and turns
/// the `Choice` into a `bool`. Per subtle's source it is 1 exactly when the
/// slices have the same length and the same bytes; the contract states that.
#[verifier::external_body]
fn bytes_ct_eq(a: &[u8], b: &[u8]) -> (r: bool)
    ensures
        r == (a@ == b@),
{
    bool::from(a.ct_eq(b))
}

/// Trusted: fills an `N`-byte array by `rand::rngs::OsRng`'s `fill_bytes`.
/// The bytes come from the operating system, so the contract says nothing of
/// them; `fill_bytes` panics if the operating system's generator fails.
#[verifier::external_body]
pub(crate) fn os_random_bytes<const N: usize>() -> (r: [u8; N]) {
    let mut r = [0u8; N];
    OsRng.fill_bytes(&mut r);
    r
}

/// The number of PBKDF2 rounds used for passwords.
pub const PASSWORD_ROUNDS: u32 = 100_000;

/// The digest stored for `password` with `salt`.
pub open spec fn password_digest(password: Seq<char>, salt: Seq<u8>) -> Seq<u8> {
    pbkdf2_hmac_sha256(encode_utf8(password), salt, PASSWORD_ROUNDS, 32)
}

/// The digest of `password` with `salt`.
pub fn password_hash(password: &str, salt: &[u8; 16]) -> (digest: [u8; 32])
    ensures
        digest@ == password_digest(password@, salt@),
{
    pbkdf2_hmac_sha256_32(password.as_bytes(), salt, PASSWORD_ROUNDS)
}

/// Whether two digests are equal, compared in constant time.
pub fn digests_equal(a: &[u8; 32], b: &[u8; 32]) -> (r: bool)
    ensures
        r == (a@ == b@),
{
    bytes_ct_eq(a, b)
}

/// The lowercase hexadecimal digit for `n` (below 16).
pub open spec fn hex_digit(n: u8) -> char {
    "0123456789abcdef"@[n as int]
}

/// Each byte as two lowercase hexadecimal digits, high digit first.
pub open spec fn hex_lower(bytes: Seq<u8>) -> Seq<char>
    decreases bytes.len(),
{
    if bytes.len() == 0 {
        seq![]
    } else {
        hex_lower(bytes.drop_last()) + seq![
            hex_digit(bytes.last() / 16),
            hex_digit(bytes.last() % 16),
        ]
    }
}

/// The lowercase hexadecimal form of `bytes`.
pub fn hex_string(bytes: &[u8]) -> (s: String)
    ensures
        s@ == hex_lower(bytes@),
{
    let digits = chars_of("0123456789abcdef");
    proof {
        reveal_strlit("0123456789abcdef");
    }
    let mut out: Vec<char> = Vec::new();
    let mut i: usize = 0;
    while i < bytes.len()
        invariant
            digits@ == "0123456789abcdef"@,
            digits@.len() == 16,
            i <= bytes@.len(),
            out@ == hex_lower(bytes@.take(i as int)),
        decreases bytes@.len() - i,
    {
        let b = bytes[i];
        out.push(digits[(b / 16) as usize]);
        out.push(digits[(b % 16) as usize]);
        assert(bytes@.take(i + 1).drop_last() =~= bytes@.take(i as int));
        i = i + 1;
    }
    assert(bytes@.take(bytes@.len() as int) =~= bytes@);
    crate::text::string_from_chars(out.as_slice())
}

/// The digit for a value below 16 is `0`-`9` for 0 to 9 and `a`-`f` for 10
/// to 15, and different values get different digits.
proof fn lemma_hex_digit(n: u8, m: u8)
    requires
        n < 16,
        m < 16,
    ensures
        ('0' <= hex_digit(n) && hex_digit(n) <= '9') || ('a' <= hex_digit(n) && hex_digit(n) <= 'f'),
        hex_digit(n) == hex_digit(m) ==> n == m,
{
    reveal_strlit("0123456789abcdef");
    let d = "0123456789abcdef"@;
    assert(d =~= seq!['0', '1', '2', '3', '4', '5', '6', '7', '8', '9', 'a', 'b', 'c', 'd', 'e', 'f']);
}

/// Two digits per byte, each `0`-`9` or `a`-`f`.
proof fn lemma_hex_lower_digits(a: Seq<u8>)
    ensures
        hex_lower(a).len() == 2 * a.len(),
        forall|i: int|
            0 <= i < hex_lower(a).len() ==> ('0' <= #[trigger] hex_lower(a)[i] && hex_lower(a)[i] <= '9')
                || ('a' <= hex_lower(a)[i] && hex_lower(a)[i] <= 'f'),
    decreases a.len(),
{
    if a.len() > 0 {
        lemma_hex_lower_digits(a.drop_last());
        lemma_hex_digit(a.last() / 16, 0);
        lemma_hex_digit(a.last() % 16, 0);
        let h = hex_lower(a.drop_last());
        assert forall|i: int|
            0 <= i < hex_lower(a).len() implies ('0' <= #[trigger] hex_lower(a)[i] && hex_lower(a)[i]
            <= '9') || ('a' <= hex_lower(a)[i] && hex_lower(a)[i] <= 'f') by {
            if i < h.len() {
                assert(hex_lower(a)[i] == h[i]);
            }
        }
    }
}

/// Different bytes give different hexadecimal forms.
proof fn lemma_hex_lower_injective(a: Seq<u8>, b: Seq<u8>)
    requires
        hex_lower(a) == hex_lower(b),
    ensures
        a == b,
    decreases a.len(),
{
    lemma_hex_lower_digits(a);
    lemma_hex_lower_digits(b);
    if a.len() > 0 {
        let ha = hex_lower(a);
        let hb = hex_lower(b);
        let n = ha.len();
        assert(ha[n - 2] == hex_digit(a.last() / 16));
        assert(hb[n - 2] == hex_digit(b.last() / 16));
        assert(ha[n - 1] == hex_digit(a.last() % 16));
        assert(hb[n - 1] == hex_digit(b.last() % 16));
        lemma_hex_digit(a.last() / 16, b.last() / 16);
        lemma_hex_digit(a.last() % 16, b.last() % 16);
        assert(a.last() == b.last());
        assert(hex_lower(a.drop_last()) =~= ha.take(n - 2));
        assert(hex_lower(b.drop_last()) =~= hb.take(n - 2));
        lemma_hex_lower_injective(a.drop_last(), b.drop_last());
        assert(a =~= a.drop_last().push(a.last()));
        assert(b =~= b.drop_last().push(b.last()));
    } else {
        assert(b.len() == 0);
        assert(a =~= b);
    }
}

/// A token's form: two lowercase hexadecimal digits per byte (`0`-`9`,
/// `a`-`f`), and different bytes give different tokens.
pub proof fn law_hex_lower_form(a: Seq<u8>, b: Seq<u8>)
    ensures
        hex_lower(a).len() == 2 * a.len(),
        forall|i: int|
            0 <= i < hex_lower(a).len() ==> ('0' <= #[trigger] hex_lower(a)[i] && hex_lower(a)[i] <= '9')
                || ('a' <= hex_lower(a)[i] && hex_lower(a)[i] <= 'f'),
        hex_lower(a) == hex_lower(b) ==> a == b,
{
    lemma_hex_lower_digits(a);
    if hex_lower(a) == hex_lower(b) {
        lemma_hex_lower_injective(a, b);
    }
}

} // verus!
