use vstd::prelude::*;

use sha1::Digest;

verus! {

/// The SHA-1 digest of `data`, as the `sha1` crate computes it.
pub uninterp spec fn sha1_digest(data: Seq<u8>) -> Seq<u8>;

/// `sha1::Sha1::digest`: the SHA-1 digest of `data`.
///
/// Trusted: the contract claims that the result is the digest that the
/// name `sha1_digest` stands for (a function of `data` alone) and that it
/// is 20 bytes long, as the output type `GenericArray<u8, U20>` fixes.
#[verifier::external_body]
pub(crate) fn sha1_of(data: &[u8]) -> (r: Vec<u8>)
    ensures
        r@ == sha1_digest(data@),
        r@.len() == 20,
{
    sha1::Sha1::digest(data).to_vec()
}

/// The lowercase hexadecimal digit for a value below 16.
pub open spec fn hex_digit(v: int) -> char {
    if v < 10 {
        (48 + v) as char
    } else {
        (87 + v) as char
    }
}

/// The lowercase hexadecimal spelling of `bytes`: two digits per byte, high
/// half first.
pub open spec fn hex_lower(bytes: Seq<u8>) -> Seq<char>
    decreases bytes.len(),
{
    if bytes.len() == 0 {
        Seq::empty()
    } else {
        seq![hex_digit(bytes[0] as int / 16), hex_digit(bytes[0] as int % 16)] + hex_lower(bytes.drop_first())
    }
}

/// `hex::encode`: the lowercase hexadecimal spelling of `bytes`.
///
/// Trusted: the contract claims what the crate's source shows, that each
/// byte becomes two characters of `0123456789abcdef`, high half first.
#[verifier::external_body]
pub(crate) fn hex_encode(bytes: &[u8]) -> (r: String)
    ensures
        r@ == hex_lower(bytes@),
{
    hex::encode(bytes)
}

/// True when `s` holds only the characters `0`-`9` and `a`-`f`.
pub open spec fn is_lower_hex(s: Seq<char>) -> bool {
    forall|i: int|
        0 <= i < s.len() ==> ('0' <= #[trigger] s[i] <= '9' || 'a' <= s[i] <= 'f')
}

/// The hexadecimal spelling is twice as long as the bytes and uses only
/// lowercase hexadecimal digits.
pub proof fn lemma_hex_lower_shape(bytes: Seq<u8>)
    ensures
        hex_lower(bytes).len() == 2 * bytes.len(),
        is_lower_hex(hex_lower(bytes)),
    decreases bytes.len(),
{
    if bytes.len() > 0 {
        lemma_hex_lower_shape(bytes.drop_first());
        let h = hex_lower(bytes);
        let rest = hex_lower(bytes.drop_first());
        let hi = bytes[0] as int / 16;
        let lo = bytes[0] as int % 16;
        assert(0 <= hi < 16 && 0 <= lo < 16);
        assert forall|i: int| 0 <= i < h.len() implies ('0' <= #[trigger] h[i] <= '9' || 'a'
            <= h[i] <= 'f') by {
            if i >= 2 {
                assert(h[i] == rest[i - 2]);
            }
        }
    }
}

/// The object id for a digest: its lowercase hexadecimal spelling.
pub fn id_from_digest(digest: &[u8]) -> (r: String)
    ensures
        r@ == hex_lower(digest@),
{
    hex_encode(digest)
}

} // verus!
