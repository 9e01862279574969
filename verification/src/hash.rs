//! Content hashing, through the `blake3` crate.
use vstd::prelude::*;
use vstd::utf8::encode_utf8;

verus! {

/// The lowercase hex digest BLAKE3 gives for some bytes.
pub uninterp spec fn blake3_hex(data: Seq<u8>) -> Seq<char>;

/// `blake3::hash(data).to_hex()`, as an owned string.
///
/// Trusted: the digest is named rather than described. The contract claims that
/// it is a function of the bytes hashed, and what `Hash::to_hex` writes: two
/// lowercase hex digits for each of the 32 bytes of the hash.
#[verifier::external_body]
pub(crate) fn blake3_hex_of(data: &[u8]) -> (r: String)
    ensures
        r@ == blake3_hex(data@),
        r@.len() == 64,
        forall|i: int| 0 <= i < 64 ==> is_lower_hex(#[trigger] r@[i]),
{
    blake3::hash(data).to_hex().to_string()
}

/// A lowercase hexadecimal digit.
pub open spec fn is_lower_hex(c: char) -> bool {
    ('0' <= c <= '9') || ('a' <= c <= 'f')
}

/// Sixty-four lowercase hex digits: how a BLAKE3 digest is written.
pub open spec fn well_formed_hex(h: Seq<char>) -> bool {
    h.len() == 64 && forall|i: int| 0 <= i < 64 ==> is_lower_hex(#[trigger] h[i])
}

/// The prefix every content hash in a vault carries.
pub open spec fn blake3_prefix() -> Seq<char> {
    seq!['b', 'l', 'a', 'k', 'e', '3', ':']
}

/// `blake3:<hex>` for some bytes: how notes, objects and ledger keys name content.
pub open spec fn tagged_hash(data: Seq<u8>) -> Seq<char> {
    blake3_prefix() + blake3_hex(data)
}

/// Hashes bytes into the tagged form.
pub fn tagged_hash_of(data: &[u8]) -> (r: String)
    ensures
        r@ == tagged_hash(data@),
        well_formed_hex(blake3_hex(data@)),
{
    let mut out = String::new();
    let prefix = "blake3:";
    proof {
        reveal_strlit("blake3:");
    }
    vstd::string::StringExecFns::append(&mut out, prefix);
    let hex = blake3_hex_of(data);
    vstd::string::StringExecFns::append(&mut out, hex.as_str());
    proof {
        assert(out@ =~= tagged_hash(data@));
    }
    out
}

/// A tagged hash is ASCII, so its bytes are its characters.
pub proof fn lemma_tagged_hash_bytes(data: Seq<u8>)
    requires
        well_formed_hex(blake3_hex(data)),
    ensures
        encode_utf8(tagged_hash(data)).len() == 71,
        forall|i: int|
            0 <= i < 71 ==> #[trigger] encode_utf8(tagged_hash(data))[i] == (tagged_hash(data)[i]
                as u8),
        encode_utf8(tagged_hash(data)).take(7) == seq![98u8, 108u8, 97u8, 107u8, 101u8, 51u8, 58u8],
        forall|i: int|
            7 <= i < 71 ==> is_lower_hex(#[trigger] tagged_hash(data)[i]),
{
    let t = tagged_hash(data);
    assert(vstd::utf8::is_ascii_chars(t)) by {
        assert forall|i: int| 0 <= i < t.len() implies '\0' <= #[trigger] t[i] <= '\u{7f}' by {
            if i >= 7 {
                assert(t[i] == blake3_hex(data)[i - 7]);
                assert(is_lower_hex(blake3_hex(data)[i - 7]));
            }
        }
    }
    vstd::utf8::is_ascii_chars_encode_utf8(t);
    assert(encode_utf8(t).take(7) =~= seq![98u8, 108u8, 97u8, 107u8, 101u8, 51u8, 58u8]);
    assert forall|i: int| 7 <= i < 71 implies is_lower_hex(#[trigger] t[i]) by {
        assert(t[i] == blake3_hex(data)[i - 7]);
    }
}

} // verus!
