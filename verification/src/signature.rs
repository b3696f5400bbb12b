//! The signature check on an inbound request.
//!
//! The sender signs the raw body with a shared secret and sends the result in
//! a header as `sha256=` followed by the hexadecimal HMAC-SHA256 of the body.
use vstd::prelude::*;
use vstd::utf8::*;
use vstd::string::*;
use crate::hex;
use subtle::ConstantTimeEq;

verus! {

/// The HMAC-SHA256 of `message` under `key`, as `hmac_sha256::HMAC::mac`
/// computes it.
pub uninterp spec fn hmac_sha256(key: Seq<u8>, message: Seq<u8>) -> Seq<u8>;

/// The length of an HMAC-SHA256 code in bytes.
pub const MAC_LEN: usize = 32;

/// The text that opens a signature header value: `sha256=`.
pub open spec fn prefix() -> Seq<u8> {
    seq![0x73u8, 0x68u8, 0x61u8, 0x32u8, 0x35u8, 0x36u8, 0x3du8]
}

/// The header value that signs `mac`: the prefix, then the code in lower-case
/// hexadecimal.
pub open spec fn header_for(mac: Seq<u8>) -> Seq<u8> {
    prefix() + hex::encoded(mac)
}

/// Whether the header value `claimed` carries exactly the code `mac`: it opens
/// with the prefix, and what follows is well-formed hexadecimal text, in
/// either case, of the bytes of `mac`.
pub open spec fn claims(claimed: Seq<u8>, mac: Seq<u8>) -> bool {
    &&& claimed.len() >= prefix().len()
    &&& claimed.subrange(0, prefix().len() as int) == prefix()
    &&& hex::is_hex(claimed.skip(prefix().len() as int))
    &&& hex::decoded(claimed.skip(prefix().len() as int)) == mac
}

/// Whether `claimed`, the bytes of a header value, is a valid signature of
/// `body` under `secret`.
pub open spec fn valid_signature(secret: Seq<u8>, body: Seq<u8>, claimed: Seq<u8>) -> bool {
    claims(claimed, hmac_sha256(secret, body))
}

/// Calls `hmac_sha256::HMAC::mac` with `message` as the input and `key` as the
/// key. Trusted: the result is the code the crate computes for these two
/// arguments, which is always 32 bytes long.
#[verifier::external_body]
fn compute_mac(key: &[u8], message: &[u8]) -> (mac: Vec<u8>)
    ensures
        mac@ == hmac_sha256(key@, message@),
        mac@.len() == MAC_LEN,
{
    hmac_sha256::HMAC::mac(message, key).to_vec()
}

/// Calls `subtle::ConstantTimeEq::ct_eq` on two byte slices. Trusted: the
/// result says whether the slices are equal; slices of different lengths are
/// unequal. The comparison of equally long slices takes time that does not
/// depend on their contents.
#[verifier::external_body]
fn constant_time_eq(a: &[u8], b: &[u8]) -> (same: bool)
    ensures
        same == (a@ == b@),
{
    a.ct_eq(b).into()
}

/// The characters whose codes are `bytes`.
pub open spec fn as_text(bytes: Seq<u8>) -> Seq<char> {
    Seq::new(bytes.len(), |i: int| bytes[i] as char)
}

/// The lower-case digit for a value below sixteen, as text.
fn digit_text(v: u8) -> (text: &'static str)
    requires
        v < 16,
    ensures
        text@ == seq![hex::digit_code(v) as char],
{
    let digits = "0123456789abcdef";
    proof {
        reveal_strlit("0123456789abcdef");
        assert(is_ascii_chars(digits@));
    }
    let at: usize = v as usize;
    let text = digits.substring_ascii(at, at + 1);
    assert(text@ =~= seq![hex::digit_code(v) as char]);
    text
}

/// The header value that a sender holding `secret` puts on `body`: `sha256=`
/// and the lower-case hexadecimal HMAC-SHA256 of the body.
pub fn hmac_hex(secret: &[u8], body: &[u8]) -> (text: String)
    ensures
        text@ == as_text(header_for(hmac_sha256(secret@, body@))),
        encode_utf8(text@) == header_for(hmac_sha256(secret@, body@)),
{
    let mac = compute_mac(secret, body);
    let mut text = String::from_str("sha256=");
    proof {
        reveal_strlit("sha256=");
        assert(text@ =~= as_text(prefix()));
    }
    let mut i: usize = 0;
    while i < mac.len()
        invariant
            i <= mac@.len(),
            text@.len() == 7 + 2 * i,
            forall|k: int| 0 <= k < text@.len() ==> #[trigger] text@[k] == as_text(header_for(mac@))[k],
        decreases mac@.len() - i,
    {
        let b: u8 = mac[i];
        text.append(digit_text(b / 16));
        text.append(digit_text(b % 16));
        i += 1;
    }
    proof {
        let want = header_for(mac@);
        assert(text@ =~= as_text(want));
        assert(is_ascii_chars(text@)) by {
            assert forall|k: int| 0 <= k < text@.len() implies '\0' <= #[trigger] text@[k] <= '\u{7f}' by {
                lemma_header_is_ascii(mac@, k);
            }
        }
        is_ascii_chars_encode_utf8(text@);
        assert forall|k: int| 0 <= k < want.len() implies encode_utf8(text@)[k] == want[k] by {
            lemma_header_is_ascii(mac@, k);
            assert(text@[k] == want[k] as char);
        }
        assert(encode_utf8(text@) =~= want);
    }
    text
}

/// Every byte of a header value is an ASCII code.
proof fn lemma_header_is_ascii(mac: Seq<u8>, k: int)
    requires
        0 <= k < header_for(mac).len(),
    ensures
        header_for(mac)[k] < 128,
        '\0' <= header_for(mac)[k] as char <= '\u{7f}',
        (header_for(mac)[k] as char) as u8 == header_for(mac)[k],
{
    if k >= 7 {
        let j = k - 7;
        assert(header_for(mac)[k] == hex::encoded(mac)[j]);
    }
}

/// Whether the header value opens with the prefix.
fn has_prefix(claimed: &[u8]) -> (yes: bool)
    ensures
        yes == (claimed@.len() >= prefix().len() && claimed@.subrange(0, prefix().len() as int)
            == prefix()),
{
    if claimed.len() < 7 {
        return false;
    }
    let yes = claimed[0] == 0x73 && claimed[1] == 0x68 && claimed[2] == 0x61 && claimed[3] == 0x32
        && claimed[4] == 0x35 && claimed[5] == 0x36 && claimed[6] == 0x3d;
    proof {
        let head = claimed@.subrange(0, 7);
        if yes {
            assert(head =~= prefix());
        } else {
            assert(head[0] == claimed@[0] && head[1] == claimed@[1] && head[2] == claimed@[2]
                && head[3] == claimed@[3] && head[4] == claimed@[4] && head[5] == claimed@[5]
                && head[6] == claimed@[6]);
        }
    }
    yes
}

/// Checks a header value against a code that was already computed.
///
/// Malformed input of any kind (no prefix, odd length, a byte that is not a
/// hexadecimal digit, a code of another length) is simply not a match.
pub fn matches_mac(mac: &[u8], claimed_signature: &str) -> (ok: bool)
    ensures
        ok == claims(claimed_signature.spec_bytes(), mac@),
{
    let claimed = claimed_signature.as_bytes();
    if !has_prefix(claimed) {
        return false;
    }
    let digits = vstd::slice::slice_subrange(claimed, 7, claimed.len());
    assert(digits@ =~= claimed@.skip(7));
    match hex::decode(digits) {
        None => false,
        Some(sent) => constant_time_eq(mac, sent.as_slice()),
    }
}

/// Whether `claimed_signature` is a valid signature of `body` under `secret`.
pub fn verify(secret: &[u8], body: &[u8], claimed_signature: &str) -> (ok: bool)
    ensures
        ok == valid_signature(secret@, body@, claimed_signature.spec_bytes()),
{
    let mac = compute_mac(secret, body);
    matches_mac(mac.as_slice(), claimed_signature)
}

/// A header value written for one code claims that code and no other.
pub proof fn lemma_header_claims_only_its_code(written: Seq<u8>, mac: Seq<u8>)
    ensures
        claims(header_for(written), mac) <==> written == mac,
{
    let header = header_for(written);
    assert(header.subrange(0, 7) =~= prefix());
    assert(header.skip(7) =~= hex::encoded(written));
    hex::lemma_decode_encode(written);
}

/// The header value that `hmac_hex` writes for a body verifies against that
/// body under the same secret.
pub proof fn lemma_own_signature_verifies(secret: Seq<u8>, body: Seq<u8>)
    ensures
        valid_signature(secret, body, header_for(hmac_sha256(secret, body))),
{
    lemma_header_claims_only_its_code(hmac_sha256(secret, body), hmac_sha256(secret, body));
}

/// A signature written for one body does not verify against another body
/// whose code differs. Two bodies with one code would be a collision of
/// HMAC-SHA256 under that secret.
pub proof fn lemma_tampered_body_is_rejected(secret: Seq<u8>, body: Seq<u8>, tampered: Seq<u8>)
    requires
        hmac_sha256(secret, tampered) != hmac_sha256(secret, body),
    ensures
        !valid_signature(secret, tampered, header_for(hmac_sha256(secret, body))),
{
    lemma_header_claims_only_its_code(hmac_sha256(secret, body), hmac_sha256(secret, tampered));
}

} // verus!
