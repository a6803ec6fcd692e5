use vstd::prelude::*;
use vstd::string::StringExecFns;
use vstd::utf8::encode_utf8;
use sha2::Digest;

verus! {

/// The SHA-256 digest of a byte string.
pub uninterp spec fn sha256_of(data: Seq<u8>) -> Seq<u8>;

/// Relies on sha2's `Sha256::digest`: the 32-byte SHA-256 digest of the input.
#[verifier::external_body]
fn sha256(data: &[u8]) -> (r: Vec<u8>)
    ensures
        r@ == sha256_of(data@),
        r@.len() == 32,
{
    sha2::Sha256::digest(data).to_vec()
}

/// The lowercase hexadecimal digit of a value below sixteen.
pub open spec fn hex_digit(n: int) -> char {
    seq!['0', '1', '2', '3', '4', '5', '6', '7', '8', '9', 'a', 'b', 'c', 'd', 'e', 'f'][n]
}

/// Two lowercase hexadecimal digits per byte, high nibble first.
pub open spec fn hex_lower(b: Seq<u8>) -> Seq<char>
    decreases b.len(),
{
    if b.len() == 0 {
        Seq::empty()
    } else {
        seq![hex_digit(b[0] as int / 16), hex_digit(b[0] as int % 16)] + hex_lower(b.drop_first())
    }
}

/// Relies on `hex::encode`: each byte becomes two lowercase hexadecimal
/// digits, high nibble first, in input order.
#[verifier::external_body]
fn to_hex(b: &Vec<u8>) -> (r: String)
    ensures
        r@ == hex_lower(b@),
{
    hex::encode(b)
}

/// Two digits per byte.
pub proof fn lemma_hex_len(b: Seq<u8>)
    ensures
        hex_lower(b).len() == 2 * b.len(),
    decreases b.len(),
{
    if b.len() > 0 {
        lemma_hex_len(b.drop_first());
    }
}

/// `a:b`.
pub open spec fn colon_join(a: Seq<char>, b: Seq<char>) -> Seq<char> {
    a + seq![':'] + b
}

/// The text that is digested: `socket_id:channel:secret`, followed by
/// `:channel_data` when channel data is given.
pub open spec fn string_to_sign(
    socket_id: Seq<char>,
    channel: Seq<char>,
    secret: Seq<char>,
    channel_data: Option<Seq<char>>,
) -> Seq<char> {
    let base = colon_join(colon_join(socket_id, channel), secret);
    match channel_data {
        Some(d) => colon_join(base, d),
        None => base,
    }
}

/// `key:hex` where hex is the lowercase hexadecimal form of the digest.
pub open spec fn signature_from(key: Seq<char>, digest: Seq<u8>) -> Seq<char> {
    colon_join(key, hex_lower(digest))
}

/// The authorization a subscription to a private or presence channel must
/// carry.
pub open spec fn signature_of(
    key: Seq<char>,
    secret: Seq<char>,
    socket_id: Seq<char>,
    channel: Seq<char>,
    channel_data: Option<Seq<char>>,
) -> Seq<char> {
    signature_from(key, sha256_of(encode_utf8(string_to_sign(socket_id, channel, secret, channel_data))))
}

pub open spec fn opt_view(o: Option<&str>) -> Option<Seq<char>> {
    match o {
        Some(s) => Some(s@),
        None => None,
    }
}

/// Builds `key:hex` from a digest.
pub fn signature_from_digest(app_key: &str, digest: &Vec<u8>) -> (r: String)
    ensures
        r@ == signature_from(app_key@, digest@),
{
    let mut r = String::from_str(app_key);
    r.append(":");
    let h = to_hex(digest);
    r.append(h.as_str());
    proof {
        reveal_strlit(":");
    }
    assert(r@ =~= signature_from(app_key@, digest@));
    r
}

/// The subscription signature for a connection and channel under an
/// application's key and secret.
pub fn generate_auth_signature(
    app_key: &str,
    app_secret: &str,
    socket_id: &str,
    channel_name: &str,
    channel_data: Option<&str>,
) -> (r: String)
    ensures
        r@ == signature_of(app_key@, app_secret@, socket_id@, channel_name@, opt_view(channel_data)),
        sha256_of(encode_utf8(string_to_sign(socket_id@, channel_name@, app_secret@, opt_view(channel_data)))).len() == 32,
        r@.len() == app_key@.len() + 65,
{
    proof {
        reveal_strlit(":");
    }
    let mut to_sign = String::from_str(socket_id);
    to_sign.append(":");
    to_sign.append(channel_name);
    to_sign.append(":");
    to_sign.append(app_secret);
    assert(to_sign@ =~= colon_join(colon_join(socket_id@, channel_name@), app_secret@));
    if let Some(d) = channel_data {
        let ghost base = to_sign@;
        to_sign.append(":");
        to_sign.append(d);
        assert(to_sign@ =~= colon_join(base, d@));
    }
    assert(to_sign@ == string_to_sign(socket_id@, channel_name@, app_secret@, opt_view(channel_data)));
    let digest = sha256(to_sign.as_str().as_bytes());
    proof {
        lemma_hex_len(digest@);
    }
    signature_from_digest(app_key, &digest)
}

/// Whether `auth` is exactly the signature that `generate_auth_signature`
/// gives for the same inputs.
pub fn verify_auth_signature(
    auth: &str,
    app_key: &str,
    app_secret: &str,
    socket_id: &str,
    channel_name: &str,
    channel_data: Option<&str>,
) -> (r: bool)
    ensures
        r == (auth@ == signature_of(app_key@, app_secret@, socket_id@, channel_name@, opt_view(channel_data))),
        signature_of(app_key@, app_secret@, socket_id@, channel_name@, opt_view(channel_data)).len() == app_key@.len() + 65,
{
    let expected = generate_auth_signature(app_key, app_secret, socket_id, channel_name, channel_data);
    crate::text::str_eq(auth, expected.as_str())
}

} // verus!
