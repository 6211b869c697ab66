//! Everything the library takes on trust from outside: the calls into other
//! crates and into parts of the standard library, each behind one small item
//! whose contract says what is believed of it.

use vstd::prelude::*;
use vstd::string::*;

verus! {

/// `String::push` of the standard library: the character goes on the end.
pub assume_specification[ String::push ](s: &mut String, c: char)
    ensures
        final(s)@ == old(s)@.push(c),
;

/// What `{:?}` prints for a string: it quoted, with what needs escaping
/// escaped.
pub uninterp spec fn quoted(s: Seq<char>) -> Seq<char>;

/// The standard library's `Debug` for `str`, as `format!("{:?}", ..)` prints
/// it. The text depends on the characters alone; which of them are escaped,
/// and how, is left to the name.
#[verifier::external_body]
pub(crate) fn quote(s: &str) -> (r: String)
    ensures
        r@ == quoted(s@),
{
    format!("{:?}", s)
}

/// A text with every letter made a capital.
pub uninterp spec fn uppercased(s: Seq<char>) -> Seq<char>;

/// `str::to_uppercase` of the standard library. The text depends on the
/// characters alone. One of ASCII has its letters from `a` to `z` made capitals;
/// the rest of Unicode's mapping is left to the name.
#[verifier::external_body]
pub(crate) fn to_upper(s: &str) -> (r: String)
    ensures
        r@ == uppercased(s@),
        crate::text::is_plain(s@) ==> r@ == crate::text::raised(s@),
{
    s.to_uppercase()
}

/// A character with Unicode's `Uppercase` property.
pub uninterp spec fn is_capital(c: char) -> bool;

/// `char::is_uppercase` of the standard library. The answer depends on the
/// character alone. In ASCII the capitals are `A` to `Z`; the rest of Unicode's
/// table is left to the name.
#[verifier::external_body]
pub(crate) fn is_upper(c: char) -> (r: bool)
    ensures
        r == is_capital(c),
        (c as u32) < 128 ==> r == ('A' <= c && c <= 'Z'),
{
    c.is_uppercase()
}

/// A letter or a number of any script.
pub uninterp spec fn is_alphanumeric(c: char) -> bool;

/// `char::is_alphanumeric` of the standard library. The answer depends on the
/// character alone. In ASCII it holds of the digits and the letters; the rest of
/// Unicode's tables is left to the name.
#[verifier::external_body]
pub(crate) fn is_word(c: char) -> (r: bool)
    ensures
        r == is_alphanumeric(c),
        (c as u32) < 128 ==> r == (('0' <= c && c <= '9') || ('A' <= c && c <= 'Z') || ('a' <= c
            && c <= 'z')),
{
    c.is_alphanumeric()
}

/// Bytes read as UTF-8, with U+FFFD where they are not.
pub uninterp spec fn lossy(b: Seq<u8>) -> Seq<char>;

/// `String::from_utf8_lossy` of the standard library. The text depends on the
/// bytes alone; how a broken sequence is cut up is left to the name.
#[verifier::external_body]
pub(crate) fn from_lossy(b: &[u8]) -> (r: String)
    ensures
        r@ == lossy(b@),
{
    String::from_utf8_lossy(b).into_owned()
}

// ---------------------------------------------------------------------
// serde_json
// ---------------------------------------------------------------------

/// A character as JSON has it inside a string.
pub open spec fn json_escape(c: char) -> Seq<char> {
    let n = c as u32;
    if c == '"' || c == '\\' {
        seq!['\\', c]
    } else if n == 8 {
        seq!['\\', 'b']
    } else if n == 9 {
        seq!['\\', 't']
    } else if n == 10 {
        seq!['\\', 'n']
    } else if n == 12 {
        seq!['\\', 'f']
    } else if n == 13 {
        seq!['\\', 'r']
    } else if n < 32 {
        seq!['\\', 'u', '0', '0'] + crate::keys::hexed(seq![n as u8])
    } else {
        seq![c]
    }
}

pub open spec fn json_escaped(s: Seq<char>) -> Seq<char>
    decreases s.len(),
{
    if s.len() == 0 {
        seq![]
    } else {
        json_escaped(s.drop_last()) + json_escape(s.last())
    }
}

/// A string as serde_json writes it: quoted, with what JSON wants escaped
/// escaped.
pub open spec fn json_quoted(s: Seq<char>) -> Seq<char> {
    seq!['"'] + json_escaped(s) + seq!['"']
}

/// `serde_json::to_string` on a string, which cannot fail: it is quoted, and of
/// its characters the quote, the backslash and those below the space are
/// escaped, by a letter where JSON has one and in hexadecimal where not.
#[verifier::external_body]
pub(crate) fn json_quote(s: &str) -> (r: String)
    ensures
        r@ == json_quoted(s@),
{
    serde_json::to_string(s).unwrap_or_default()
}

// ---------------------------------------------------------------------
// chrono
// ---------------------------------------------------------------------

/// What chrono prints for this many milliseconds since the Unix epoch in the
/// pattern `%m-%d %H:%M:%SZ`, where it has a date for them.
pub uninterp spec fn utc_ms(ms: i64) -> Option<Seq<char>>;

/// `chrono::DateTime::from_timestamp_millis`, and its result in the pattern
/// `%m-%d %H:%M:%SZ`. The text depends on the instant alone: it is UTC.
#[verifier::external_body]
pub(crate) fn format_utc_ms(ms: i64) -> (r: Option<String>)
    ensures
        crate::text::text_view(r) == utc_ms(ms),
{
    chrono::DateTime::from_timestamp_millis(ms).map(|t| t.format("%m-%d %H:%M:%SZ").to_string())
}

/// Whether chrono has a date for this many seconds since the Unix epoch.
pub uninterp spec fn is_dated(secs: i64) -> bool;

/// `chrono::DateTime::from_timestamp`, and its result in the pattern `%H:%MZ`:
/// the hours and the minutes of the day in UTC. How far chrono's dates reach is
/// left to the name.
#[verifier::external_body]
pub(crate) fn format_utc_minute(secs: i64) -> (r: Option<String>)
    ensures
        r is Some == is_dated(secs),
        r matches Some(t) ==> t@ == crate::figures::minute_text(secs as int),
{
    chrono::DateTime::from_timestamp(secs, 0).map(|t| t.format("%H:%MZ").to_string())
}

/// What chrono prints for this many milliseconds since the Unix epoch as an RFC
/// 3339 date and time, where it has a date for them.
pub uninterp spec fn rfc3339_ms(ms: i64) -> Option<Seq<char>>;

/// `chrono::DateTime::from_timestamp_millis`, and its result's `to_rfc3339`.
/// The text depends on the instant alone: it is UTC.
#[verifier::external_body]
pub(crate) fn format_rfc3339_ms(ms: i64) -> (r: Option<String>)
    ensures
        crate::text::text_view(r) == rfc3339_ms(ms),
{
    chrono::DateTime::from_timestamp_millis(ms).map(|t| t.to_rfc3339())
}

// ---------------------------------------------------------------------
// hex
// ---------------------------------------------------------------------

/// `hex::decode`: two digits of either case to a byte. It fails where the
/// number of bytes is odd or one of them is not a digit; which of the two, and
/// where, is dropped.
#[verifier::external_body]
pub(crate) fn hex_decode(s: &str) -> (r: Option<Vec<u8>>)
    ensures
        match r {
            Some(v) => crate::keys::unhexed(s@) == Some(v@),
            None => crate::keys::unhexed(s@) is None,
        },
{
    hex::decode(s).ok()
}

/// `hex::encode`: each byte as two small digits, the high one first.
#[verifier::external_body]
pub(crate) fn hex_encode(b: &[u8]) -> (r: String)
    ensures
        r@ == crate::keys::hexed(b@),
{
    hex::encode(b)
}

// ---------------------------------------------------------------------
// sp-core
// ---------------------------------------------------------------------

/// The ed25519 public key of a seed.
pub uninterp spec fn public_key(seed: Seq<u8>) -> Seq<u8>;

/// `sp_core::ed25519::Pair::from_seed` and its public key. The key is a
/// function of the seed; the curve arithmetic is left to the name.
#[verifier::external_body]
pub(crate) fn ed25519_public(seed: &[u8; 32]) -> (r: [u8; 32])
    ensures
        r@ == public_key(seed@),
{
    <sp_core::ed25519::Pair as sp_core::Pair>::public(
        &<sp_core::ed25519::Pair as sp_core::Pair>::from_seed(seed),
    ).to_raw()
}

/// The ed25519 signature of a message under a seed's key.
pub uninterp spec fn signature(seed: Seq<u8>, message: Seq<u8>) -> Seq<u8>;

/// Whether a signature is a public key's on a message.
pub uninterp spec fn signed_by(sig: Seq<u8>, message: Seq<u8>, public: Seq<u8>) -> bool;

/// `sp_core::ed25519::Pair::from_seed` and its `sign`. The signature is a
/// function of the seed and the message, and it verifies under the seed's own
/// public key; the curve arithmetic is left to the name.
#[verifier::external_body]
pub(crate) fn ed25519_sign(seed: &[u8; 32], message: &[u8]) -> (r: [u8; 64])
    ensures
        r@ == signature(seed@, message@),
        signed_by(r@, message@, public_key(seed@)),
{
    <sp_core::ed25519::Pair as sp_core::Pair>::sign(
        &<sp_core::ed25519::Pair as sp_core::Pair>::from_seed(seed),
        message,
    ).to_raw()
}

/// `sp_core::ed25519::Pair::verify`. The answer depends on the three arguments
/// alone; the curve arithmetic is left to the name.
#[verifier::external_body]
pub(crate) fn ed25519_verify(sig: &[u8; 64], message: &[u8], public: &[u8; 32]) -> (r: bool)
    ensures
        r == signed_by(sig@, message@, public@),
{
    <sp_core::ed25519::Pair as sp_core::Pair>::verify(
        &sp_core::ed25519::Signature::from_raw(*sig),
        message,
        &sp_core::ed25519::Public::from_raw(*public),
    )
}

/// The 256-bit BLAKE2b hash of some bytes.
pub uninterp spec fn blake2_256(b: Seq<u8>) -> Seq<u8>;

/// `sp_core::Blake2Hasher::hash`. The hash is a function of the bytes; the
/// rounds are left to the name.
#[verifier::external_body]
pub(crate) fn blake2(b: &[u8]) -> (r: [u8; 32])
    ensures
        r@ == blake2_256(b@),
{
    <sp_core::Blake2Hasher as sp_core::Hasher>::hash(b).0
}

// ---------------------------------------------------------------------
// parity-scale-codec
// ---------------------------------------------------------------------

/// `parity_scale_codec::Encode::encode` on a `u64`: eight bytes, the low one
/// first.
#[verifier::external_body]
pub(crate) fn scale_encode_u64(n: u64) -> (r: Vec<u8>)
    ensures
        r@ == vstd::bytes::spec_u64_to_le_bytes(n),
{
    parity_scale_codec::Encode::encode(&n)
}

/// `parity_scale_codec::Decode::decode` of a `u64` from the front of some
/// bytes: the first eight, the low one first, and an error where there are
/// fewer.
#[verifier::external_body]
pub(crate) fn scale_decode_u64(b: &[u8]) -> (r: Option<u64>)
    ensures
        b@.len() < 8 ==> r is None,
        b@.len() >= 8 ==> r == Some(vstd::bytes::spec_u64_from_le_bytes(b@.take(8))),
{
    let mut input = b;
    <u64 as parity_scale_codec::Decode>::decode(&mut input).ok()
}

/// A number in so many bytes, the low one first.
pub open spec fn low_first(n: nat, bytes: nat) -> Seq<u8>
    decreases bytes,
{
    if bytes == 0 {
        seq![]
    } else {
        seq![(n % 256) as u8] + low_first(n / 256, (bytes - 1) as nat)
    }
}

/// A length as SCALE writes it: its low two bits say in how many bytes.
pub open spec fn scale_length(n: nat) -> Seq<u8> {
    if n < 0x40 {
        low_first(4 * n, 1)
    } else if n < 0x4000 {
        low_first(4 * n + 1, 2)
    } else if n < 0x4000_0000 {
        low_first(4 * n + 2, 4)
    } else {
        seq![3u8] + low_first(n, 4)
    }
}

/// Named accounts as SCALE writes them: a name's length and its UTF-8 bytes,
/// then the account.
pub open spec fn scale_roster(roster: Seq<(Seq<char>, Seq<u8>)>) -> Seq<u8>
    decreases roster.len(),
{
    if roster.len() == 0 {
        seq![]
    } else {
        let name = vstd::utf8::encode_utf8(roster.last().0);
        scale_roster(roster.drop_last()) + scale_length(name.len()) + name + roster.last().1
    }
}

/// Two accounts and a list of named accounts as SCALE writes them.
pub open spec fn scale_genesis(
    root: Seq<u8>,
    leader: Seq<u8>,
    roster: Seq<(Seq<char>, Seq<u8>)>,
) -> Seq<u8> {
    root + leader + scale_length(roster.len()) + scale_roster(roster)
}

/// Lengths that SCALE can write.
pub open spec fn lengths_fit(roster: Seq<(Seq<char>, Seq<u8>)>) -> bool {
    &&& roster.len() <= u32::MAX
    &&& forall|i: int|
        0 <= i < roster.len() ==> vstd::utf8::encode_utf8((#[trigger] roster[i]).0).len()
            <= u32::MAX
}

/// `parity_scale_codec::Encode::encode` on the tuple of two accounts and a
/// slice of named accounts: the two accounts, the number of entries, and the
/// entries one after another. It panics on a length over `u32::MAX`.
#[verifier::external_body]
pub(crate) fn scale_encode_genesis(
    root: &[u8; 32],
    leader: &[u8; 32],
    roster: &Vec<(String, [u8; 32])>,
) -> (r: Vec<u8>)
    requires
        lengths_fit(crate::common::entries(roster@)),
    ensures
        r@ == scale_genesis(root@, leader@, crate::common::entries(roster@)),
{
    parity_scale_codec::Encode::encode(&(root, leader, roster.as_slice()))
}

// ---------------------------------------------------------------------
// Certificates
// ---------------------------------------------------------------------

/// The public key a certificate carries: the bytes of its algorithm's
/// identifier, and those of the key. None where the bytes are no certificate.
pub uninterp spec fn cert_key(cert: Seq<u8>) -> Option<(Seq<u8>, Seq<u8>)>;

pub open spec fn key_view(o: Option<(Vec<u8>, Vec<u8>)>) -> Option<(Seq<u8>, Seq<u8>)> {
    match o {
        Some(k) => Some((k.0@, k.1@)),
        None => None,
    }
}

/// `x509_parser::parse_x509_certificate`, and the subject's public key of its
/// result: the identifier's bytes and the key's. Both depend on the bytes
/// alone; the grammar is left to the name.
#[verifier::external_body]
pub(crate) fn x509_key(cert: &[u8]) -> (r: Option<(Vec<u8>, Vec<u8>)>)
    ensures
        key_view(r) == cert_key(cert@),
{
    x509_parser::parse_x509_certificate(cert).ok().map(
        |p|
            (
                p.1.public_key().algorithm.algorithm.as_bytes().to_vec(),
                p.1.public_key().subject_public_key.data.to_vec(),
            ),
    )
}

/// `rcgen::KeyPair::from_pkcs8_der_and_sign_algo` for Ed25519, and the
/// certificate that `CertificateParams::default().self_signed` makes with it.
/// The document must be a well-formed Ed25519 one around a seed: anything else
/// panics. The certificate parses, and carries that seed's public key under
/// Ed25519's identifier, in 32 bytes; its other fields are left unsaid.
#[verifier::external_body]
pub(crate) fn self_signed(pkcs8: Vec<u8>) -> (r: Vec<u8>)
    requires
        pkcs8@.len() == 48,
        pkcs8@ == crate::tls::pkcs8(pkcs8@.skip(16)),
    ensures
        cert_key(r@) == Some((crate::tls::ed25519_id(), public_key(pkcs8@.skip(16)))),
        (cert_key(r@)->0).1.len() == 32,
{
    let der = rustls::pki_types::PrivatePkcs8KeyDer::from(pkcs8);
    let pair = rcgen::KeyPair::from_pkcs8_der_and_sign_algo(&der, &rcgen::PKCS_ED25519).expect(
        "well-formed Ed25519 PKCS8 document",
    );
    rcgen::CertificateParams::default().self_signed(&pair).expect(
        "self-signing our own freshly-built key pair cannot fail",
    ).der().to_vec()
}

// ---------------------------------------------------------------------
// ansi-to-tui and ratatui
// ---------------------------------------------------------------------

/// A text with its ANSI colour codes read, by lines and runs, where they can be.
pub uninterp spec fn ansi_lines(s: Seq<char>) -> Option<
    Seq<Seq<(Seq<char>, crate::screen::LookView)>>,
>;

/// `ansi_to_tui::IntoText::into_text`: the runs of each line, each with its
/// line's style and its own on top; a colour is given by the name that ratatui
/// prints for it, which it reads back as that colour. The runs depend on the text
/// alone; the codes' grammar is left to the name.
#[verifier::external_body]
pub(crate) fn ansi_text(s: &str) -> (r: Option<Vec<Vec<crate::screen::Styled>>>)
    ensures
        crate::screen::look_text(r) == ansi_lines(s@),
{
    let text = ansi_to_tui::IntoText::into_text(&s).ok();
    text.map(|t| t.lines.iter().map(|l| l.spans.iter().map(|p| {
        let style = l.style.patch(p.style);
        let look = crate::screen::Look {
            fg: style.fg.map(|c| c.to_string()),
            bg: style.bg.map(|c| c.to_string()),
            underline: style.underline_color.map(|c| c.to_string()),
            add: style.add_modifier.bits(),
            sub: style.sub_modifier.bits(),
        };
        crate::screen::Styled { text: p.content.to_string(), look }
    }).collect()).collect())
}

/// How many cells ratatui gives a character.
pub uninterp spec fn drawn_width(c: char) -> usize;

/// `ratatui::text::Span::width` of a span that holds this one character. The
/// number depends on the character alone; Unicode's tables are left to the
/// name.
#[verifier::external_body]
pub(crate) fn span_width(c: char) -> (r: usize)
    ensures
        r == drawn_width(c),
{
    ratatui::text::Span::raw(c.to_string()).width()
}

} // verus!
