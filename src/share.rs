//! Share links: a capability `hash=<keyed hash>&expire=<epoch>&path=<encoded
//! path>`, whose validity is recomputed from the server's secret, never
//! looked up.
use vstd::prelude::*;
use vstd::string::StringSliceAdditionalSpecFns;
use crate::Error;
use crate::text::{dec, is_digit, lemma_dec_value, push_dec, push_str, string_of};

verus! {

/// What `urlencoding::encode` returns for a string with these characters.
pub uninterp spec fn url_encoded(s: Seq<char>) -> Seq<char>;

/// A character that percent-encoding leaves in its output: an ASCII letter
/// or digit, `-`, `.`, `_`, `~`, or the `%` of an escape.
pub open spec fn url_safe(c: char) -> bool {
    ('0' <= c && c <= '9') || ('A' <= c && c <= 'Z') || ('a' <= c && c <= 'z') || c == '-' || c
        == '.' || c == '_' || c == '~' || c == '%'
}

/// Relies on `urlencoding::encode`: every byte but ASCII letters, digits and
/// `-._~` becomes `%` and two hex digits, so only those characters remain.
#[verifier::external_body]
fn url_encode(s: &str) -> (r: String)
    ensures
        r@ == url_encoded(s@),
        forall|i: int| 0 <= i < r@.len() ==> url_safe(#[trigger] r@[i]),
{
    urlencoding::encode(s).into_owned()
}

/// What HMAC-SHA-256 gives for a key and a message.
pub uninterp spec fn hmac_sha256_of(key: Seq<u8>, msg: Seq<u8>) -> Seq<u8>;

/// Relies on `hmac::Hmac<sha2::Sha256>`: the 32-byte tag of `msg` under
/// `key`; HMAC accepts keys of any length.
#[verifier::external_body]
fn hmac_sha256(key: &[u8], msg: &[u8]) -> (r: Vec<u8>)
    ensures
        r@ == hmac_sha256_of(key@, msg@),
        r@.len() == 32,
{
    let mut mac = <hmac::Hmac<sha2::Sha256> as hmac::Mac>::new_from_slice(key).expect(
        "HMAC takes keys of any length",
    );
    hmac::Mac::update(&mut mac, msg);
    hmac::Mac::finalize(mac).into_bytes().to_vec()
}

/// The lower-case hex digit of a nibble.
pub open spec fn hex_digit(n: nat) -> char {
    if n < 10 {
        ((n + 48) as u8) as char
    } else {
        ((n + 87) as u8) as char
    }
}

/// Lower-case hex, two digits per byte.
pub open spec fn hex_of(b: Seq<u8>) -> Seq<char>
    decreases b.len(),
{
    if b.len() == 0 {
        Seq::empty()
    } else {
        hex_of(b.drop_last()).push(hex_digit((b.last() / 16) as nat)).push(
            hex_digit((b.last() % 16) as nat),
        )
    }
}

fn hex_digit_exec(n: u8) -> (c: char)
    requires
        n < 16,
    ensures
        c == hex_digit(n as nat),
{
    if n < 10 {
        (n + 48) as char
    } else {
        (n + 87) as char
    }
}

/// Lower-case hex of `b`.
pub fn to_hex(b: &Vec<u8>) -> (r: Vec<char>)
    ensures
        r@ == hex_of(b@),
{
    let mut r: Vec<char> = Vec::new();
    let mut i: usize = 0;
    while i < b.len()
        invariant
            i <= b@.len(),
            r@ == hex_of(b@.subrange(0, i as int)),
        decreases b@.len() - i,
    {
        assert(b@.subrange(0, i + 1).drop_last() =~= b@.subrange(0, i as int));
        r.push(hex_digit_exec(b[i] / 16));
        r.push(hex_digit_exec(b[i] % 16));
        i += 1;
    }
    assert(b@.subrange(0, b@.len() as int) =~= b@);
    r
}

/// The decimal notation of a signed number.
pub open spec fn dec_i64(e: i64) -> Seq<char> {
    if e < 0 {
        seq!['-'] + dec((-e) as nat)
    } else {
        dec(e as nat)
    }
}

/// The signed part of a share link: `expire=<epoch>&path=<encoded path>`.
pub open spec fn share_message_spec(encoded_path: Seq<char>, expire: i64) -> Seq<char> {
    seq!['e', 'x', 'p', 'i', 'r', 'e', '='] + dec_i64(expire) + seq![
        '&',
        'p',
        'a',
        't',
        'h',
        '=',
    ] + encoded_path
}

/// The bytes of a character sequence in UTF-8.
pub open spec fn utf8(s: Seq<char>) -> Seq<u8> {
    vstd::utf8::encode_utf8(s)
}

/// The hash that a link for `path` and `expire` carries under `secret`.
pub open spec fn share_hash_spec(secret: Seq<char>, path: Seq<char>, expire: i64) -> Seq<char> {
    hex_of(hmac_sha256_of(utf8(secret), utf8(share_message_spec(url_encoded(path), expire))))
}

/// A whole share link: `hash=<hash>&<message>`.
pub open spec fn share_link_spec(secret: Seq<char>, path: Seq<char>, expire: i64) -> Seq<char> {
    seq!['h', 'a', 's', 'h', '='] + share_hash_spec(secret, path, expire) + seq!['&']
        + share_message_spec(url_encoded(path), expire)
}

/// The outcome of redeeming a link: rejected unless the supplied hash is the
/// recomputed one, refused once `now` is past the expiry.
pub open spec fn redeem_outcome(supplied: Seq<char>, expected: Seq<char>, expire: i64, now: i64) -> Result<
    (),
    Error,
> {
    if supplied != expected {
        Err(Error::BadRequest)
    } else if now > expire {
        Err(Error::Unauthorized)
    } else {
        Ok(())
    }
}

fn push_dec_i64(e: i64, out: &mut Vec<char>)
    ensures
        final(out)@ == old(out)@ + dec_i64(e),
{
    if e < 0 {
        out.push('-');
        let m: u64 = (-(e as i128)) as u64;
        push_dec(m, out);
    } else {
        push_dec(e as u64, out);
    }
}

/// The signed part of a link for `path` and `expire`.
pub fn share_message(path: &str, expire: i64) -> (r: String)
    ensures
        r@ == share_message_spec(url_encoded(path@), expire),
{
    let mut m: Vec<char> = Vec::new();
    push_str("expire=", &mut m);
    push_dec_i64(expire, &mut m);
    push_str("&path=", &mut m);
    let enc = url_encode(path);
    push_str(enc.as_str(), &mut m);
    proof {
        reveal_strlit("expire=");
        reveal_strlit("&path=");
        assert(m@ =~= share_message_spec(url_encoded(path@), expire));
    }
    string_of(&m)
}

/// The keyed hash of a message under `secret`, in lower-case hex.
pub fn keyed_hash(secret: &str, message: &str) -> (r: String)
    ensures
        r@ == hex_of(hmac_sha256_of(utf8(secret@), utf8(message@))),
{
    let tag = hmac_sha256(secret.as_bytes(), message.as_bytes());
    string_of(&to_hex(&tag))
}

/// Issues a link to `path` that holds until `expire`.
pub fn generate_share_link(path: &str, expire: i64, secret: &str) -> (r: String)
    ensures
        r@ == share_link_spec(secret@, path@, expire),
{
    let message = share_message(path, expire);
    let hash = keyed_hash(secret, message.as_str());
    let mut out: Vec<char> = Vec::new();
    push_str("hash=", &mut out);
    push_str(hash.as_str(), &mut out);
    out.push('&');
    push_str(message.as_str(), &mut out);
    proof {
        reveal_strlit("hash=");
        assert(out@ =~= share_link_spec(secret@, path@, expire));
    }
    string_of(&out)
}

/// Decides a redemption once the expected hash is known.
pub fn check_share_hash(supplied: &str, expected: &str, expire: i64, now: i64) -> (r: Result<
    (),
    Error,
>)
    ensures
        r == redeem_outcome(supplied@, expected@, expire, now),
{
    if !crate::text::str_eq(supplied, expected) {
        Err(Error::BadRequest)
    } else if now > expire {
        Err(Error::Unauthorized)
    } else {
        Ok(())
    }
}

/// Redeems a link: valid only where `hash` is the hash recomputed over
/// `path` and `expire`, and `now` has not passed `expire`.
pub fn get_share_link(path: &str, expire: i64, hash: &str, secret: &str, now: i64) -> (r: Result<
    (),
    Error,
>)
    ensures
        r == redeem_outcome(hash@, share_hash_spec(secret@, path@, expire), expire, now),
{
    let message = share_message(path, expire);
    let expected = keyed_hash(secret, message.as_str());
    check_share_hash(hash, expected.as_str(), expire, now)
}

/// A link redeems with the hash it was issued with, until it expires.
pub proof fn lemma_share_round_trip(secret: Seq<char>, path: Seq<char>, expire: i64, now: i64)
    requires
        now <= expire,
    ensures
        redeem_outcome(
            share_hash_spec(secret, path, expire),
            share_hash_spec(secret, path, expire),
            expire,
            now,
        ) == Ok::<(), Error>(()),
{
}

proof fn lemma_split_at_amp(x1: Seq<char>, y1: Seq<char>, x2: Seq<char>, y2: Seq<char>)
    requires
        x1 + seq!['&'] + y1 == x2 + seq!['&'] + y2,
        forall|i: int| 0 <= i < x1.len() ==> x1[i] != '&',
        forall|i: int| 0 <= i < x2.len() ==> x2[i] != '&',
    ensures
        x1 == x2,
        y1 == y2,
{
    let s = x1 + seq!['&'] + y1;
    let t = x2 + seq!['&'] + y2;
    if x1.len() < x2.len() {
        assert(s[x1.len() as int] == '&');
        assert(t[x1.len() as int] == x2[x1.len() as int]);
    } else if x2.len() < x1.len() {
        assert(t[x2.len() as int] == '&');
        assert(s[x2.len() as int] == x1[x2.len() as int]);
    }
    assert(x1 =~= s.subrange(0, x1.len() as int));
    assert(x2 =~= t.subrange(0, x2.len() as int));
    assert(y1 =~= s.subrange(x1.len() + 1 as int, s.len() as int));
    assert(y2 =~= t.subrange(x2.len() + 1 as int, t.len() as int));
}

proof fn lemma_dec_i64_injective(a: i64, b: i64)
    requires
        dec_i64(a) == dec_i64(b),
    ensures
        a == b,
{
    lemma_dec_value((-a) as nat);
    lemma_dec_value((-b) as nat);
    lemma_dec_value(a as nat);
    lemma_dec_value(b as nat);
    if a < 0 && b >= 0 {
        assert(dec_i64(a)[0] == '-');
        assert(is_digit(dec(b as nat)[0]));
    } else if b < 0 && a >= 0 {
        assert(dec_i64(b)[0] == '-');
        assert(is_digit(dec(a as nat)[0]));
    } else if a < 0 {
        assert(dec((-a) as nat) =~= dec_i64(a).subrange(1, dec_i64(a).len() as int));
        assert(dec((-b) as nat) =~= dec_i64(b).subrange(1, dec_i64(b).len() as int));
    }
}

/// The signed message determines the expiry and the encoded path: changing
/// either one changes what the hash is computed over.
pub proof fn lemma_share_message_injective(path_a: Seq<char>, e1: i64, path_b: Seq<char>, e2: i64)
    requires
        share_message_spec(url_encoded(path_a), e1) == share_message_spec(url_encoded(path_b), e2),
    ensures
        e1 == e2,
        url_encoded(path_a) == url_encoded(path_b),
{
    let pre = seq!['e', 'x', 'p', 'i', 'r', 'e', '='];
    let tail = seq!['p', 'a', 't', 'h', '='];
    let m1 = share_message_spec(url_encoded(path_a), e1);
    let m2 = share_message_spec(url_encoded(path_b), e2);
    assert(m1 =~= pre + (dec_i64(e1) + seq!['&'] + (tail + url_encoded(path_a))));
    assert(m2 =~= pre + (dec_i64(e2) + seq!['&'] + (tail + url_encoded(path_b))));
    let r1 = dec_i64(e1) + seq!['&'] + (tail + url_encoded(path_a));
    let r2 = dec_i64(e2) + seq!['&'] + (tail + url_encoded(path_b));
    assert(r1 =~= m1.subrange(7, m1.len() as int));
    assert(r2 =~= m2.subrange(7, m2.len() as int));
    lemma_dec_value((-e1) as nat);
    lemma_dec_value((-e2) as nat);
    lemma_dec_value(e1 as nat);
    lemma_dec_value(e2 as nat);
    assert forall|i: int| 0 <= i < dec_i64(e1).len() implies dec_i64(e1)[i] != '&' by {
        if e1 < 0 && i > 0 {
            assert(dec_i64(e1)[i] == dec((-e1) as nat)[i - 1]);
        }
    }
    assert forall|i: int| 0 <= i < dec_i64(e2).len() implies dec_i64(e2)[i] != '&' by {
        if e2 < 0 && i > 0 {
            assert(dec_i64(e2)[i] == dec((-e2) as nat)[i - 1]);
        }
    }
    lemma_split_at_amp(dec_i64(e1), tail + url_encoded(path_a), dec_i64(e2), tail + url_encoded(path_b));
    lemma_dec_i64_injective(e1, e2);
    assert(url_encoded(path_a) =~= (tail + url_encoded(path_a)).subrange(5, 5 + url_encoded(path_a).len() as int));
    assert(url_encoded(path_b) =~= (tail + url_encoded(path_b)).subrange(5, 5 + url_encoded(path_b).len() as int));
}

} // verus!
