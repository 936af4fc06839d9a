use oasis::share::{check_share_hash, generate_share_link, get_share_link, keyed_hash, share_message};
use oasis::Error;

fn hash_of(link: &str) -> String {
    let rest = link.strip_prefix("hash=").unwrap();
    rest.split('&').next().unwrap().to_string()
}

#[test]
fn link_layout() {
    let link = generate_share_link("x/y", 100, "s3cret");
    let h = hash_of(&link);
    assert_eq!(h.len(), 64);
    assert!(h.chars().all(|c| c.is_ascii_hexdigit() && !c.is_ascii_uppercase()));
    assert_eq!(link, format!("hash={}&expire=100&path=x%2Fy", h));
}

#[test]
fn link_verifies_only_unchanged() {
    let link = generate_share_link("x/y", 100, "s3cret");
    let h = hash_of(&link);
    assert_eq!(get_share_link("x/y", 100, &h, "s3cret", 50), Ok(()));
    assert_eq!(get_share_link("x/y", 100, &h, "s3cret", 100), Ok(()));
    assert_eq!(get_share_link("x/z", 100, &h, "s3cret", 50), Err(Error::BadRequest));
    assert_eq!(get_share_link("x/y", 101, &h, "s3cret", 50), Err(Error::BadRequest));
    assert_eq!(get_share_link("x/y", 100, &h, "other", 50), Err(Error::BadRequest));
}

#[test]
fn expired_link_is_refused() {
    let link = generate_share_link("x/y", 100, "s3cret");
    let h = hash_of(&link);
    assert_eq!(get_share_link("x/y", 100, &h, "s3cret", 101), Err(Error::Unauthorized));
}

#[test]
fn message_encodes_path_and_signed_expiry() {
    assert_eq!(share_message("a b/c", 5), "expire=5&path=a%20b%2Fc");
    assert_eq!(share_message("x", -3), "expire=-3&path=x");
    assert_eq!(share_message("x", i64::MIN), "expire=-9223372036854775808&path=x");
}

#[test]
fn keyed_hash_is_hmac_sha256() {
    assert_eq!(
        keyed_hash("Jefe", "what do ya want for nothing?"),
        "5bdcc146bf60754e6a042426089575c75a003f089d2739839dec58b964ec3843"
    );
}

#[test]
fn hash_check_order() {
    assert_eq!(check_share_hash("ab", "ab", 10, 10), Ok(()));
    assert_eq!(check_share_hash("ab", "ac", 10, 10), Err(Error::BadRequest));
    assert_eq!(check_share_hash("ab", "ac", 10, 11), Err(Error::BadRequest));
    assert_eq!(check_share_hash("ab", "ab", 10, 11), Err(Error::Unauthorized));
}
