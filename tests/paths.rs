use oasis::paths::{check_rel_path, join_name, parse_encoded_url, renamed_path};
use oasis::Error;

#[test]
fn decodes_request_paths() {
    assert_eq!(parse_encoded_url("a%2Fb%20c"), Ok("a/b c".to_string()));
    assert_eq!(parse_encoded_url("plain/path"), Ok("plain/path".to_string()));
    assert_eq!(parse_encoded_url("%FF"), Err(Error::BadRequest));
}

#[test]
fn refuses_escaping_paths() {
    assert_eq!(parse_encoded_url("..%2Fetc"), Err(Error::BadRequest));
    assert_eq!(check_rel_path("a/../b"), Err(Error::BadRequest));
    assert_eq!(check_rel_path(".."), Err(Error::BadRequest));
    assert_eq!(check_rel_path("a/.."), Err(Error::BadRequest));
    assert_eq!(check_rel_path("/etc/passwd"), Err(Error::BadRequest));
    assert_eq!(check_rel_path("a/..b/c.."), Ok(()));
    assert_eq!(check_rel_path(""), Ok(()));
}

#[test]
fn joins_valid_names() {
    assert_eq!(join_name("docs", "new"), Ok("docs/new".to_string()));
    assert_eq!(join_name("", "new"), Ok("new".to_string()));
    assert_eq!(join_name("docs", "a/b"), Err(Error::BadRequest));
    assert_eq!(join_name("docs", ".."), Err(Error::BadRequest));
    assert_eq!(join_name("docs", "."), Err(Error::BadRequest));
    assert_eq!(join_name("docs", ""), Err(Error::BadRequest));
}

#[test]
fn renames_within_the_directory() {
    assert_eq!(renamed_path("docs/old.txt", "new.txt"), Ok("docs/new.txt".to_string()));
    assert_eq!(renamed_path("old.txt", "new.txt"), Ok("new.txt".to_string()));
    assert_eq!(renamed_path("a/b/c", "d/e"), Err(Error::BadRequest));
}
