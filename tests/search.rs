use oasis::permission::Hidden;
use oasis::search::{
    contains_all_keywords, matches_keywords_folded, parse_keywords, search_entries, split_keywords,
    visible_children, PathEntry,
};
use oasis::Error;

fn kws(v: &[&str]) -> Vec<String> {
    v.iter().map(|s| s.to_string()).collect()
}

#[test]
fn dot_keyword_is_an_extension_filter() {
    assert!(contains_all_keywords("app.js", false, &kws(&[".js"])));
    assert!(!contains_all_keywords("app.json", false, &kws(&[".js"])));
}

#[test]
fn keywords_ignore_case() {
    assert!(contains_all_keywords("Report_2024.pdf", false, &kws(&["report"])));
    assert!(contains_all_keywords("report_2024.pdf", false, &kws(&["REPORT", "2024"])));
    assert!(contains_all_keywords("APP.JS", false, &kws(&[".js"])));
    assert!(!contains_all_keywords("Report_2024.pdf", false, &kws(&["report", "2023"])));
}

#[test]
fn directories_never_match_a_dot_keyword() {
    assert!(!contains_all_keywords("lib.js", true, &kws(&[".js"])));
    assert!(contains_all_keywords("lib.js", true, &kws(&["lib"])));
}

#[test]
fn hidden_files_have_no_extension() {
    assert!(!matches_keywords_folded(".js", false, &kws(&[".js"])));
    assert!(matches_keywords_folded("a.b.js", false, &kws(&[".js"])));
    assert!(matches_keywords_folded("anything", false, &kws(&[])));
}

#[test]
fn search_filters_by_keyword_and_inherited_permission() {
    let entries = vec![
        PathEntry::new("", "storage", true),
        PathEntry::new("pub/app.js", "app.js", false),
        PathEntry::new("pub/app.json", "app.json", false),
        PathEntry::new("secret", "secret", true),
        PathEntry::new("secret/main.js", "main.js", false),
    ];
    let hidden = vec![Hidden::new("secret", 3)];
    assert_eq!(search_entries(&entries, &kws(&[".js"]), &hidden, 0), vec![1]);
    assert_eq!(search_entries(&entries, &kws(&[".JS"]), &hidden, 3), vec![1, 4]);
    assert_eq!(search_entries(&entries, &kws(&["app"]), &hidden, 0), vec![1, 2]);
}

#[test]
fn listing_filters_children_and_guards_the_directory() {
    let children = vec![
        PathEntry::new("docs/a.txt", "a.txt", false),
        PathEntry::new("docs/private", "private", true),
    ];
    let hidden = vec![Hidden::new("docs/private", 2)];
    assert_eq!(visible_children("docs", &children, &hidden, 0), Ok(vec![0]));
    assert_eq!(visible_children("docs", &children, &hidden, 2), Ok(vec![0, 1]));
    let hidden = vec![Hidden::new("docs", 1)];
    assert_eq!(visible_children("docs", &children, &hidden, 0), Err(Error::Unauthorized));
}

#[test]
fn keywords_split_at_plus() {
    assert_eq!(split_keywords("a+b"), kws(&["a", "b"]));
    assert_eq!(split_keywords("abc"), kws(&["abc"]));
    assert_eq!(split_keywords(""), kws(&[""]));
    assert_eq!(split_keywords("+x+"), kws(&["", "x", ""]));
}

#[test]
fn keywords_are_decoded_then_split() {
    assert_eq!(parse_keywords("report+%2Epdf"), Ok(kws(&["report", ".pdf"])));
    assert_eq!(parse_keywords("a%20b"), Ok(kws(&["a b"])));
    assert_eq!(parse_keywords("%FF"), Err(Error::BadRequest));
}
