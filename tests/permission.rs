use oasis::permission::{
    check_access, delete_sub_path, get_least_permission, max_permission_parent, update_sub_path, Hidden,
};
use oasis::Error;

fn rules() -> Vec<Hidden> {
    vec![Hidden::new("docs", 2), Hidden::new("docs/private", 5), Hidden::new("music/live", 1)]
}

#[test]
fn exact_permission_matches_only_the_rule_path() {
    let h = rules();
    assert_eq!(get_least_permission("docs", &h), 2);
    assert_eq!(get_least_permission("docs/private", &h), 5);
    assert_eq!(get_least_permission("docs/private/a.txt", &h), 0);
    assert_eq!(get_least_permission("music", &h), 0);
}

#[test]
fn exact_permission_takes_the_first_matching_rule() {
    let h = vec![Hidden::new("a", 3), Hidden::new("a", 7)];
    assert_eq!(get_least_permission("a", &h), 3);
}

#[test]
fn inherited_permission_takes_the_highest_ancestor() {
    let h = rules();
    assert_eq!(max_permission_parent("docs/readme.md", &h), 2);
    assert_eq!(max_permission_parent("docs/private/a.txt", &h), 5);
    assert_eq!(max_permission_parent("music/live/x.mp3", &h), 1);
    assert_eq!(max_permission_parent("music/studio/x.mp3", &h), 0);
}

#[test]
fn inherited_permission_goes_by_components() {
    let h = rules();
    assert_eq!(max_permission_parent("docsy/file", &h), 0);
    assert_eq!(max_permission_parent("doc", &h), 0);
}

#[test]
fn root_rule_covers_everything() {
    let h = vec![Hidden::new("", 4)];
    assert_eq!(max_permission_parent("any/where", &h), 4);
}

#[test]
fn inherited_at_least_exact_and_monotone() {
    let h = rules();
    for p in ["docs", "docs/private", "music/live"] {
        assert!(max_permission_parent(p, &h) >= get_least_permission(p, &h));
    }
    assert!(max_permission_parent("docs/private", &h) >= max_permission_parent("docs", &h));
    assert!(max_permission_parent("docs/private/x/y", &h) >= max_permission_parent("docs/private", &h));
}

#[test]
fn access_is_refused_above_the_level() {
    let h = rules();
    assert_eq!(check_access("docs/private/a.txt", &h, 4), Err(Error::Unauthorized));
    assert_eq!(check_access("docs/private/a.txt", &h, 5), Ok(()));
    assert_eq!(check_access("music/studio", &h, 0), Ok(()));
}

#[test]
fn deleting_a_path_drops_its_rules_and_those_beneath() {
    let h = vec![
        Hidden::new("docs", 2),
        Hidden::new("docs/private", 5),
        Hidden::new("docsy", 1),
        Hidden::new("music", 3),
    ];
    let kept = delete_sub_path(&h, "docs");
    let got: Vec<(String, i8)> = kept.iter().map(|r| (r.path.clone(), r.least_permission)).collect();
    assert_eq!(got, vec![("docsy".to_string(), 1), ("music".to_string(), 3)]);
}

#[test]
fn renaming_a_path_moves_its_rules() {
    let h = vec![Hidden::new("docs", 2), Hidden::new("docs/private", 5), Hidden::new("docsy", 1)];
    let moved = update_sub_path(&h, "docs", "papers");
    let got: Vec<(String, i8)> = moved.iter().map(|r| (r.path.clone(), r.least_permission)).collect();
    assert_eq!(
        got,
        vec![("papers".to_string(), 2), ("papers/private".to_string(), 5), ("docsy".to_string(), 1)]
    );
}
