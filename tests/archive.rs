use oasis::archive::{archive_entry_name, ENTRY_MODE, ZIP_BUFFER_SIZE};

#[test]
fn entries_are_rooted_at_the_directory_name() {
    assert_eq!(archive_entry_name("root/d", "root/d/a.txt", true), Some("d/a.txt".to_string()));
    assert_eq!(archive_entry_name("root/d", "root/d/sub/b.txt", true), Some("d/sub/b.txt".to_string()));
}

#[test]
fn absolute_and_top_level_targets() {
    assert_eq!(archive_entry_name("/srv/data/d", "/srv/data/d/a.txt", true), Some("d/a.txt".to_string()));
    assert_eq!(archive_entry_name("/d", "/d/a.txt", true), Some("d/a.txt".to_string()));
    assert_eq!(archive_entry_name("d", "d/a.txt", true), Some("d/a.txt".to_string()));
}

#[test]
fn only_files_under_the_parent_become_entries() {
    assert_eq!(archive_entry_name("root/d", "root/d/sub", false), None);
    assert_eq!(archive_entry_name("root/d", "other/x.txt", true), None);
}

#[test]
fn archive_constants() {
    assert_eq!(ZIP_BUFFER_SIZE, 65536);
    assert_eq!(ENTRY_MODE, 0o644);
}
