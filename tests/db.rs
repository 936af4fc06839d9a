use oasis::db::{returns_row_id, starts_with_insert, Query};

#[test]
fn query_holds_statement_and_arguments() {
    let q = Query::new("select * from hidden where path = ?", vec!["a".to_string()]);
    assert_eq!(q.sql, "select * from hidden where path = ?");
    assert_eq!(q.args, vec!["a".to_string()]);
}

#[test]
fn inserts_return_row_ids() {
    assert!(returns_row_id("INSERT INTO hidden VALUES (?, ?)"));
    assert!(returns_row_id("insert into t"));
    assert!(!returns_row_id("delete from hidden"));
    assert!(!returns_row_id("ins"));
    assert!(!starts_with_insert("INSERT"));
}
