use classdb::binding::{decimal_text, like_pattern, role_texts};
use classdb::decimal::asu64;
use classdb::model::{Cell, Class, DbError, Group};
use classdb::rows::{class_from_row, classes_from_rows, group_from_row, groups_from_rows};

fn text(s: &str) -> Cell {
    Cell::Text(s.to_string())
}

fn group_row() -> Vec<Cell> {
    vec![Cell::Integer(1), text("Alpha"), text("100"), text("101")]
}

#[test]
fn asu64_reads_decimal_text() {
    assert_eq!(asu64("123456789012345"), Some(123456789012345));
    assert_eq!(asu64("0"), Some(0));
    assert_eq!(asu64("+7"), Some(7));
    assert_eq!(asu64("18446744073709551615"), Some(u64::MAX));
}

#[test]
fn asu64_rejects_other_text() {
    assert_eq!(asu64(""), None);
    assert_eq!(asu64("+"), None);
    assert_eq!(asu64("-1"), None);
    assert_eq!(asu64("12a"), None);
    assert_eq!(asu64(" 12"), None);
    assert_eq!(asu64("18446744073709551616"), None);
}

#[test]
fn role_texts_are_decimal() {
    assert_eq!(role_texts(&[42, 0, u64::MAX]), vec!["42", "0", "18446744073709551615"]);
    assert!(role_texts(&[]).is_empty());
}

#[test]
fn identifier_text_round_trips() {
    for x in [0u64, 9, 10, 123456789012345, u64::MAX] {
        let t = role_texts(&[x]);
        assert_eq!(asu64(&t[0]), Some(x));
    }
}

#[test]
fn like_pattern_wraps_term() {
    assert_eq!(like_pattern("ab"), "%ab%");
    assert_eq!(like_pattern(""), "%%");
    assert_eq!(like_pattern("5%_"), "%5%_%");
}

#[test]
fn group_row_maps_fields() {
    let g = group_from_row(&group_row()).unwrap();
    assert_eq!(g, Group { id: 1, name: "Alpha".to_string(), channel_group: 100, vc: 101 });
}

#[test]
fn class_row_with_null_group_has_none() {
    let row = vec![
        Cell::Integer(2), text("History"), text("12"), text("22"),
        Cell::Null, Cell::Null, Cell::Null, Cell::Null,
    ];
    let c = class_from_row(&row).unwrap();
    assert_eq!(c, Class { id: 2, name: "History".to_string(), role: 12, channel: 22, group: None });
}

#[test]
fn class_row_with_group_embeds_it() {
    let mut row = vec![Cell::Integer(1), text("Math 101"), text("11"), text("21")];
    row.extend(group_row());
    let c = class_from_row(&row).unwrap();
    assert_eq!(c.group, Some(group_from_row(&group_row()).unwrap()));
    assert_eq!(c.role, 11);
}

#[test]
fn partial_group_is_an_error() {
    let row = vec![
        Cell::Integer(1), text("Math"), text("11"), text("21"),
        Cell::Integer(1), Cell::Null, text("100"), text("101"),
    ];
    assert!(matches!(class_from_row(&row), Err(DbError::InvalidColumnType(5))));
}

#[test]
fn short_row_is_an_error() {
    let row = vec![Cell::Integer(1), text("Alpha"), text("100")];
    assert!(matches!(group_from_row(&row), Err(DbError::InvalidColumnIndex(3))));
}

#[test]
fn out_of_range_id_is_an_error() {
    let mut row = group_row();
    row[0] = Cell::Integer(-1);
    assert!(matches!(group_from_row(&row), Err(DbError::IntegralValueOutOfRange(0, -1))));
    row[0] = Cell::Integer(4294967296);
    assert!(matches!(group_from_row(&row), Err(DbError::IntegralValueOutOfRange(0, 4294967296))));
}

#[test]
fn wrong_kind_of_value_is_an_error() {
    let mut row = group_row();
    row[1] = Cell::Integer(5);
    assert!(matches!(group_from_row(&row), Err(DbError::InvalidColumnType(1))));
    let mut row = group_row();
    row[2] = Cell::Real;
    assert!(matches!(group_from_row(&row), Err(DbError::InvalidColumnType(2))));
    let mut row = group_row();
    row[0] = Cell::Blob(vec![1]);
    assert!(matches!(group_from_row(&row), Err(DbError::InvalidColumnType(0))));
}

#[test]
fn bad_identifier_text_is_an_error() {
    let mut row = group_row();
    row[3] = text("12x");
    assert!(matches!(group_from_row(&row), Err(DbError::InvalidIdentifier(3))));
}

#[test]
fn first_failing_row_gives_the_error() {
    let mut bad = group_row();
    bad[1] = Cell::Null;
    let rows = vec![group_row(), bad, vec![]];
    assert!(matches!(groups_from_rows(&rows), Err(DbError::InvalidColumnType(1))));
    let ok = groups_from_rows(&vec![group_row(), group_row()]).unwrap();
    assert_eq!(ok.len(), 2);
    assert!(classes_from_rows(&vec![]).unwrap().is_empty());
}

#[test]
fn decimal_text_has_no_leading_zero() {
    assert_eq!(decimal_text(0), "0");
    assert_eq!(decimal_text(7), "7");
    assert_eq!(decimal_text(10), "10");
    assert_eq!(decimal_text(123456789012345), "123456789012345");
    assert_eq!(decimal_text(u64::MAX), "18446744073709551615");
}
