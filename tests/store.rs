use classdb::model::{Class, DbError, Group};
use classdb::store::{Database, ENABLE_FOREIGN_KEYS};
use rusqlite::Connection;

fn fresh(path: &str) -> (Database, Connection) {
    let db = Database::open(path).unwrap();
    let conn = Connection::open(path).unwrap();
    conn.execute_batch("DELETE FROM class; DELETE FROM \"group\";").unwrap();
    (db, conn)
}

fn alpha() -> Group {
    Group { id: 1, name: "Alpha".to_string(), channel_group: 100, vc: 101 }
}

fn seed_scenario(conn: &Connection) {
    conn.execute_batch(
        "INSERT INTO \"group\" (id, name, channel_group, vc) VALUES (1, 'Alpha', '100', '101');
         INSERT INTO \"group\" (id, name, channel_group, vc) VALUES (2, 'Beta', '200', '201');
         INSERT INTO class (id, name, role, channel, group_id) VALUES (1, 'Math 101', '11', '21', 1);
         INSERT INTO class (id, name, role, channel, group_id) VALUES (2, 'History', '12', '22', NULL);",
    )
    .unwrap();
}

#[test]
fn reopening_keeps_rows() {
    let path = "/tmp/classdb_reopening_keeps_rows.db";
    let (db, conn) = fresh(path);
    seed_scenario(&conn);
    let before = db.get_all_classes().unwrap();
    drop(db);
    let again = Database::open(path).unwrap();
    let after = again.get_all_classes().unwrap();
    assert_eq!(before, after);
    assert_eq!(after.len(), 2);
    assert_eq!(again.get_all_groups().unwrap().len(), 2);
}

#[test]
fn dangling_group_reference_is_rejected() {
    let path = "/tmp/classdb_dangling_group.db";
    let (_db, conn) = fresh(path);
    // Enforcement is a setting of each connection: this one turns it on with
    // the same statement that `Database::open` runs on its own.
    conn.execute_batch(ENABLE_FOREIGN_KEYS).unwrap();
    let r = conn.execute_batch(
        "INSERT INTO class (id, name, role, channel, group_id) VALUES (1, 'Orphan', '1', '2', 99);",
    );
    assert!(r.is_err());
}

#[test]
fn list_classes_joins_groups() {
    let path = "/tmp/classdb_list_classes_joins.db";
    let (db, conn) = fresh(path);
    seed_scenario(&conn);
    let classes = db.get_all_classes().unwrap();
    assert_eq!(classes.len(), 2);
    assert_eq!(
        classes[0],
        Class { id: 1, name: "Math 101".to_string(), role: 11, channel: 21, group: Some(alpha()) }
    );
    assert_eq!(
        classes[1],
        Class { id: 2, name: "History".to_string(), role: 12, channel: 22, group: None }
    );
}

#[test]
fn search_groups_matches_prefix_ignoring_case() {
    let path = "/tmp/classdb_search_groups.db";
    let (db, conn) = fresh(path);
    seed_scenario(&conn);
    assert_eq!(db.search_groups("alp").unwrap(), vec![alpha()]);
    assert_eq!(db.get_all_groups().unwrap().len(), 2);
}

#[test]
fn search_classes_ignores_case() {
    let path = "/tmp/classdb_search_classes.db";
    let (db, conn) = fresh(path);
    seed_scenario(&conn);
    let found = db.search_classes("MATH").unwrap();
    assert_eq!(found.len(), 1);
    assert_eq!(found[0].name, "Math 101");
    assert!(db.search_classes("chem").unwrap().is_empty());
}

#[test]
fn search_term_wildcards_act_as_pattern() {
    let path = "/tmp/classdb_search_wildcards.db";
    let (db, conn) = fresh(path);
    seed_scenario(&conn);
    assert_eq!(db.search_classes("M_th").unwrap().len(), 1);
    assert_eq!(db.search_classes("%").unwrap().len(), 2);
}

#[test]
fn filter_by_roles_returns_exactly_members() {
    let path = "/tmp/classdb_filter_roles.db";
    let (db, conn) = fresh(path);
    conn.execute_batch(
        "INSERT INTO class (id, name, role, channel) VALUES (1, 'A', '11', '1');
         INSERT INTO class (id, name, role, channel) VALUES (2, 'B', '12', '2');
         INSERT INTO class (id, name, role, channel) VALUES (3, 'C', '13', '3');
         INSERT INTO class (id, name, role, channel) VALUES (4, 'D', '14', '4');",
    )
    .unwrap();
    let found = db.filter_classes_by_roles(&[11, 13]).unwrap();
    let roles: Vec<u64> = found.iter().map(|c| c.role).collect();
    assert_eq!(roles, vec![11, 13]);
    assert!(db.filter_classes_by_roles(&[]).unwrap().is_empty());
    assert!(db.filter_classes_by_roles(&[99]).unwrap().is_empty());
}

#[test]
fn large_identifier_text_reads_back() {
    let path = "/tmp/classdb_large_identifier.db";
    let (db, conn) = fresh(path);
    conn.execute_batch(
        "INSERT INTO class (id, name, role, channel) VALUES (1, 'Big', '123456789012345', '18446744073709551615');",
    )
    .unwrap();
    let classes = db.get_all_classes().unwrap();
    assert_eq!(classes[0].role, 123456789012345);
    assert_eq!(classes[0].channel, u64::MAX);
    assert_eq!(db.filter_classes_by_roles(&[123456789012345]).unwrap().len(), 1);
}

#[test]
fn non_numeric_identifier_is_an_error() {
    let path = "/tmp/classdb_non_numeric.db";
    let (db, conn) = fresh(path);
    conn.execute_batch(
        "INSERT INTO \"group\" (id, name, channel_group, vc) VALUES (1, 'Alpha', 'abc', '1');",
    )
    .unwrap();
    assert!(matches!(db.get_all_groups(), Err(DbError::InvalidIdentifier(2))));
}

#[test]
fn open_in_missing_directory_fails() {
    let r = Database::open("/nonexistent_classdb_dir/sub/store.db");
    assert!(matches!(r, Err(DbError::Store(_))));
}

#[test]
fn results_come_in_increasing_id_order() {
    let path = "/tmp/classdb_id_order.db";
    let (db, conn) = fresh(path);
    conn.execute_batch(
        "INSERT INTO \"group\" (id, name, channel_group, vc) VALUES (9, 'Gamma', '1', '2');
         INSERT INTO \"group\" (id, name, channel_group, vc) VALUES (3, 'Gala', '3', '4');
         INSERT INTO class (id, name, role, channel) VALUES (7, 'Algebra', '5', '1');
         INSERT INTO class (id, name, role, channel) VALUES (2, 'Geometry', '5', '2');
         INSERT INTO class (id, name, role, channel) VALUES (4, 'Calculus', '6', '3');",
    )
    .unwrap();
    let ids: Vec<u32> = db.get_all_classes().unwrap().iter().map(|c| c.id).collect();
    assert_eq!(ids, vec![2, 4, 7]);
    let ids: Vec<u32> = db.filter_classes_by_roles(&[5, 6]).unwrap().iter().map(|c| c.id).collect();
    assert_eq!(ids, vec![2, 4, 7]);
    let ids: Vec<u32> = db.search_classes("E").unwrap().iter().map(|c| c.id).collect();
    assert_eq!(ids, vec![2, 7]);
    let names: Vec<String> = db.search_groups("GA").unwrap().into_iter().map(|g| g.name).collect();
    assert_eq!(names, vec!["Gala", "Gamma"]);
}

#[test]
fn noncharacters_match_replacement_character() {
    let path = "/tmp/classdb_noncharacters.db";
    let (db, conn) = fresh(path);
    conn.execute_batch(
        "INSERT INTO class (id, name, role, channel) VALUES (1, 'x\u{FFFF}y', '1', '1');",
    )
    .unwrap();
    let found = db.search_classes("x\u{FFFD}y").unwrap();
    assert_eq!(found.len(), 1);
    assert_eq!(found[0].name, "x\u{FFFF}y");
}
