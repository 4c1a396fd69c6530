//! The store: a SQLite connection with foreign keys enforced and the
//! `rarray` table-valued function loaded, the schema, and the queries.
use vstd::prelude::*;

use rusqlite::types::Value;
use rusqlite::{Connection, Row};
use std::rc::Rc;

use crate::binding::{like_matches, like_pattern, role_texts, spec_like_pattern};
use crate::decimal::decimal_of;
use crate::model::{Cell, Class, DbError, Group};
use crate::rows::{
    classes_from_rows, groups_from_rows, lemma_classes_elementwise, lemma_classes_full_width,
    lemma_groups_elementwise, lemma_groups_full_width, lemma_identifier_round_trip, spec_class_of,
    spec_classes_of, spec_group_at, spec_groups_of,
};

verus! {

#[verifier::external_type_specification]
#[verifier::external_body]
pub struct ExConnection(Connection);

#[verifier::external_type_specification]
#[verifier::external_body]
pub struct ExRow<'stmt>(Row<'stmt>);

pub const ENABLE_FOREIGN_KEYS: &'static str = "PRAGMA foreign_keys = ON;";

pub const SCHEMA_GROUP: &'static str = "CREATE TABLE IF NOT EXISTS \"group\" (
    id INTEGER PRIMARY KEY NOT NULL,
    name TEXT NOT NULL,
    channel_group TEXT NOT NULL,
    vc TEXT NOT NULL
);";

pub const SCHEMA_CLASS: &'static str = "CREATE TABLE IF NOT EXISTS class (
    id INTEGER PRIMARY KEY NOT NULL,
    name TEXT NOT NULL,
    role TEXT NOT NULL,
    channel TEXT NOT NULL,
    group_id INTEGER REFERENCES \"group\"(id) ON DELETE RESTRICT
);";

pub const ALL_CLASSES: &'static str = "SELECT class.id, class.name, class.role, class.channel,
    \"group\".id, \"group\".name, \"group\".channel_group, \"group\".vc
FROM class LEFT JOIN \"group\" ON class.group_id = \"group\".id
ORDER BY class.id;";

pub const SEARCH_CLASSES: &'static str = "SELECT class.id, class.name, class.role, class.channel,
    \"group\".id, \"group\".name, \"group\".channel_group, \"group\".vc
FROM class LEFT JOIN \"group\" ON class.group_id = \"group\".id
WHERE class.name LIKE ?1
ORDER BY class.id;";

pub const FILTER_CLASSES_BY_ROLES: &'static str = "SELECT class.id, class.name, class.role, class.channel,
    \"group\".id, \"group\".name, \"group\".channel_group, \"group\".vc
FROM class LEFT JOIN \"group\" ON class.group_id = \"group\".id
WHERE class.role COLLATE BINARY IN rarray(?1)
ORDER BY class.id;";

pub const ALL_GROUPS: &'static str = "SELECT id, name, channel_group, vc FROM \"group\" ORDER BY id;";

pub const SEARCH_GROUPS: &'static str = "SELECT id, name, channel_group, vc FROM \"group\"
WHERE name LIKE ?1
ORDER BY id;";

/// The number of columns of a class row.
pub const CLASS_WIDTH: usize = 8;

/// The number of columns of a group row.
pub const GROUP_WIDTH: usize = 4;

/// Relies on rusqlite's `Connection::open`: opens the file at `path`,
/// creating it where it does not exist.
#[verifier::external_body]
fn open_connection(path: &str) -> (r: Result<Connection, rusqlite::Error>) {
    Connection::open(path)
}

/// Relies on rusqlite's `Connection::execute_batch`: runs the statements
/// of `sql`.
#[verifier::external_body]
fn execute_batch(conn: &Connection, sql: &str) -> (r: Result<(), rusqlite::Error>) {
    conn.execute_batch(sql)
}

/// Relies on rusqlite's `vtab::array::load_module`: registers `rarray`.
#[verifier::external_body]
fn load_array_module(conn: &Connection) -> (r: Result<(), rusqlite::Error>) {
    rusqlite::vtab::array::load_module(conn)
}

/// Relies on rusqlite's `Row::get` into a `Value`: the value of column `i`
/// as the store typed it (a text column that is not UTF-8 is an error).
#[verifier::external_body]
fn cell_at(row: &Row, i: usize) -> (r: Result<Cell, rusqlite::Error>) {
    Ok(match row.get::<usize, Value>(i)? {
        Value::Null => Cell::Null,
        Value::Integer(v) => Cell::Integer(v),
        Value::Real(_) => Cell::Real,
        Value::Text(s) => Cell::Text(s),
        Value::Blob(b) => Cell::Blob(b),
    })
}

/// Reads the first `width` columns of `row`.
pub fn read_row(row: &Row, width: usize) -> (r: Result<Vec<Cell>, rusqlite::Error>)
    ensures
        r matches Ok(v) ==> v@.len() == width,
{
    let mut cells: Vec<Cell> = Vec::new();
    let mut i: usize = 0;
    while i < width
        invariant
            i <= width,
            cells@.len() == i,
        decreases width - i,
    {
        match cell_at(row, i) {
            Ok(c) => cells.push(c),
            Err(e) => return Err(e),
        }
        i = i + 1;
    }
    Ok(cells)
}

/// Every row has `width` cells.
pub open spec fn all_of_width(rows: Seq<Vec<Cell>>, width: nat) -> bool {
    forall|i: int| 0 <= i < rows.len() ==> (#[trigger] rows[i])@.len() == width
}

/// Of any two rows whose first columns are both integers, the earlier one's
/// is no greater: what `ORDER BY` on the first column gives, whatever the
/// column's declared type.
pub open spec fn ids_ordered(rows: Seq<Vec<Cell>>) -> bool {
    forall|i: int, j: int|
        0 <= i < j < rows.len() && (#[trigger] rows[i])@[0] is Integer && (#[trigger] rows[j])@[0] is Integer
            ==> rows[i]@[0]->Integer_0 <= rows[j]@[0]->Integer_0
}

/// Column `col` of every row, where it is text without a NUL character,
/// matches the pattern `p`.
pub open spec fn column_like(rows: Seq<Vec<Cell>>, col: int, p: Seq<char>) -> bool {
    forall|i: int|
        0 <= i < rows.len() && (#[trigger] rows[i])@[col] is Text && !rows[i]@[col]->Text_0@.contains(
            '\0',
        ) ==> like_matches(p, rows[i]@[col]->Text_0@)
}

/// Column 2 (the role) of every row, where it is text, is one of `values`.
pub open spec fn role_among(rows: Seq<Vec<Cell>>, values: Seq<String>) -> bool {
    forall|i: int|
        0 <= i < rows.len() && (#[trigger] rows[i])@[2] is Text ==> exists|j: int|
            0 <= j < values.len() && (#[trigger] values[j])@ == rows[i]@[2]->Text_0@
}

/// Relies on rusqlite's `Connection::prepare_cached` and `Statement::query_map`
/// running `ALL_CLASSES`: each row is read with `read_row`, so it has eight
/// cells, and the rows come ordered by their first column, the class id.
#[verifier::external_body]
fn all_class_rows(conn: &Connection) -> (r: Result<Vec<Vec<Cell>>, rusqlite::Error>)
    ensures
        r matches Ok(rows) ==> all_of_width(rows@, 8) && ids_ordered(rows@),
{
    let mut stmt = conn.prepare_cached(ALL_CLASSES)?;
    let rows = stmt.query_map([], |row| read_row(row, CLASS_WIDTH))?;
    rows.collect()
}

/// Relies on rusqlite's `Connection::prepare_cached` and `Statement::query_map`
/// running `SEARCH_CLASSES` with `pattern` bound to `?1`: as `all_class_rows`,
/// and SQLite's `LIKE` (`patternCompare`: no escape character, ASCII case
/// folded, U+FFFE and U+FFFF read as U+FFFD) holds of each class name that is
/// text; SQLite reads text only up to a NUL character.
#[verifier::external_body]
fn search_class_rows(conn: &Connection, pattern: &str) -> (r: Result<
    Vec<Vec<Cell>>,
    rusqlite::Error,
>)
    ensures
        r matches Ok(rows) ==> all_of_width(rows@, 8) && ids_ordered(rows@) && (
        !pattern@.contains('\0') ==> column_like(rows@, 1, pattern@)),
{
    let mut stmt = conn.prepare_cached(SEARCH_CLASSES)?;
    let rows = stmt.query_map([pattern], |row| read_row(row, CLASS_WIDTH))?;
    rows.collect()
}

/// Relies on rusqlite's `Connection::prepare_cached`, `Statement::query_map`
/// and its `rarray` parameter, running `FILTER_CLASSES_BY_ROLES` with the
/// texts of `values` bound as one array to `?1`: as `all_class_rows`, and
/// the role of each row, where it is text, equals one of those texts (the
/// `IN` compares under `COLLATE BINARY`: text equals text only byte for byte,
/// and never equals a number).
#[verifier::external_body]
fn role_class_rows(conn: &Connection, values: &Vec<String>) -> (r: Result<
    Vec<Vec<Cell>>,
    rusqlite::Error,
>)
    ensures
        r matches Ok(rows) ==> all_of_width(rows@, 8) && ids_ordered(rows@) && role_among(
            rows@,
            values@,
        ),
{
    let array: Rc<Vec<Value>> = Rc::new(values.iter().cloned().map(Value::from).collect());
    let mut stmt = conn.prepare_cached(FILTER_CLASSES_BY_ROLES)?;
    let rows = stmt.query_map([array], |row| read_row(row, CLASS_WIDTH))?;
    rows.collect()
}

/// Relies on rusqlite's `Connection::prepare_cached` and `Statement::query_map`
/// running `ALL_GROUPS`: each row is read with `read_row`, so it has four
/// cells, and the rows come ordered by their first column, the group id.
#[verifier::external_body]
fn all_group_rows(conn: &Connection) -> (r: Result<Vec<Vec<Cell>>, rusqlite::Error>)
    ensures
        r matches Ok(rows) ==> all_of_width(rows@, 4) && ids_ordered(rows@),
{
    let mut stmt = conn.prepare_cached(ALL_GROUPS)?;
    let rows = stmt.query_map([], |row| read_row(row, GROUP_WIDTH))?;
    rows.collect()
}

/// Relies on rusqlite's `Connection::prepare_cached` and `Statement::query_map`
/// running `SEARCH_GROUPS` with `pattern` bound to `?1`: as `all_group_rows`,
/// and SQLite's `LIKE` (`patternCompare`: no escape character, ASCII case
/// folded, U+FFFE and U+FFFF read as U+FFFD) holds of each group name that is
/// text; SQLite reads text only up to a NUL character.
#[verifier::external_body]
fn search_group_rows(conn: &Connection, pattern: &str) -> (r: Result<
    Vec<Vec<Cell>>,
    rusqlite::Error,
>)
    ensures
        r matches Ok(rows) ==> all_of_width(rows@, 4) && ids_ordered(rows@) && (
        !pattern@.contains('\0') ==> column_like(rows@, 1, pattern@)),
{
    let mut stmt = conn.prepare_cached(SEARCH_GROUPS)?;
    let rows = stmt.query_map([pattern], |row| read_row(row, GROUP_WIDTH))?;
    rows.collect()
}

/// The classes come in order of id.
pub open spec fn class_ids_ordered(v: Seq<Class>) -> bool {
    forall|i: int, j: int| 0 <= i < j < v.len() ==> (#[trigger] v[i]).id <= (#[trigger] v[j]).id
}

/// The groups come in order of id.
pub open spec fn group_ids_ordered(v: Seq<Group>) -> bool {
    forall|i: int, j: int| 0 <= i < j < v.len() ==> (#[trigger] v[i]).id <= (#[trigger] v[j]).id
}

/// Every class whose name has no NUL character matches `p`.
pub open spec fn class_names_like(v: Seq<Class>, p: Seq<char>) -> bool {
    forall|i: int|
        0 <= i < v.len() && !(#[trigger] v[i]).name@.contains('\0') ==> like_matches(p, v[i].name@)
}

/// Every group whose name has no NUL character matches `p`.
pub open spec fn group_names_like(v: Seq<Group>, p: Seq<char>) -> bool {
    forall|i: int|
        0 <= i < v.len() && !(#[trigger] v[i]).name@.contains('\0') ==> like_matches(p, v[i].name@)
}

proof fn lemma_classes_ordered(rows: Seq<Vec<Cell>>)
    requires
        ids_ordered(rows),
        spec_classes_of(rows) is Ok,
    ensures
        class_ids_ordered(spec_classes_of(rows)->Ok_0),
{
    lemma_classes_elementwise(rows);
    let cs = spec_classes_of(rows)->Ok_0;
    assert forall|i: int, j: int| 0 <= i < j < cs.len() implies (#[trigger] cs[i]).id <= (
    #[trigger] cs[j]).id by {
        assert(spec_class_of(rows[i]@) == Ok::<Class, DbError>(cs[i]));
        assert(spec_class_of(rows[j]@) == Ok::<Class, DbError>(cs[j]));
        assert(rows[i]@[0] is Integer && rows[j]@[0] is Integer);
    }
}

proof fn lemma_groups_ordered(rows: Seq<Vec<Cell>>)
    requires
        ids_ordered(rows),
        spec_groups_of(rows) is Ok,
    ensures
        group_ids_ordered(spec_groups_of(rows)->Ok_0),
{
    lemma_groups_elementwise(rows);
    let gs = spec_groups_of(rows)->Ok_0;
    assert forall|i: int, j: int| 0 <= i < j < gs.len() implies (#[trigger] gs[i]).id <= (
    #[trigger] gs[j]).id by {
        assert(spec_group_at(rows[i]@, 0) == Ok::<Group, DbError>(gs[i]));
        assert(spec_group_at(rows[j]@, 0) == Ok::<Group, DbError>(gs[j]));
        assert(rows[i]@[0] is Integer && rows[j]@[0] is Integer);
    }
}

proof fn lemma_class_names(rows: Seq<Vec<Cell>>, p: Seq<char>)
    requires
        column_like(rows, 1, p),
        spec_classes_of(rows) is Ok,
    ensures
        class_names_like(spec_classes_of(rows)->Ok_0, p),
{
    lemma_classes_elementwise(rows);
    let cs = spec_classes_of(rows)->Ok_0;
    assert forall|i: int| 0 <= i < cs.len() && !(#[trigger] cs[i]).name@.contains('\0') implies like_matches(
        p,
        cs[i].name@,
    ) by {
        assert(spec_class_of(rows[i]@) == Ok::<Class, DbError>(cs[i]));
        assert(rows[i]@[1] is Text);
    }
}

proof fn lemma_group_names(rows: Seq<Vec<Cell>>, p: Seq<char>)
    requires
        column_like(rows, 1, p),
        spec_groups_of(rows) is Ok,
    ensures
        group_names_like(spec_groups_of(rows)->Ok_0, p),
{
    lemma_groups_elementwise(rows);
    let gs = spec_groups_of(rows)->Ok_0;
    assert forall|i: int| 0 <= i < gs.len() && !(#[trigger] gs[i]).name@.contains('\0') implies like_matches(
        p,
        gs[i].name@,
    ) by {
        assert(spec_group_at(rows[i]@, 0) == Ok::<Group, DbError>(gs[i]));
        assert(rows[i]@[1] is Text);
    }
}

proof fn lemma_class_roles(rows: Seq<Vec<Cell>>, values: Seq<String>, roles: Seq<u64>)
    requires
        role_among(rows, values),
        values.len() == roles.len(),
        forall|j: int| 0 <= j < roles.len() ==> #[trigger] values[j]@ == decimal_of(roles[j] as nat),
        spec_classes_of(rows) is Ok,
    ensures
        forall|i: int|
            0 <= i < spec_classes_of(rows)->Ok_0.len() ==> roles.contains(
                #[trigger] spec_classes_of(rows)->Ok_0[i].role,
            ),
{
    lemma_classes_elementwise(rows);
    let cs = spec_classes_of(rows)->Ok_0;
    assert forall|i: int| 0 <= i < cs.len() implies roles.contains(#[trigger] cs[i].role) by {
        assert(spec_class_of(rows[i]@) == Ok::<Class, DbError>(cs[i]));
        assert(rows[i]@[2] is Text);
        let j = choose|j: int| 0 <= j < values.len() && (#[trigger] values[j])@ == rows[i]@[2]->Text_0@;
        lemma_identifier_round_trip(rows[i]@, 2, roles[j]);
        assert(cs[i].role == roles[j]);
    }
}

proof fn lemma_pattern_without_nul(term: Seq<char>)
    requires
        !term.contains('\0'),
    ensures
        !spec_like_pattern(term).contains('\0'),
{
    let p = spec_like_pattern(term);
    if p.contains('\0') {
        let k = choose|k: int| 0 <= k < p.len() && p[k] == '\0';
        assert(term[k - 1] == '\0');
    }
}

/// Where every row of `rows` holding a role as text holds the decimal text
/// of one of `roles`.
pub open spec fn role_among_ids(rows: Seq<Vec<Cell>>, roles: Seq<u64>) -> bool {
    forall|i: int|
        0 <= i < rows.len() && (#[trigger] rows[i])@[2] is Text ==> exists|j: int|
            0 <= j < roles.len() && rows[i]@[2]->Text_0@ == decimal_of(#[trigger] roles[j] as nat)
}

/// A returned list of classes, or an error, as the spec readers speak of it.
pub open spec fn class_outcome(r: Result<Vec<Class>, DbError>) -> Result<Seq<Class>, DbError> {
    match r {
        Ok(v) => Ok(v@),
        Err(e) => Err(e),
    }
}

/// A returned list of groups, or an error, as the spec readers speak of it.
pub open spec fn group_outcome(r: Result<Vec<Group>, DbError>) -> Result<Seq<Group>, DbError> {
    match r {
        Ok(v) => Ok(v@),
        Err(e) => Err(e),
    }
}

proof fn lemma_role_among_ids(rows: Seq<Vec<Cell>>, values: Seq<String>, roles: Seq<u64>)
    requires
        role_among(rows, values),
        values.len() == roles.len(),
        forall|j: int| 0 <= j < roles.len() ==> #[trigger] values[j]@ == decimal_of(roles[j] as nat),
    ensures
        role_among_ids(rows, roles),
{
    assert forall|i: int| 0 <= i < rows.len() && (#[trigger] rows[i])@[2] is Text implies exists|j: int|
        0 <= j < roles.len() && rows[i]@[2]->Text_0@ == decimal_of(#[trigger] roles[j] as nat) by {
        let j = choose|j: int| 0 <= j < values.len() && (#[trigger] values[j])@ == rows[i]@[2]->Text_0@;
        assert(values[j]@ == decimal_of(roles[j] as nat));
    }
}

/// An open store. It owns its connection, and with it the cache of prepared
/// statements.
pub struct Database {
    connection: Connection,
    ran: Ghost<Seq<Seq<char>>>,
    loaded: Ghost<bool>,
}

impl Database {
    /// The statements that set up the connection, in the order they ran.
    pub closed spec fn setup(&self) -> Seq<Seq<char>> {
        self.ran@
    }

    /// Whether `rarray` was registered on the connection.
    pub closed spec fn rarray_loaded(&self) -> bool {
        self.loaded@
    }

    /// Opens (or creates) the store at `path`, enforces foreign keys, loads
    /// the `rarray` function and creates both tables where they are missing.
    /// Rows already in the store are left as they are. Only the store itself
    /// can refuse.
    pub fn open(path: &str) -> (r: Result<Database, DbError>)
        ensures
            r matches Err(e) ==> e is Store,
            r matches Ok(db) ==> db.setup() == seq![ENABLE_FOREIGN_KEYS@, SCHEMA_GROUP@, SCHEMA_CLASS@]
                && db.rarray_loaded(),
    {
        let connection = match open_connection(path) {
            Ok(c) => c,
            Err(e) => return Err(DbError::Store(e)),
        };
        let ghost mut ran: Seq<Seq<char>> = Seq::empty();
        if let Err(e) = execute_batch(&connection, ENABLE_FOREIGN_KEYS) {
            return Err(DbError::Store(e));
        }
        proof {
            ran = ran.push(ENABLE_FOREIGN_KEYS@);
        }
        if let Err(e) = load_array_module(&connection) {
            return Err(DbError::Store(e));
        }
        let ghost loaded = true;
        if let Err(e) = execute_batch(&connection, SCHEMA_GROUP) {
            return Err(DbError::Store(e));
        }
        proof {
            ran = ran.push(SCHEMA_GROUP@);
        }
        if let Err(e) = execute_batch(&connection, SCHEMA_CLASS) {
            return Err(DbError::Store(e));
        }
        proof {
            ran = ran.push(SCHEMA_CLASS@);
        }
        assert(ran =~= seq![ENABLE_FOREIGN_KEYS@, SCHEMA_GROUP@, SCHEMA_CLASS@]);
        Ok(Database { connection, ran: Ghost(ran), loaded: Ghost(loaded) })
    }

    /// Every class, in id order, each with its group where it has
    /// one.
    pub fn get_all_classes(&self) -> (r: Result<Vec<Class>, DbError>)
        ensures
            !(r matches Err(DbError::InvalidColumnIndex(_))),
            r matches Ok(v) ==> class_ids_ordered(v@),
            !(r matches Err(DbError::Store(_))) ==> exists|rows: Seq<Vec<Cell>>|
                #![trigger spec_classes_of(rows)]
                all_of_width(rows, 8) && ids_ordered(rows) && spec_classes_of(rows) == class_outcome(r),
    {
        match all_class_rows(&self.connection) {
            Err(e) => Err(DbError::Store(e)),
            Ok(rows) => {
                let r = classes_from_rows(&rows);
                proof {
                    lemma_classes_full_width(rows@);
                    if r is Ok {
                        lemma_classes_ordered(rows@);
                    }
                }
                assert(all_of_width(rows@, 8) && ids_ordered(rows@) && spec_classes_of(rows@) == class_outcome(r));
                r
            },
        }
    }

    /// The classes whose name holds `search_term`, ignoring ASCII case, in
    /// id order. `%` and `_` in the term act as wildcards.
    pub fn search_classes(&self, search_term: &str) -> (r: Result<Vec<Class>, DbError>)
        ensures
            !(r matches Err(DbError::InvalidColumnIndex(_))),
            r matches Ok(v) ==> class_ids_ordered(v@),
            r matches Ok(v) ==> (!search_term@.contains('\0') ==> class_names_like(
                v@,
                spec_like_pattern(search_term@),
            )),
            !(r matches Err(DbError::Store(_))) ==> exists|rows: Seq<Vec<Cell>>|
                #![trigger spec_classes_of(rows)]
                all_of_width(rows, 8) && ids_ordered(rows) && (!search_term@.contains('\0') ==> column_like(
                    rows,
                    1,
                    spec_like_pattern(search_term@),
                )) && spec_classes_of(rows) == class_outcome(r),
    {
        let pattern = like_pattern(search_term);
        match search_class_rows(&self.connection, pattern.as_str()) {
            Err(e) => Err(DbError::Store(e)),
            Ok(rows) => {
                let r = classes_from_rows(&rows);
                proof {
                    lemma_classes_full_width(rows@);
                    if !search_term@.contains('\0') {
                        lemma_pattern_without_nul(search_term@);
                    }
                    if r is Ok {
                        lemma_classes_ordered(rows@);
                        if !search_term@.contains('\0') {
                            lemma_pattern_without_nul(search_term@);
                            lemma_class_names(rows@, pattern@);
                        }
                    }
                }
                assert(all_of_width(rows@, 8) && ids_ordered(rows@) && (!search_term@.contains('\0') ==> column_like(rows@, 1, spec_like_pattern(search_term@))) && spec_classes_of(rows@) == class_outcome(r));
                r
            },
        }
    }

    /// The classes whose role is one of `roles`, in id order.
    pub fn filter_classes_by_roles(&self, roles: &[u64]) -> (r: Result<Vec<Class>, DbError>)
        ensures
            !(r matches Err(DbError::InvalidColumnIndex(_))),
            r matches Ok(v) ==> class_ids_ordered(v@),
            r matches Ok(v) ==> forall|i: int| 0 <= i < v@.len() ==> roles@.contains(#[trigger] v@[i].role),
            !(r matches Err(DbError::Store(_))) ==> exists|rows: Seq<Vec<Cell>>|
                #![trigger spec_classes_of(rows)]
                all_of_width(rows, 8) && ids_ordered(rows) && role_among_ids(rows, roles@) && spec_classes_of(rows) == class_outcome(r),
    {
        let values = role_texts(roles);
        match role_class_rows(&self.connection, &values) {
            Err(e) => Err(DbError::Store(e)),
            Ok(rows) => {
                let r = classes_from_rows(&rows);
                proof {
                    lemma_classes_full_width(rows@);
                    lemma_role_among_ids(rows@, values@, roles@);
                    if r is Ok {
                        lemma_classes_ordered(rows@);
                        lemma_class_roles(rows@, values@, roles@);
                    }
                }
                assert(all_of_width(rows@, 8) && ids_ordered(rows@) && role_among_ids(rows@, roles@) && spec_classes_of(rows@) == class_outcome(r));
                r
            },
        }
    }

    /// Every group, in id order.
    pub fn get_all_groups(&self) -> (r: Result<Vec<Group>, DbError>)
        ensures
            !(r matches Err(DbError::InvalidColumnIndex(_))),
            r matches Ok(v) ==> group_ids_ordered(v@),
            !(r matches Err(DbError::Store(_))) ==> exists|rows: Seq<Vec<Cell>>|
                #![trigger spec_groups_of(rows)]
                all_of_width(rows, 4) && ids_ordered(rows) && spec_groups_of(rows) == group_outcome(r),
    {
        match all_group_rows(&self.connection) {
            Err(e) => Err(DbError::Store(e)),
            Ok(rows) => {
                let r = groups_from_rows(&rows);
                proof {
                    lemma_groups_full_width(rows@);
                    if r is Ok {
                        lemma_groups_ordered(rows@);
                    }
                }
                assert(all_of_width(rows@, 4) && ids_ordered(rows@) && spec_groups_of(rows@) == group_outcome(r));
                r
            },
        }
    }

    /// The groups whose name holds `search_term`, ignoring ASCII case, in
    /// id order. `%` and `_` in the term act as wildcards.
    pub fn search_groups(&self, search_term: &str) -> (r: Result<Vec<Group>, DbError>)
        ensures
            !(r matches Err(DbError::InvalidColumnIndex(_))),
            r matches Ok(v) ==> group_ids_ordered(v@),
            r matches Ok(v) ==> (!search_term@.contains('\0') ==> group_names_like(
                v@,
                spec_like_pattern(search_term@),
            )),
            !(r matches Err(DbError::Store(_))) ==> exists|rows: Seq<Vec<Cell>>|
                #![trigger spec_groups_of(rows)]
                all_of_width(rows, 4) && ids_ordered(rows) && (!search_term@.contains('\0') ==> column_like(
                    rows,
                    1,
                    spec_like_pattern(search_term@),
                )) && spec_groups_of(rows) == group_outcome(r),
    {
        let pattern = like_pattern(search_term);
        match search_group_rows(&self.connection, pattern.as_str()) {
            Err(e) => Err(DbError::Store(e)),
            Ok(rows) => {
                let r = groups_from_rows(&rows);
                proof {
                    lemma_groups_full_width(rows@);
                    if !search_term@.contains('\0') {
                        lemma_pattern_without_nul(search_term@);
                    }
                    if r is Ok {
                        lemma_groups_ordered(rows@);
                        if !search_term@.contains('\0') {
                            lemma_pattern_without_nul(search_term@);
                            lemma_group_names(rows@, pattern@);
                        }
                    }
                }
                assert(all_of_width(rows@, 4) && ids_ordered(rows@) && (!search_term@.contains('\0') ==> column_like(rows@, 1, spec_like_pattern(search_term@))) && spec_groups_of(rows@) == group_outcome(r));
                r
            },
        }
    }
}

} // verus!
