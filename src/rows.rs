//! Typed reading of result rows. A group row is `[id, name, channel_group,
//! vc]`; a class row is `[id, name, role, channel]` followed by the four
//! columns of its group, all null where the class has none.
use vstd::prelude::*;

use crate::decimal::{asu64, decimal_of, lemma_parse_decimal_round_trip, parse_u64};
use crate::model::{Cell, Class, DbError, Group};

verus! {

/// The `u32` in column `i` of `row`.
pub open spec fn spec_u32_at(row: Seq<Cell>, i: int) -> Result<u32, DbError> {
    if i < 0 || i >= row.len() {
        Err(DbError::InvalidColumnIndex(i as usize))
    } else {
        match row[i] {
            Cell::Integer(v) => if 0 <= v <= u32::MAX {
                Ok(v as u32)
            } else {
                Err(DbError::IntegralValueOutOfRange(i as usize, v))
            },
            _ => Err(DbError::InvalidColumnType(i as usize)),
        }
    }
}

/// The text in column `i` of `row`.
pub open spec fn spec_text_at(row: Seq<Cell>, i: int) -> Result<String, DbError> {
    if i < 0 || i >= row.len() {
        Err(DbError::InvalidColumnIndex(i as usize))
    } else {
        match row[i] {
            Cell::Text(s) => Ok(s),
            _ => Err(DbError::InvalidColumnType(i as usize)),
        }
    }
}

/// The identifier whose decimal text is in column `i` of `row`.
pub open spec fn spec_id_at(row: Seq<Cell>, i: int) -> Result<u64, DbError> {
    match spec_text_at(row, i) {
        Err(e) => Err(e),
        Ok(s) => match parse_u64(s@) {
            Some(v) => Ok(v),
            None => Err(DbError::InvalidIdentifier(i as usize)),
        },
    }
}

/// The group in columns `b .. b + 4` of `row`; the first failing column, in
/// order, gives the error.
pub open spec fn spec_group_at(row: Seq<Cell>, b: int) -> Result<Group, DbError> {
    match spec_u32_at(row, b) {
        Err(e) => Err(e),
        Ok(id) => match spec_text_at(row, b + 1) {
            Err(e) => Err(e),
            Ok(name) => match spec_id_at(row, b + 2) {
                Err(e) => Err(e),
                Ok(channel_group) => match spec_id_at(row, b + 3) {
                    Err(e) => Err(e),
                    Ok(vc) => Ok(Group { id, name, channel_group, vc }),
                },
            },
        },
    }
}

/// The group of a class row: none where its group id column is null.
pub open spec fn spec_class_group(row: Seq<Cell>) -> Result<Option<Group>, DbError> {
    if 4 < row.len() && row[4] is Null {
        Ok(None)
    } else {
        match spec_group_at(row, 4) {
            Err(e) => Err(e),
            Ok(g) => Ok(Some(g)),
        }
    }
}

pub open spec fn spec_class_of(row: Seq<Cell>) -> Result<Class, DbError> {
    match spec_u32_at(row, 0) {
        Err(e) => Err(e),
        Ok(id) => match spec_text_at(row, 1) {
            Err(e) => Err(e),
            Ok(name) => match spec_id_at(row, 2) {
                Err(e) => Err(e),
                Ok(role) => match spec_id_at(row, 3) {
                    Err(e) => Err(e),
                    Ok(channel) => match spec_class_group(row) {
                        Err(e) => Err(e),
                        Ok(group) => Ok(Class { id, name, role, channel, group }),
                    },
                },
            },
        },
    }
}

/// The groups of `rows` in order, or the error of the first row that fails.
pub open spec fn spec_groups_of(rows: Seq<Vec<Cell>>) -> Result<Seq<Group>, DbError>
    decreases rows.len(),
{
    if rows.len() == 0 {
        Ok(Seq::empty())
    } else {
        match spec_groups_of(rows.drop_last()) {
            Err(e) => Err(e),
            Ok(gs) => match spec_group_at(rows.last()@, 0) {
                Err(e) => Err(e),
                Ok(g) => Ok(gs.push(g)),
            },
        }
    }
}

/// The classes of `rows` in order, or the error of the first row that fails.
pub open spec fn spec_classes_of(rows: Seq<Vec<Cell>>) -> Result<Seq<Class>, DbError>
    decreases rows.len(),
{
    if rows.len() == 0 {
        Ok(Seq::empty())
    } else {
        match spec_classes_of(rows.drop_last()) {
            Err(e) => Err(e),
            Ok(cs) => match spec_class_of(rows.last()@) {
                Err(e) => Err(e),
                Ok(c) => Ok(cs.push(c)),
            },
        }
    }
}

pub fn u32_at(row: &Vec<Cell>, i: usize) -> (r: Result<u32, DbError>)
    ensures
        r == spec_u32_at(row@, i as int),
{
    if i >= row.len() {
        return Err(DbError::InvalidColumnIndex(i));
    }
    match &row[i] {
        Cell::Integer(v) => if 0 <= *v && *v <= u32::MAX as i64 {
            Ok(*v as u32)
        } else {
            Err(DbError::IntegralValueOutOfRange(i, *v))
        },
        _ => Err(DbError::InvalidColumnType(i)),
    }
}

pub fn text_at(row: &Vec<Cell>, i: usize) -> (r: Result<String, DbError>)
    ensures
        r == spec_text_at(row@, i as int),
{
    if i >= row.len() {
        return Err(DbError::InvalidColumnIndex(i));
    }
    match &row[i] {
        Cell::Text(s) => Ok(s.clone()),
        _ => Err(DbError::InvalidColumnType(i)),
    }
}

pub fn id_at(row: &Vec<Cell>, i: usize) -> (r: Result<u64, DbError>)
    ensures
        r == spec_id_at(row@, i as int),
{
    if i >= row.len() {
        return Err(DbError::InvalidColumnIndex(i));
    }
    match &row[i] {
        Cell::Text(s) => match asu64(s.as_str()) {
            Some(v) => Ok(v),
            None => Err(DbError::InvalidIdentifier(i)),
        },
        _ => Err(DbError::InvalidColumnType(i)),
    }
}

/// Reads the group in columns `b .. b + 4` of `row`.
pub fn group_at(row: &Vec<Cell>, b: usize) -> (r: Result<Group, DbError>)
    requires
        b + 3 <= usize::MAX,
    ensures
        r == spec_group_at(row@, b as int),
{
    let id = match u32_at(row, b) {
        Ok(v) => v,
        Err(e) => return Err(e),
    };
    let name = match text_at(row, b + 1) {
        Ok(v) => v,
        Err(e) => return Err(e),
    };
    let channel_group = match id_at(row, b + 2) {
        Ok(v) => v,
        Err(e) => return Err(e),
    };
    let vc = match id_at(row, b + 3) {
        Ok(v) => v,
        Err(e) => return Err(e),
    };
    Ok(Group { id, name, channel_group, vc })
}

/// Reads a group row `[id, name, channel_group, vc]`.
pub fn group_from_row(row: &Vec<Cell>) -> (r: Result<Group, DbError>)
    ensures
        r == spec_group_at(row@, 0),
{
    group_at(row, 0)
}

/// Reads a class row: a null group id gives a class without a group;
/// otherwise the four group columns must all hold a group.
pub fn class_from_row(row: &Vec<Cell>) -> (r: Result<Class, DbError>)
    ensures
        r == spec_class_of(row@),
{
    let id = match u32_at(row, 0) {
        Ok(v) => v,
        Err(e) => return Err(e),
    };
    let name = match text_at(row, 1) {
        Ok(v) => v,
        Err(e) => return Err(e),
    };
    let role = match id_at(row, 2) {
        Ok(v) => v,
        Err(e) => return Err(e),
    };
    let channel = match id_at(row, 3) {
        Ok(v) => v,
        Err(e) => return Err(e),
    };
    let group = if row.len() > 4 && matches!(row[4], Cell::Null) {
        None
    } else {
        match group_at(row, 4) {
            Ok(g) => Some(g),
            Err(e) => return Err(e),
        }
    };
    Ok(Class { id, name, role, channel, group })
}

/// Reads every row as a group, in order; the first row that fails gives the
/// error.
pub fn groups_from_rows(rows: &Vec<Vec<Cell>>) -> (r: Result<Vec<Group>, DbError>)
    ensures
        match r {
            Ok(v) => spec_groups_of(rows@) == Ok::<Seq<Group>, DbError>(v@),
            Err(e) => spec_groups_of(rows@) == Err::<Seq<Group>, DbError>(e),
        },
{
    let mut out: Vec<Group> = Vec::new();
    let mut i: usize = 0;
    while i < rows.len()
        invariant
            i <= rows.len(),
            spec_groups_of(rows@.take(i as int)) == Ok::<Seq<Group>, DbError>(out@),
        decreases rows.len() - i,
    {
        assert(rows@.take(i + 1).drop_last() =~= rows@.take(i as int));
        match group_from_row(&rows[i]) {
            Ok(g) => out.push(g),
            Err(e) => {
                proof {
                    lemma_groups_err_extends(rows@, i as int + 1, e);
                }
                return Err(e);
            },
        }
        i = i + 1;
    }
    assert(rows@.take(i as int) =~= rows@);
    Ok(out)
}

/// Reads every row as a class, in order; the first row that fails gives the
/// error.
pub fn classes_from_rows(rows: &Vec<Vec<Cell>>) -> (r: Result<Vec<Class>, DbError>)
    ensures
        match r {
            Ok(v) => spec_classes_of(rows@) == Ok::<Seq<Class>, DbError>(v@),
            Err(e) => spec_classes_of(rows@) == Err::<Seq<Class>, DbError>(e),
        },
{
    let mut out: Vec<Class> = Vec::new();
    let mut i: usize = 0;
    while i < rows.len()
        invariant
            i <= rows.len(),
            spec_classes_of(rows@.take(i as int)) == Ok::<Seq<Class>, DbError>(out@),
        decreases rows.len() - i,
    {
        assert(rows@.take(i + 1).drop_last() =~= rows@.take(i as int));
        match class_from_row(&rows[i]) {
            Ok(c) => out.push(c),
            Err(e) => {
                proof {
                    lemma_classes_err_extends(rows@, i as int + 1, e);
                }
                return Err(e);
            },
        }
        i = i + 1;
    }
    assert(rows@.take(i as int) =~= rows@);
    Ok(out)
}

proof fn lemma_groups_err_extends(rows: Seq<Vec<Cell>>, k: int, e: DbError)
    requires
        0 <= k <= rows.len(),
        spec_groups_of(rows.take(k)) == Err::<Seq<Group>, DbError>(e),
    ensures
        spec_groups_of(rows) == Err::<Seq<Group>, DbError>(e),
    decreases rows.len() - k,
{
    if k < rows.len() {
        assert(rows.take(k + 1).drop_last() =~= rows.take(k));
        lemma_groups_err_extends(rows, k + 1, e);
    } else {
        assert(rows.take(k) =~= rows);
    }
}

proof fn lemma_classes_err_extends(rows: Seq<Vec<Cell>>, k: int, e: DbError)
    requires
        0 <= k <= rows.len(),
        spec_classes_of(rows.take(k)) == Err::<Seq<Class>, DbError>(e),
    ensures
        spec_classes_of(rows) == Err::<Seq<Class>, DbError>(e),
    decreases rows.len() - k,
{
    if k < rows.len() {
        assert(rows.take(k + 1).drop_last() =~= rows.take(k));
        lemma_classes_err_extends(rows, k + 1, e);
    } else {
        assert(rows.take(k) =~= rows);
    }
}

/// An identifier that the store keeps as its decimal text reads back as the
/// same 64-bit value.
pub proof fn lemma_identifier_round_trip(row: Seq<Cell>, i: int, x: u64)
    requires
        0 <= i < row.len(),
        row[i] matches Cell::Text(s) && s@ == decimal_of(x as nat),
    ensures
        spec_id_at(row, i) == Ok::<u64, DbError>(x),
{
    lemma_parse_decimal_round_trip(x);
}

/// A class row whose group id is null reads as a class without a group; any
/// other class row that reads at all carries exactly the group that its four
/// group columns hold.
pub proof fn lemma_class_join(row: Seq<Cell>)
    requires
        spec_class_of(row) is Ok,
    ensures
        row.len() > 4,
        row[4] is Null ==> spec_class_of(row)->Ok_0.group is None,
        !(row[4] is Null) ==> spec_group_at(row, 4) is Ok && spec_class_of(row)->Ok_0.group
            == Some(spec_group_at(row, 4)->Ok_0),
{
}

/// Column `i` holds the decimal text of `x`.
pub open spec fn holds_decimal(row: Seq<Cell>, i: int, x: u64) -> bool {
    row[i] matches Cell::Text(s) && s@ == decimal_of(x as nat)
}

/// Column `i` holds an integer that fits a `u32`.
pub open spec fn holds_u32(row: Seq<Cell>, i: int) -> bool {
    row[i] matches Cell::Integer(v) && 0 <= v <= u32::MAX
}

/// A joined class row whose class columns and group columns are well
/// formed reads as that class with that group embedded, field for field.
pub proof fn lemma_class_row_with_group(
    row: Seq<Cell>,
    role: u64,
    channel: u64,
    channel_group: u64,
    vc: u64,
)
    requires
        row.len() == 8,
        holds_u32(row, 0),
        row[1] is Text,
        holds_decimal(row, 2, role),
        holds_decimal(row, 3, channel),
        holds_u32(row, 4),
        row[5] is Text,
        holds_decimal(row, 6, channel_group),
        holds_decimal(row, 7, vc),
    ensures
        spec_class_of(row) == Ok::<Class, DbError>(
            Class {
                id: row[0]->Integer_0 as u32,
                name: row[1]->Text_0,
                role,
                channel,
                group: Some(
                    Group {
                        id: row[4]->Integer_0 as u32,
                        name: row[5]->Text_0,
                        channel_group,
                        vc,
                    },
                ),
            },
        ),
{
    lemma_identifier_round_trip(row, 2, role);
    lemma_identifier_round_trip(row, 3, channel);
    lemma_identifier_round_trip(row, 6, channel_group);
    lemma_identifier_round_trip(row, 7, vc);
}

/// A joined class row whose class columns are well formed and whose group
/// id is null reads as that class without a group.
pub proof fn lemma_class_row_without_group(row: Seq<Cell>, role: u64, channel: u64)
    requires
        row.len() == 8,
        holds_u32(row, 0),
        row[1] is Text,
        holds_decimal(row, 2, role),
        holds_decimal(row, 3, channel),
        row[4] is Null,
    ensures
        spec_class_of(row) == Ok::<Class, DbError>(
            Class { id: row[0]->Integer_0 as u32, name: row[1]->Text_0, role, channel, group: None },
        ),
{
    lemma_identifier_round_trip(row, 2, role);
    lemma_identifier_round_trip(row, 3, channel);
}

/// Rows of four cells, read as groups, never give a column-index error.
pub proof fn lemma_groups_full_width(rows: Seq<Vec<Cell>>)
    requires
        forall|i: int| 0 <= i < rows.len() ==> (#[trigger] rows[i])@.len() == 4,
    ensures
        !(spec_groups_of(rows) matches Err(DbError::InvalidColumnIndex(_))),
    decreases rows.len(),
{
    if rows.len() > 0 {
        lemma_groups_full_width(rows.drop_last());
        assert(rows.last() == rows[rows.len() - 1]);
    }
}

/// Rows of eight cells, read as classes, never give a column-index error.
pub proof fn lemma_classes_full_width(rows: Seq<Vec<Cell>>)
    requires
        forall|i: int| 0 <= i < rows.len() ==> (#[trigger] rows[i])@.len() == 8,
    ensures
        !(spec_classes_of(rows) matches Err(DbError::InvalidColumnIndex(_))),
    decreases rows.len(),
{
    if rows.len() > 0 {
        lemma_classes_full_width(rows.drop_last());
        assert(rows.last() == rows[rows.len() - 1]);
    }
}

/// A list of rows that reads as classes reads row by row: the class at
/// each position is what the row at that position reads as.
pub proof fn lemma_classes_elementwise(rows: Seq<Vec<Cell>>)
    requires
        spec_classes_of(rows) is Ok,
    ensures
        spec_classes_of(rows)->Ok_0.len() == rows.len(),
        forall|i: int|
            0 <= i < rows.len() ==> spec_class_of(rows[i]@) == Ok::<Class, DbError>(
                #[trigger] spec_classes_of(rows)->Ok_0[i],
            ),
    decreases rows.len(),
{
    if rows.len() > 0 {
        lemma_classes_elementwise(rows.drop_last());
        assert forall|i: int| 0 <= i < rows.len() implies spec_class_of(rows[i]@) == Ok::<
            Class,
            DbError,
        >(#[trigger] spec_classes_of(rows)->Ok_0[i]) by {
            if i < rows.len() - 1 {
                assert(rows.drop_last()[i] == rows[i]);
            }
        }
    }
}

/// A list of rows that reads as groups reads row by row: the group at each
/// position is what the row at that position reads as.
pub proof fn lemma_groups_elementwise(rows: Seq<Vec<Cell>>)
    requires
        spec_groups_of(rows) is Ok,
    ensures
        spec_groups_of(rows)->Ok_0.len() == rows.len(),
        forall|i: int|
            0 <= i < rows.len() ==> spec_group_at(rows[i]@, 0) == Ok::<Group, DbError>(
                #[trigger] spec_groups_of(rows)->Ok_0[i],
            ),
    decreases rows.len(),
{
    if rows.len() > 0 {
        lemma_groups_elementwise(rows.drop_last());
        assert forall|i: int| 0 <= i < rows.len() implies spec_group_at(rows[i]@, 0) == Ok::<
            Group,
            DbError,
        >(#[trigger] spec_groups_of(rows)->Ok_0[i]) by {
            if i < rows.len() - 1 {
                assert(rows.drop_last()[i] == rows[i]);
            }
        }
    }
}

} // verus!
