use vstd::prelude::*;
use crate::entity::{IssueLabelLink, IssueRow, Label, Repo, User};
use crate::error::HunterError;

verus! {

/// A value of a stored column; timestamps are seconds since the Unix epoch, UTC.
#[derive(Debug)]
pub enum Value {
    Null,
    UInt(u64),
    Text(String),
    Time(i64),
}

/// A row of a query result: the column names of its schema, and a value for each.
#[derive(Debug)]
pub struct Tuple {
    pub columns: Vec<String>,
    pub values: Vec<Value>,
}

/// The position of the first column named `name`, searching from `i`.
pub open spec fn column_from(cols: Seq<String>, name: Seq<char>, i: int) -> Option<int>
    decreases cols.len() - i,
{
    if i < 0 || i >= cols.len() {
        None
    } else if cols[i]@ == name {
        Some(i)
    } else {
        column_from(cols, name, i + 1)
    }
}

/// The value of the column named `name`, if the schema has it and the row reaches it.
pub open spec fn cell(t: Tuple, name: Seq<char>) -> Option<Value> {
    match column_from(t.columns@, name, 0) {
        Some(i) => if i < t.values@.len() {
            Some(t.values@[i])
        } else {
            None
        },
        None => None,
    }
}

pub open spec fn uint_cell(t: Tuple, name: Seq<char>) -> Option<u64> {
    match cell(t, name) {
        Some(Value::UInt(x)) => Some(x),
        _ => None,
    }
}

pub open spec fn text_cell(t: Tuple, name: Seq<char>) -> Option<Seq<char>> {
    match cell(t, name) {
        Some(Value::Text(s)) => Some(s@),
        _ => None,
    }
}

pub open spec fn time_cell(t: Tuple, name: Seq<char>) -> Option<i64> {
    match cell(t, name) {
        Some(Value::Time(x)) => Some(x),
        _ => None,
    }
}

/// A nullable text column: `Some(None)` for null, `None` where the column is
/// missing or holds another type.
pub open spec fn nullable_text_cell(t: Tuple, name: Seq<char>) -> Option<Option<Seq<char>>> {
    match cell(t, name) {
        Some(Value::Null) => Some(None),
        Some(Value::Text(s)) => Some(Some(s@)),
        _ => None,
    }
}

fn find_column(t: &Tuple, name: &str) -> (r: Option<usize>)
    ensures
        match column_from(t.columns@, name@, 0) {
            Some(i) => i < t.values@.len() ==> r == Some(i as usize),
            None => r is None,
        },
        r matches Some(i) ==> i < t.values@.len() && column_from(t.columns@, name@, 0) == Some(
            i as int,
        ),
{
    let key = String::from_str(name);
    let mut i: usize = 0;
    while i < t.columns.len()
        invariant
            i <= t.columns.len(),
            key@ == name@,
            column_from(t.columns@, name@, 0) == column_from(t.columns@, name@, i as int),
        decreases t.columns.len() - i,
    {
        if t.columns[i] == key {
            if i < t.values.len() {
                return Some(i);
            } else {
                return None;
            }
        }
        i = i + 1;
    }
    None
}

fn get_uint(t: &Tuple, name: &str) -> (r: Result<u64, HunterError>)
    ensures
        match uint_cell(*t, name@) {
            Some(x) => r == Ok::<u64, HunterError>(x),
            None => r == Err::<u64, HunterError>(HunterError::Mapping),
        },
{
    match find_column(t, name) {
        Some(i) => match &t.values[i] {
            Value::UInt(x) => Ok(*x),
            _ => Err(HunterError::Mapping),
        },
        None => Err(HunterError::Mapping),
    }
}

fn get_text(t: &Tuple, name: &str) -> (r: Result<String, HunterError>)
    ensures
        match text_cell(*t, name@) {
            Some(s) => r matches Ok(v) && v@ == s,
            None => r == Err::<String, HunterError>(HunterError::Mapping),
        },
{
    match find_column(t, name) {
        Some(i) => match &t.values[i] {
            Value::Text(s) => Ok(s.clone()),
            _ => Err(HunterError::Mapping),
        },
        None => Err(HunterError::Mapping),
    }
}

fn get_time(t: &Tuple, name: &str) -> (r: Result<i64, HunterError>)
    ensures
        match time_cell(*t, name@) {
            Some(x) => r == Ok::<i64, HunterError>(x),
            None => r == Err::<i64, HunterError>(HunterError::Mapping),
        },
{
    match find_column(t, name) {
        Some(i) => match &t.values[i] {
            Value::Time(x) => Ok(*x),
            _ => Err(HunterError::Mapping),
        },
        None => Err(HunterError::Mapping),
    }
}

fn get_nullable_text(t: &Tuple, name: &str) -> (r: Result<Option<String>, HunterError>)
    ensures
        match nullable_text_cell(*t, name@) {
            Some(None) => r == Ok::<Option<String>, HunterError>(None),
            Some(Some(s)) => r matches Ok(Some(v)) && v@ == s,
            None => r == Err::<Option<String>, HunterError>(HunterError::Mapping),
        },
{
    match find_column(t, name) {
        Some(i) => match &t.values[i] {
            Value::Null => Ok(None),
            Value::Text(s) => Ok(Some(s.clone())),
            _ => Err(HunterError::Mapping),
        },
        None => Err(HunterError::Mapping),
    }
}

/// Reads a `users` row by column name.
pub fn user_from_tuple(t: &Tuple) -> (r: Result<User, HunterError>)
    ensures
        r is Ok <==> (uint_cell(*t, "id"@) is Some && text_cell(*t, "login"@) is Some),
        r is Err ==> r == Err::<User, HunterError>(HunterError::Mapping),
        r matches Ok(u) ==> Some(u.id) == uint_cell(*t, "id"@) && Some(u.login@) == text_cell(
            *t,
            "login"@,
        ),
{
    let id = get_uint(t, "id")?;
    let login = get_text(t, "login")?;
    Ok(User { id, login })
}

/// Reads a `labels` row by column name; a null description is none.
pub fn label_from_tuple(t: &Tuple) -> (r: Result<Label, HunterError>)
    ensures
        r is Ok <==> (uint_cell(*t, "id"@) is Some && text_cell(*t, "name"@) is Some
            && nullable_text_cell(*t, "description"@) is Some),
        r is Err ==> r == Err::<Label, HunterError>(HunterError::Mapping),
        r matches Ok(l) ==> Some(l.id) == uint_cell(*t, "id"@) && Some(l.name@) == text_cell(
            *t,
            "name"@,
        ) && nullable_text_cell(*t, "description"@) == Some(
            match l.description {
                None => None::<Seq<char>>,
                Some(d) => Some(d@),
            },
        ),
{
    let id = get_uint(t, "id")?;
    let name = get_text(t, "name")?;
    let description = get_nullable_text(t, "description")?;
    Ok(Label { id, name, description })
}

/// Reads a `repos` row by column name.
pub fn repo_from_tuple(t: &Tuple) -> (r: Result<Repo, HunterError>)
    ensures
        r is Ok <==> (text_cell(*t, "owner_name"@) is Some && text_cell(*t, "name"@) is Some),
        r is Err ==> r == Err::<Repo, HunterError>(HunterError::Mapping),
        r matches Ok(p) ==> Some(p.owner_name@) == text_cell(*t, "owner_name"@) && Some(p.name@)
            == text_cell(*t, "name"@),
{
    let owner_name = get_text(t, "owner_name")?;
    let name = get_text(t, "name")?;
    Ok(Repo { owner_name, name })
}

/// Reads an `issues` row by column name.
pub fn issue_row_from_tuple(t: &Tuple) -> (r: Result<IssueRow, HunterError>)
    ensures
        r is Ok <==> (uint_cell(*t, "id"@) is Some && uint_cell(*t, "number"@) is Some && text_cell(
            *t,
            "title"@,
        ) is Some && text_cell(*t, "state"@) is Some && text_cell(*t, "repo_name"@) is Some
            && uint_cell(*t, "user_id"@) is Some && time_cell(*t, "created_at"@) is Some),
        r is Err ==> r == Err::<IssueRow, HunterError>(HunterError::Mapping),
        r matches Ok(row) ==> {
            &&& Some(row.id) == uint_cell(*t, "id"@)
            &&& Some(row.number) == uint_cell(*t, "number"@)
            &&& Some(row.title@) == text_cell(*t, "title"@)
            &&& Some(row.state@) == text_cell(*t, "state"@)
            &&& Some(row.repo_name@) == text_cell(*t, "repo_name"@)
            &&& Some(row.user_id) == uint_cell(*t, "user_id"@)
            &&& Some(row.created_at) == time_cell(*t, "created_at"@)
        },
{
    let id = get_uint(t, "id")?;
    let number = get_uint(t, "number")?;
    let title = get_text(t, "title")?;
    let state = get_text(t, "state")?;
    let repo_name = get_text(t, "repo_name")?;
    let user_id = get_uint(t, "user_id")?;
    let created_at = get_time(t, "created_at")?;
    Ok(IssueRow { id, number, title, state, repo_name, user_id, created_at })
}

/// Reads an `issue_labels` row by column name.
pub fn link_from_tuple(t: &Tuple) -> (r: Result<IssueLabelLink, HunterError>)
    ensures
        r is Ok <==> (uint_cell(*t, "issue_id"@) is Some && uint_cell(*t, "label_id"@) is Some),
        r is Err ==> r == Err::<IssueLabelLink, HunterError>(HunterError::Mapping),
        r matches Ok(l) ==> Some(l.issue_id) == uint_cell(*t, "issue_id"@) && Some(l.label_id)
            == uint_cell(*t, "label_id"@),
{
    let issue_id = get_uint(t, "issue_id")?;
    let label_id = get_uint(t, "label_id")?;
    Ok(IssueLabelLink { issue_id, label_id })
}

} // verus!
