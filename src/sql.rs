use vstd::prelude::*;
use crate::entity::{IssueLabelLink, IssueRow, Label, Repo, User, escape_sql_string, escaped, full_name_of};

verus! {

/// The decimal digit of `d` (below ten).
pub open spec fn digit(d: nat) -> char {
    seq!['0', '1', '2', '3', '4', '5', '6', '7', '8', '9'][d as int]
}

/// The decimal digits of `n`, most significant first, with no sign or padding.
pub open spec fn dec(n: nat) -> Seq<char>
    decreases n,
{
    if n < 10 {
        seq![digit(n)]
    } else {
        dec(n / 10) + seq![digit(n % 10)]
    }
}

/// A string literal of the store: the escaped text between single quotes.
pub open spec fn quoted(s: Seq<char>) -> Seq<char> {
    "'"@ + escaped(s) + "'"@
}

/// The text that chrono's `%Y-%m-%d %H:%M:%S` gives for the UTC time `ts`.
pub uninterp spec fn utc_text(ts: int) -> Seq<char>;

/// Relies on the `Display` impl of `u64` (through `to_string`): its decimal digits.
#[verifier::external_body]
fn decimal(n: u64) -> (r: String)
    ensures
        r@ == dec(n as nat),
{
    n.to_string()
}

/// Relies on chrono's `DateTime::from_timestamp` and `format("%Y-%m-%d %H:%M:%S")`:
/// the UTC date and time of `ts`. `from_timestamp` gives `None` only outside
/// chrono's range of dates (years -262143 to 262142).
#[verifier::external_body]
fn utc_time_text(ts: i64) -> (r: Option<String>)
    ensures
        r matches Some(s) ==> s@ == utc_text(ts as int),
        -1_000_000_000_000 <= ts <= 1_000_000_000_000 ==> r is Some,
{
    match chrono::DateTime::from_timestamp(ts, 0) {
        Some(d) => Some(d.format("%Y-%m-%d %H:%M:%S").to_string()),
        None => None,
    }
}

fn push_quoted(s: &mut String, v: &str)
    ensures
        final(s)@ == old(s)@ + quoted(v@),
{
    s.append("'");
    let e = escape_sql_string(v);
    s.append(e.as_str());
    s.append("'");
    assert(final(s)@ =~= old(s)@ + quoted(v@));
}

fn push_decimal(s: &mut String, n: u64)
    ensures
        final(s)@ == old(s)@ + dec(n as nat),
{
    let d = decimal(n);
    s.append(d.as_str());
}

pub open spec fn repo_insert_text(r: Repo) -> Seq<char> {
    "insert overwrite repos values("@ + quoted(r.owner_name@) + ", "@ + quoted(r.name@) + ");"@
}

/// The statement that writes a repository row, replacing an equal one.
pub fn repo_insert_sql(r: &Repo) -> (s: String)
    ensures
        s@ == repo_insert_text(*r),
{
    let mut s = String::from_str("insert overwrite repos values(");
    push_quoted(&mut s, r.owner_name.as_str());
    s.append(", ");
    push_quoted(&mut s, r.name.as_str());
    s.append(");");
    assert(s@ =~= repo_insert_text(*r));
    s
}

pub open spec fn repo_delete_text(r: Repo) -> Seq<char> {
    "delete from repos where owner_name = "@ + quoted(r.owner_name@) + " and name = "@ + quoted(r.name@)
        + ";"@
}

/// The statement that deletes a repository row.
pub fn repo_delete_sql(r: &Repo) -> (s: String)
    ensures
        s@ == repo_delete_text(*r),
{
    let mut s = String::from_str("delete from repos where owner_name = ");
    push_quoted(&mut s, r.owner_name.as_str());
    s.append(" and name = ");
    push_quoted(&mut s, r.name.as_str());
    s.append(";");
    assert(s@ =~= repo_delete_text(*r));
    s
}

pub open spec fn repo_issues_delete_text(r: Repo) -> Seq<char> {
    "delete from issues where repo_name = "@ + quoted(full_name_of(r.owner_name@, r.name@)) + ";"@
}

/// The statement that deletes every issue of a repository, by its full name.
pub fn repo_issues_delete_sql(r: &Repo) -> (s: String)
    ensures
        s@ == repo_issues_delete_text(*r),
{
    let full = r.full_name();
    let mut s = String::from_str("delete from issues where repo_name = ");
    push_quoted(&mut s, full.as_str());
    s.append(";");
    assert(s@ =~= repo_issues_delete_text(*r));
    s
}

pub open spec fn user_insert_text(u: User) -> Seq<char> {
    "insert overwrite users values("@ + dec(u.id as nat) + ", "@ + quoted(u.login@) + ");"@
}

/// The statement that writes a user row, replacing the one with the same id.
pub fn user_insert_sql(u: &User) -> (s: String)
    ensures
        s@ == user_insert_text(*u),
{
    let mut s = String::from_str("insert overwrite users values(");
    push_decimal(&mut s, u.id);
    s.append(", ");
    push_quoted(&mut s, u.login.as_str());
    s.append(");");
    assert(s@ =~= user_insert_text(*u));
    s
}

pub open spec fn label_insert_text(l: Label) -> Seq<char> {
    "insert overwrite labels values("@ + dec(l.id as nat) + ", "@ + quoted(l.name@) + ", "@ + match l.description {
        Some(d) => quoted(d@),
        None => "null"@,
    } + ");"@
}

/// The statement that writes a label row, replacing the one with the same
/// id; a missing description is stored as null.
pub fn label_insert_sql(l: &Label) -> (s: String)
    ensures
        s@ == label_insert_text(*l),
{
    let mut s = String::from_str("insert overwrite labels values(");
    push_decimal(&mut s, l.id);
    s.append(", ");
    push_quoted(&mut s, l.name.as_str());
    s.append(", ");
    match &l.description {
        Some(d) => push_quoted(&mut s, d.as_str()),
        None => s.append("null"),
    }
    s.append(");");
    assert(s@ =~= label_insert_text(*l));
    s
}

pub open spec fn link_insert_text(l: IssueLabelLink) -> Seq<char> {
    "insert overwrite issue_labels values("@ + dec(l.issue_id as nat) + ", "@ + dec(l.label_id as nat)
        + ");"@
}

/// The statement that writes an association row.
pub fn link_insert_sql(l: IssueLabelLink) -> (s: String)
    ensures
        s@ == link_insert_text(l),
{
    let mut s = String::from_str("insert overwrite issue_labels values(");
    push_decimal(&mut s, l.issue_id);
    s.append(", ");
    push_decimal(&mut s, l.label_id);
    s.append(");");
    assert(s@ =~= link_insert_text(l));
    s
}

pub open spec fn issue_insert_text(r: IssueRow, created: Seq<char>) -> Seq<char> {
    "insert overwrite issues values("@ + dec(r.id as nat) + ", "@ + dec(r.number as nat) + ", "@ + quoted(
        r.title@,
    ) + ", "@ + quoted(r.state@) + ", "@ + quoted(r.repo_name@) + ", "@ + dec(r.user_id as nat) + ", "@
        + quoted(created) + ");"@
}

/// The statement that writes an issue row, with its creation time already
/// rendered as `created`.
pub fn issue_insert_sql_at(r: &IssueRow, created: &str) -> (s: String)
    ensures
        s@ == issue_insert_text(*r, created@),
{
    let mut s = String::from_str("insert overwrite issues values(");
    push_decimal(&mut s, r.id);
    s.append(", ");
    push_decimal(&mut s, r.number);
    s.append(", ");
    push_quoted(&mut s, r.title.as_str());
    s.append(", ");
    push_quoted(&mut s, r.state.as_str());
    s.append(", ");
    push_quoted(&mut s, r.repo_name.as_str());
    s.append(", ");
    push_decimal(&mut s, r.user_id);
    s.append(", ");
    push_quoted(&mut s, created);
    s.append(");");
    assert(s@ =~= issue_insert_text(*r, created@));
    s
}

/// The statement that writes an issue row, its creation time in the store's
/// second-resolution UTC layout; `None` only for a time outside the calendar.
pub fn issue_insert_sql(r: &IssueRow) -> (s: Option<String>)
    ensures
        s matches Some(t) ==> t@ == issue_insert_text(*r, utc_text(r.created_at as int)),
        -1_000_000_000_000 <= r.created_at <= 1_000_000_000_000 ==> s is Some,
{
    match utc_time_text(r.created_at) {
        Some(created) => Some(issue_insert_sql_at(r, created.as_str())),
        None => None,
    }
}

pub open spec fn issue_delete_text(id: u64) -> Seq<char> {
    "delete from issues where id = "@ + dec(id as nat) + ";"@
}

pub open spec fn issue_links_delete_text(id: u64) -> Seq<char> {
    "delete from issue_labels where issue_id = "@ + dec(id as nat) + ";"@
}

/// The two statements that delete an issue row and its association rows.
pub fn issue_delete_sql(id: u64) -> (r: (String, String))
    ensures
        r.0@ == issue_delete_text(id),
        r.1@ == issue_links_delete_text(id),
{
    let mut a = String::from_str("delete from issues where id = ");
    push_decimal(&mut a, id);
    a.append(";");
    let mut b = String::from_str("delete from issue_labels where issue_id = ");
    push_decimal(&mut b, id);
    b.append(";");
    (a, b)
}

} // verus!
