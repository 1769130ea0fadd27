use vstd::prelude::*;

verus! {

/// A repository registered as a sync target; keyed by (owner, name).
#[derive(Debug)]
pub struct Repo {
    pub owner_name: String,
    pub name: String,
}

/// The author of issues; keyed by id.
#[derive(Debug)]
pub struct User {
    pub id: u64,
    pub login: String,
}

/// A label that issues may carry; keyed by id.
#[derive(Debug)]
pub struct Label {
    pub id: u64,
    pub name: String,
    pub description: Option<String>,
}

/// The association of one issue with one label.
#[derive(Clone, Copy, Debug, PartialEq, Eq, Structural)]
pub struct IssueLabelLink {
    pub issue_id: u64,
    pub label_id: u64,
}

/// An issue as the remote service reports it, with its author and labels
/// embedded. `created_at` is in seconds since the Unix epoch, UTC.
#[derive(Debug)]
pub struct Issue {
    pub id: u64,
    pub number: u64,
    pub title: String,
    pub state: String,
    pub repo_name: String,
    pub user: User,
    pub labels: Vec<Label>,
    pub created_at: i64,
}

/// The columns of the `issues` table: an issue refers to its author by id,
/// and its labels live in the association table.
#[derive(Debug)]
pub struct IssueRow {
    pub id: u64,
    pub number: u64,
    pub title: String,
    pub state: String,
    pub repo_name: String,
    pub user_id: u64,
    pub created_at: i64,
}

/// `owner/name`, the form in which issues refer to their repository.
pub open spec fn full_name_of(owner: Seq<char>, name: Seq<char>) -> Seq<char> {
    owner + seq!['/'] + name
}

impl Repo {
    pub fn new(owner_name: String, name: String) -> (r: Repo)
        ensures
            r.owner_name == owner_name,
            r.name == name,
    {
        Repo { owner_name, name }
    }

    pub fn full_name(&self) -> (r: String)
        ensures
            r@ == full_name_of(self.owner_name@, self.name@),
    {
        let mut r = self.owner_name.clone();
        r.append("/");
        r.append(self.name.as_str());
        proof {
            reveal_strlit("/");
            assert(r@ =~= full_name_of(self.owner_name@, self.name@));
        }
        r
    }

    pub fn copy(&self) -> (r: Repo)
        ensures
            r == *self,
    {
        Repo { owner_name: self.owner_name.clone(), name: self.name.clone() }
    }
}

impl User {
    pub fn copy(&self) -> (r: User)
        ensures
            r == *self,
    {
        User { id: self.id, login: self.login.clone() }
    }
}

impl Label {
    pub fn copy(&self) -> (r: Label)
        ensures
            r == *self,
    {
        let description = match &self.description {
            Some(d) => Some(d.clone()),
            None => None,
        };
        Label { id: self.id, name: self.name.clone(), description }
    }
}

impl IssueRow {
    pub fn copy(&self) -> (r: IssueRow)
        ensures
            r == *self,
    {
        IssueRow {
            id: self.id,
            number: self.number,
            title: self.title.clone(),
            state: self.state.clone(),
            repo_name: self.repo_name.clone(),
            user_id: self.user_id,
            created_at: self.created_at,
        }
    }
}

/// The `issues` row of an issue: its own columns and its author's id.
pub open spec fn row_of(i: Issue) -> IssueRow {
    IssueRow {
        id: i.id,
        number: i.number,
        title: i.title,
        state: i.state,
        repo_name: i.repo_name,
        user_id: i.user.id,
        created_at: i.created_at,
    }
}

/// The text of a string literal of the store: each quote doubled.
pub open spec fn escaped(s: Seq<char>) -> Seq<char>
    decreases s.len(),
{
    if s.len() == 0 {
        Seq::empty()
    } else {
        let last = s.last();
        escaped(s.drop_last()) + if last == '\'' {
            seq!['\'', '\'']
        } else {
            seq![last]
        }
    }
}

/// The characters of `s`, in order.
pub(crate) fn chars_of(s: &str) -> (r: Vec<char>)
    ensures
        r@ == s@,
{
    let n = s.unicode_len();
    let mut out: Vec<char> = Vec::new();
    let mut i: usize = 0;
    while i < n
        invariant
            n == s@.len(),
            i <= n,
            out@ == s@.subrange(0, i as int),
        decreases n - i,
    {
        out.push(s.get_char(i));
        proof {
            assert(s@.subrange(0, i as int + 1) =~= s@.subrange(0, i as int).push(s@[i as int]));
        }
        i = i + 1;
    }
    proof {
        assert(s@.subrange(0, n as int) =~= s@);
    }
    out
}

/// Relies on `String::from_iter` over chars: the string of these characters, in order.
#[verifier::external_body]
fn string_of(v: Vec<char>) -> (r: String)
    ensures
        r@ == v@,
{
    String::from_iter(v)
}

/// Escapes `input` against the store's quoting convention, so that it can
/// stand between single quotes in a statement.
pub fn escape_sql_string(input: &str) -> (r: String)
    ensures
        r@ == escaped(input@),
{
    let cs = chars_of(input);
    let mut out: Vec<char> = Vec::new();
    let mut i: usize = 0;
    while i < cs.len()
        invariant
            cs@ == input@,
            i <= cs.len(),
            out@ == escaped(cs@.subrange(0, i as int)),
        decreases cs.len() - i,
    {
        let c = cs[i];
        out.push(c);
        if c == '\'' {
            out.push('\'');
        }
        proof {
            let pre = cs@.subrange(0, i as int + 1);
            assert(pre.drop_last() =~= cs@.subrange(0, i as int));
            assert(pre.last() == c);
            assert(out@ =~= escaped(pre));
        }
        i = i + 1;
    }
    proof {
        assert(cs@.subrange(0, cs.len() as int) =~= cs@);
    }
    string_of(out)
}

} // verus!
