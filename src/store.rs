use vstd::prelude::*;
use crate::entity::{
    Issue, IssueLabelLink, IssueRow, Label, Repo, User, chars_of, full_name_of, row_of,
};
use crate::error::HunterError;
use crate::pattern::{like, like_match};
use crate::sync::{SyncState, watermark, goes_on};

verus! {

/// No two rows share an id.
pub open spec fn ids_unique(s: Seq<IssueRow>) -> bool {
    forall|i: int, j: int|
        0 <= i < s.len() && 0 <= j < s.len() && #[trigger] s[i].id == #[trigger] s[j].id ==> i == j
}

pub open spec fn user_ids_unique(s: Seq<User>) -> bool {
    forall|i: int, j: int|
        0 <= i < s.len() && 0 <= j < s.len() && #[trigger] s[i].id == #[trigger] s[j].id ==> i == j
}

pub open spec fn label_ids_unique(s: Seq<Label>) -> bool {
    forall|i: int, j: int|
        0 <= i < s.len() && 0 <= j < s.len() && #[trigger] s[i].id == #[trigger] s[j].id ==> i == j
}

pub open spec fn links_unique(s: Seq<IssueLabelLink>) -> bool {
    forall|i: int, j: int| 0 <= i < s.len() && 0 <= j < s.len() && #[trigger] s[i] == #[trigger] s[j] ==> i == j
}

pub open spec fn repos_unique(s: Seq<Repo>) -> bool {
    forall|i: int, j: int|
        0 <= i < s.len() && 0 <= j < s.len() && #[trigger] s[i].owner_name@ == #[trigger] s[j].owner_name@
            && s[i].name@ == s[j].name@ ==> i == j
}

/// The issues table after writing `r`: a row with the same id is replaced in
/// place, else `r` is appended.
pub open spec fn upsert_issue_row(s: Seq<IssueRow>, r: IssueRow) -> Seq<IssueRow> {
    if exists|i: int| 0 <= i < s.len() && s[i].id == r.id {
        s.update(choose|i: int| 0 <= i < s.len() && s[i].id == r.id, r)
    } else {
        s.push(r)
    }
}

pub open spec fn upsert_user_row(s: Seq<User>, r: User) -> Seq<User> {
    if exists|i: int| 0 <= i < s.len() && s[i].id == r.id {
        s.update(choose|i: int| 0 <= i < s.len() && s[i].id == r.id, r)
    } else {
        s.push(r)
    }
}

pub open spec fn upsert_label_row(s: Seq<Label>, r: Label) -> Seq<Label> {
    if exists|i: int| 0 <= i < s.len() && s[i].id == r.id {
        s.update(choose|i: int| 0 <= i < s.len() && s[i].id == r.id, r)
    } else {
        s.push(r)
    }
}

pub open spec fn upsert_link_row(s: Seq<IssueLabelLink>, r: IssueLabelLink) -> Seq<IssueLabelLink> {
    if s.contains(r) {
        s
    } else {
        s.push(r)
    }
}

pub open spec fn upsert_repo_row(s: Seq<Repo>, r: Repo) -> Seq<Repo> {
    if exists|i: int| 0 <= i < s.len() && s[i].owner_name@ == r.owner_name@ && s[i].name@ == r.name@ {
        s.update(
            choose|i: int| 0 <= i < s.len() && s[i].owner_name@ == r.owner_name@ && s[i].name@ == r.name@,
            r,
        )
    } else {
        s.push(r)
    }
}

/// The labels table after writing each of `ls`, in order.
pub open spec fn upsert_labels(s: Seq<Label>, ls: Seq<Label>) -> Seq<Label>
    decreases ls.len(),
{
    if ls.len() == 0 {
        s
    } else {
        upsert_label_row(upsert_labels(s, ls.drop_last()), ls.last())
    }
}

/// The association table after linking issue `issue_id` to each of `ls`, in order.
pub open spec fn upsert_links(s: Seq<IssueLabelLink>, issue_id: u64, ls: Seq<Label>) -> Seq<
    IssueLabelLink,
>
    decreases ls.len(),
{
    if ls.len() == 0 {
        s
    } else {
        upsert_link_row(
            upsert_links(s, issue_id, ls.drop_last()),
            IssueLabelLink { issue_id, label_id: ls.last().id },
        )
    }
}

pub open spec fn outside_repo(full: Seq<char>) -> spec_fn(IssueRow) -> bool {
    |r: IssueRow| r.repo_name@ != full
}

pub open spec fn not_repo(owner: Seq<char>, name: Seq<char>) -> spec_fn(Repo) -> bool {
    |r: Repo| !(r.owner_name@ == owner && r.name@ == name)
}

pub open spec fn issue_id_is_not(id: u64) -> spec_fn(IssueRow) -> bool {
    |r: IssueRow| r.id != id
}

pub open spec fn link_issue_is_not(id: u64) -> spec_fn(IssueLabelLink) -> bool {
    |r: IssueLabelLink| r.issue_id != id
}

/// The filters of an issue listing and the page of it to return (1-indexed).
pub struct IssueQuery {
    pub repo_name: Option<String>,
    pub created_after: Option<i64>,
    pub label_name: Option<String>,
    pub page: usize,
    pub page_size: usize,
}

/// The id of the first label, in table order, with the given name.
pub open spec fn label_named_from(ls: Seq<Label>, name: Seq<char>, i: int) -> Option<u64>
    decreases ls.len() - i,
{
    if i < 0 || i >= ls.len() {
        None
    } else if ls[i].name@ == name {
        Some(ls[i].id)
    } else {
        label_named_from(ls, name, i + 1)
    }
}

pub open spec fn label_named(ls: Seq<Label>, name: Seq<char>) -> Option<u64> {
    label_named_from(ls, name, 0)
}

/// Whether a row passes every filter that is set: its repository name
/// matches the pattern, it was created after the cutoff, it carries the label.
pub open spec fn selected(
    r: IssueRow,
    pattern: Option<Seq<char>>,
    after: Option<i64>,
    label: Option<u64>,
    links: Seq<IssueLabelLink>,
) -> bool {
    &&& match pattern {
        None => true,
        Some(p) => like(p, r.repo_name@),
    }
    &&& match after {
        None => true,
        Some(t) => r.created_at > t,
    }
    &&& match label {
        None => true,
        Some(l) => links.contains(IssueLabelLink { issue_id: r.id, label_id: l }),
    }
}

pub open spec fn selector(
    pattern: Option<Seq<char>>,
    after: Option<i64>,
    label: Option<u64>,
    links: Seq<IssueLabelLink>,
) -> spec_fn(IssueRow) -> bool {
    |r: IssueRow| selected(r, pattern, after, label, links)
}

/// The first position from `j` on whose row is older than `t`.
pub open spec fn slot_from(s: Seq<IssueRow>, t: i64, j: int) -> int
    decreases s.len() - j,
{
    if j < 0 || j >= s.len() || s[j].created_at < t {
        j
    } else {
        slot_from(s, t, j + 1)
    }
}

/// The rows in descending order of creation; rows created at the same time
/// keep their order.
pub open spec fn newest_first(s: Seq<IssueRow>) -> Seq<IssueRow>
    decreases s.len(),
{
    if s.len() == 0 {
        s
    } else {
        let rest = newest_first(s.drop_last());
        rest.insert(slot_from(rest, s.last().created_at, 0), s.last())
    }
}

/// The rows of page `page` (from 1) when `s` is cut into pages of `size` rows.
pub open spec fn page_of(s: Seq<IssueRow>, page: int, size: int) -> Seq<IssueRow> {
    let lo = if (page - 1) * size < s.len() { (page - 1) * size } else { s.len() as int };
    let hi = if page * size < s.len() { page * size } else { s.len() as int };
    s.subrange(lo, hi)
}

/// The whole ordered listing of the rows of `s` that pass the filters.
pub open spec fn listing(
    s: Seq<IssueRow>,
    pattern: Option<Seq<char>>,
    after: Option<i64>,
    label: Option<u64>,
    links: Seq<IssueLabelLink>,
) -> Seq<IssueRow> {
    newest_first(s.filter(selector(pattern, after, label, links)))
}

pub open spec fn pattern_of(q: IssueQuery) -> Option<Seq<char>> {
    match q.repo_name {
        None => None,
        Some(p) => Some(p@),
    }
}

/// The user row with the given id, if any.
pub open spec fn user_with_id(s: Seq<User>, id: u64) -> Option<User> {
    if exists|i: int| 0 <= i < s.len() && s[i].id == id {
        Some(s[choose|i: int| 0 <= i < s.len() && s[i].id == id])
    } else {
        None
    }
}

pub open spec fn linked_to(issue_id: u64, links: Seq<IssueLabelLink>) -> spec_fn(Label) -> bool {
    |l: Label| links.contains(IssueLabelLink { issue_id, label_id: l.id })
}

/// Whether `i` is the issue that a stored row stands for, with its author and its labels.
pub open spec fn rebuilt_from(i: Issue, r: IssueRow, user: User, labels: Seq<Label>) -> bool {
    &&& i.id == r.id
    &&& i.number == r.number
    &&& i.title == r.title
    &&& i.state == r.state
    &&& i.repo_name == r.repo_name
    &&& i.user == user
    &&& user.id == r.user_id
    &&& i.labels@ == labels
    &&& i.created_at == r.created_at
}

/// Whether some row has the given id.
pub open spec fn has_issue(s: Seq<IssueRow>, id: u64) -> bool {
    exists|j: int| 0 <= j < s.len() && s[j].id == id
}

/// Upserting a row keeps the ids unique, stores the row, and keeps every
/// row of another id.
pub proof fn lemma_upsert_issue_row(s: Seq<IssueRow>, r: IssueRow)
    requires
        ids_unique(s),
    ensures
        ids_unique(upsert_issue_row(s, r)),
        upsert_issue_row(s, r).contains(r),
        forall|k: int|
            0 <= k < upsert_issue_row(s, r).len() && upsert_issue_row(s, r)[k].id == r.id
                ==> upsert_issue_row(s, r)[k] == r,
        forall|x: IssueRow| s.contains(x) && x.id != r.id ==> upsert_issue_row(s, r).contains(x),
        forall|id: u64| has_issue(s, id) ==> has_issue(upsert_issue_row(s, r), id),
{
    let u = upsert_issue_row(s, r);
    if exists|i: int| 0 <= i < s.len() && s[i].id == r.id {
        let c = choose|i: int| 0 <= i < s.len() && s[i].id == r.id;
        assert(u[c] == r);
        assert forall|a: int, b: int|
            0 <= a < u.len() && 0 <= b < u.len() && #[trigger] u[a].id == #[trigger] u[b].id implies a == b by {
            if a != c && b != c {
                assert(s[a].id == s[b].id);
            } else if a != c {
                assert(s[a].id == s[c].id);
            } else if b != c {
                assert(s[b].id == s[c].id);
            }
        }
        assert forall|k: int| 0 <= k < u.len() && u[k].id == r.id implies u[k] == r by {
            if k != c {
                assert(s[k].id == s[c].id);
            }
        }
        assert forall|x: IssueRow| s.contains(x) && x.id != r.id implies u.contains(x) by {
            let k = choose|k: int| 0 <= k < s.len() && s[k] == x;
            assert(u[k] == x);
        }
        assert forall|id: u64| has_issue(s, id) implies has_issue(u, id) by {
            let k = choose|k: int| 0 <= k < s.len() && s[k].id == id;
            if k == c {
                assert(u[c].id == id);
            } else {
                assert(u[k].id == id);
            }
        }
    } else {
        assert(u[s.len() as int] == r);
        assert forall|a: int, b: int|
            0 <= a < u.len() && 0 <= b < u.len() && #[trigger] u[a].id == #[trigger] u[b].id implies a == b by {
            if a < s.len() && b < s.len() {
                assert(s[a].id == s[b].id);
            }
        }
        assert forall|x: IssueRow| s.contains(x) && x.id != r.id implies u.contains(x) by {
            let k = choose|k: int| 0 <= k < s.len() && s[k] == x;
            assert(u[k] == x);
        }
        assert forall|id: u64| has_issue(s, id) implies has_issue(u, id) by {
            let k = choose|k: int| 0 <= k < s.len() && s[k].id == id;
            assert(u[k].id == id);
        }
    }
}

/// Whether some row has the given id and belongs to the repository named `full`.
pub open spec fn stored_in(s: Seq<IssueRow>, id: u64, full: Seq<char>) -> bool {
    exists|j: int| 0 <= j < s.len() && s[j].id == id && s[j].repo_name@ == full
}

/// Whether row `r` is issue `i` written under the repository named `full`.
pub open spec fn row_holds(r: IssueRow, i: Issue, full: Seq<char>) -> bool {
    &&& r.id == i.id
    &&& r.number == i.number
    &&& r.title == i.title
    &&& r.state == i.state
    &&& r.repo_name@ == full
    &&& r.user_id == i.user.id
    &&& r.created_at == i.created_at
}

pub open spec fn holds_issue(s: Seq<IssueRow>, i: Issue, full: Seq<char>) -> bool {
    exists|j: int| 0 <= j < s.len() && row_holds(s[j], i, full)
}

/// Whether no issue after position `k` and before `upto` has the id of the one at `k`.
pub open spec fn last_of_id(page: Seq<Issue>, k: int, upto: int) -> bool {
    forall|a: int| k < a < upto ==> #[trigger] page[a].id != page[k].id
}

/// The creation times of a page of issues, in order.
pub open spec fn created_times(page: Seq<Issue>) -> Seq<i64> {
    page.map_values(|i: Issue| i.created_at)
}

pub open spec fn user_id_is_not(id: u64) -> spec_fn(User) -> bool {
    |r: User| r.id != id
}

pub open spec fn label_id_is_not(id: u64) -> spec_fn(Label) -> bool {
    |r: Label| r.id != id
}

/// The local mirror: the five tables, each with a unique primary key.
pub struct Store {
    repos: Vec<Repo>,
    users: Vec<User>,
    labels: Vec<Label>,
    issues: Vec<IssueRow>,
    links: Vec<IssueLabelLink>,
}

impl Store {
    pub closed spec fn repo_rows(&self) -> Seq<Repo> {
        self.repos@
    }

    pub closed spec fn user_rows(&self) -> Seq<User> {
        self.users@
    }

    pub closed spec fn label_rows(&self) -> Seq<Label> {
        self.labels@
    }

    pub closed spec fn issue_rows(&self) -> Seq<IssueRow> {
        self.issues@
    }

    pub closed spec fn link_rows(&self) -> Seq<IssueLabelLink> {
        self.links@
    }

    pub open spec fn wf(&self) -> bool {
        &&& repos_unique(self.repo_rows())
        &&& user_ids_unique(self.user_rows())
        &&& label_ids_unique(self.label_rows())
        &&& ids_unique(self.issue_rows())
        &&& links_unique(self.link_rows())
    }

    pub fn new() -> (r: Store)
        ensures
            r.wf(),
            r.repo_rows().len() == 0,
            r.user_rows().len() == 0,
            r.label_rows().len() == 0,
            r.issue_rows().len() == 0,
            r.link_rows().len() == 0,
    {
        Store {
            repos: Vec::new(),
            users: Vec::new(),
            labels: Vec::new(),
            issues: Vec::new(),
            links: Vec::new(),
        }
    }

    /// Writes an `issues` row, replacing the row with the same id.
    pub fn upsert_issue_row(&mut self, r: IssueRow)
        requires
            old(self).wf(),
        ensures
            final(self).wf(),
            final(self).issue_rows() == upsert_issue_row(old(self).issue_rows(), r),
            final(self).repo_rows() == old(self).repo_rows(),
            final(self).user_rows() == old(self).user_rows(),
            final(self).label_rows() == old(self).label_rows(),
            final(self).link_rows() == old(self).link_rows(),
    {
        let mut i: usize = 0;
        while i < self.issues.len()
            invariant
                *self == *old(self),
                old(self).wf(),
                i <= self.issues.len(),
                forall|k: int| 0 <= k < i ==> self.issues@[k].id != r.id,
            decreases self.issues.len() - i,
        {
            if self.issues[i].id == r.id {
                proof {
                    let s = self.issues@;
                    assert(s[i as int].id == r.id);
                    let j = choose|j: int| 0 <= j < s.len() && s[j].id == r.id;
                    assert(s[j].id == s[i as int].id);
                }
                self.issues.set(i, r);
                proof {
                    let s = old(self).issues@;
                    let u = self.issues@;
                    assert forall|a: int, b: int|
                        0 <= a < u.len() && 0 <= b < u.len() && #[trigger] u[a].id == #[trigger] u[b].id implies a == b by {
                        if a != i && b != i {
                            assert(s[a].id == s[b].id);
                        } else if a != i {
                            assert(s[a].id == s[i as int].id);
                        } else if b != i {
                            assert(s[b].id == s[i as int].id);
                        }
                    }
                }
                return;
            }
            i = i + 1;
        }
        self.issues.push(r);
        proof {
            let s = old(self).issues@;
            let u = self.issues@;
            assert(!(exists|k: int| 0 <= k < s.len() && s[k].id == r.id));
            assert forall|a: int, b: int|
                0 <= a < u.len() && 0 <= b < u.len() && #[trigger] u[a].id == #[trigger] u[b].id implies a == b by {
                if a < s.len() && b < s.len() {
                    assert(s[a].id == s[b].id);
                }
            }
        }
    }

    /// Writes a `users` row, replacing the row with the same id.
    pub fn upsert_user(&mut self, r: User)
        requires
            old(self).wf(),
        ensures
            final(self).wf(),
            final(self).user_rows() == upsert_user_row(old(self).user_rows(), r),
            final(self).repo_rows() == old(self).repo_rows(),
            final(self).issue_rows() == old(self).issue_rows(),
            final(self).label_rows() == old(self).label_rows(),
            final(self).link_rows() == old(self).link_rows(),
    {
        let mut i: usize = 0;
        while i < self.users.len()
            invariant
                *self == *old(self),
                old(self).wf(),
                i <= self.users.len(),
                forall|k: int| 0 <= k < i ==> self.users@[k].id != r.id,
            decreases self.users.len() - i,
        {
            if self.users[i].id == r.id {
                proof {
                    let s = self.users@;
                    assert(s[i as int].id == r.id);
                    let j = choose|j: int| 0 <= j < s.len() && s[j].id == r.id;
                    assert(s[j].id == s[i as int].id);
                }
                self.users.set(i, r);
                proof {
                    let s = old(self).users@;
                    let u = self.users@;
                    assert forall|a: int, b: int|
                        0 <= a < u.len() && 0 <= b < u.len() && #[trigger] u[a].id == #[trigger] u[b].id implies a == b by {
                        if a != i && b != i {
                            assert(s[a].id == s[b].id);
                        } else if a != i {
                            assert(s[a].id == s[i as int].id);
                        } else if b != i {
                            assert(s[b].id == s[i as int].id);
                        }
                    }
                }
                return;
            }
            i = i + 1;
        }
        self.users.push(r);
        proof {
            let s = old(self).users@;
            let u = self.users@;
            assert(!(exists|k: int| 0 <= k < s.len() && s[k].id == r.id));
            assert forall|a: int, b: int|
                0 <= a < u.len() && 0 <= b < u.len() && #[trigger] u[a].id == #[trigger] u[b].id implies a == b by {
                if a < s.len() && b < s.len() {
                    assert(s[a].id == s[b].id);
                }
            }
        }
    }

    /// Writes a `labels` row, replacing the row with the same id.
    pub fn upsert_label(&mut self, r: Label)
        requires
            old(self).wf(),
        ensures
            final(self).wf(),
            final(self).label_rows() == upsert_label_row(old(self).label_rows(), r),
            final(self).repo_rows() == old(self).repo_rows(),
            final(self).issue_rows() == old(self).issue_rows(),
            final(self).user_rows() == old(self).user_rows(),
            final(self).link_rows() == old(self).link_rows(),
    {
        let mut i: usize = 0;
        while i < self.labels.len()
            invariant
                *self == *old(self),
                old(self).wf(),
                i <= self.labels.len(),
                forall|k: int| 0 <= k < i ==> self.labels@[k].id != r.id,
            decreases self.labels.len() - i,
        {
            if self.labels[i].id == r.id {
                proof {
                    let s = self.labels@;
                    assert(s[i as int].id == r.id);
                    let j = choose|j: int| 0 <= j < s.len() && s[j].id == r.id;
                    assert(s[j].id == s[i as int].id);
                }
                self.labels.set(i, r);
                proof {
                    let s = old(self).labels@;
                    let u = self.labels@;
                    assert forall|a: int, b: int|
                        0 <= a < u.len() && 0 <= b < u.len() && #[trigger] u[a].id == #[trigger] u[b].id implies a == b by {
                        if a != i && b != i {
                            assert(s[a].id == s[b].id);
                        } else if a != i {
                            assert(s[a].id == s[i as int].id);
                        } else if b != i {
                            assert(s[b].id == s[i as int].id);
                        }
                    }
                }
                return;
            }
            i = i + 1;
        }
        self.labels.push(r);
        proof {
            let s = old(self).labels@;
            let u = self.labels@;
            assert(!(exists|k: int| 0 <= k < s.len() && s[k].id == r.id));
            assert forall|a: int, b: int|
                0 <= a < u.len() && 0 <= b < u.len() && #[trigger] u[a].id == #[trigger] u[b].id implies a == b by {
                if a < s.len() && b < s.len() {
                    assert(s[a].id == s[b].id);
                }
            }
        }
    }

    /// Writes an `issue_labels` row; an existing equal row is kept.
    pub fn upsert_link(&mut self, r: IssueLabelLink)
        requires
            old(self).wf(),
        ensures
            final(self).wf(),
            final(self).link_rows() == upsert_link_row(old(self).link_rows(), r),
            final(self).repo_rows() == old(self).repo_rows(),
            final(self).issue_rows() == old(self).issue_rows(),
            final(self).user_rows() == old(self).user_rows(),
            final(self).label_rows() == old(self).label_rows(),
    {
        let mut i: usize = 0;
        while i < self.links.len()
            invariant
                *self == *old(self),
                old(self).wf(),
                i <= self.links.len(),
                forall|k: int| 0 <= k < i ==> self.links@[k] != r,
            decreases self.links.len() - i,
        {
            if self.links[i] == r {
                assert(self.links@.contains(r));
                return;
            }
            i = i + 1;
        }
        self.links.push(r);
        proof {
            let s = old(self).links@;
            let u = self.links@;
            assert(!s.contains(r));
            assert forall|a: int, b: int| 0 <= a < u.len() && 0 <= b < u.len() && #[trigger] u[a] == #[trigger] u[b] implies a == b by {
                if a < s.len() && b < s.len() {
                    assert(s[a] == s[b]);
                }
            }
        }
    }

    /// Registers a repository; registering it again leaves one row.
    pub fn add_repo(&mut self, r: Repo)
        requires
            old(self).wf(),
        ensures
            final(self).wf(),
            final(self).repo_rows() == upsert_repo_row(old(self).repo_rows(), r),
            final(self).issue_rows() == old(self).issue_rows(),
            final(self).user_rows() == old(self).user_rows(),
            final(self).label_rows() == old(self).label_rows(),
            final(self).link_rows() == old(self).link_rows(),
    {
        let mut i: usize = 0;
        while i < self.repos.len()
            invariant
                *self == *old(self),
                old(self).wf(),
                i <= self.repos.len(),
                forall|k: int|
                    0 <= k < i ==> !(self.repos@[k].owner_name@ == r.owner_name@ && self.repos@[k].name@
                        == r.name@),
            decreases self.repos.len() - i,
        {
            if self.repos[i].owner_name == r.owner_name && self.repos[i].name == r.name {
                proof {
                    let s = self.repos@;
                    let j = choose|j: int|
                        0 <= j < s.len() && s[j].owner_name@ == r.owner_name@ && s[j].name@ == r.name@;
                    assert(s[j].owner_name@ == s[i as int].owner_name@);
                }
                self.repos.set(i, r);
                proof {
                    let s = old(self).repos@;
                    let u = self.repos@;
                    assert forall|a: int, b: int|
                        0 <= a < u.len() && 0 <= b < u.len() && #[trigger] u[a].owner_name@
                            == #[trigger] u[b].owner_name@ && u[a].name@ == u[b].name@ implies a == b by {
                        if a != i && b != i {
                            assert(s[a].owner_name@ == s[b].owner_name@);
                        } else if a != i {
                            assert(s[a].owner_name@ == s[i as int].owner_name@);
                        } else if b != i {
                            assert(s[b].owner_name@ == s[i as int].owner_name@);
                        }
                    }
                }
                return;
            }
            i = i + 1;
        }
        self.repos.push(r);
        proof {
            let s = old(self).repos@;
            let u = self.repos@;
            assert forall|a: int, b: int|
                0 <= a < u.len() && 0 <= b < u.len() && #[trigger] u[a].owner_name@ == #[trigger] u[b].owner_name@
                    && u[a].name@ == u[b].name@ implies a == b by {
                if a < s.len() && b < s.len() {
                    assert(s[a].owner_name@ == s[b].owner_name@);
                }
            }
        }
    }
    /// Writes an issue: its row, then its author, then for each of its labels
    /// the association row and the label itself.
    pub fn insert_issue(&mut self, issue: Issue)
        requires
            old(self).wf(),
        ensures
            final(self).wf(),
            final(self).issue_rows() == upsert_issue_row(old(self).issue_rows(), row_of(issue)),
            final(self).user_rows() == upsert_user_row(old(self).user_rows(), issue.user),
            final(self).label_rows() == upsert_labels(old(self).label_rows(), issue.labels@),
            final(self).link_rows() == upsert_links(old(self).link_rows(), issue.id, issue.labels@),
            final(self).repo_rows() == old(self).repo_rows(),
    {
        let ghost whole = issue;
        let Issue { id, number, title, state, repo_name, user, labels, created_at } = issue;
        let row = IssueRow { id, number, title, state, repo_name, user_id: user.id, created_at };
        assert(row == row_of(whole));
        self.upsert_issue_row(row);
        self.upsert_user(user);
        let ghost mid = *self;
        let mut i: usize = 0;
        while i < labels.len()
            invariant
                i <= labels.len(),
                self.wf(),
                self.issue_rows() == mid.issue_rows(),
                self.user_rows() == mid.user_rows(),
                self.repo_rows() == mid.repo_rows(),
                self.label_rows() == upsert_labels(mid.label_rows(), labels@.subrange(0, i as int)),
                self.link_rows() == upsert_links(mid.link_rows(), id, labels@.subrange(0, i as int)),
            decreases labels.len() - i,
        {
            self.upsert_link(IssueLabelLink { issue_id: id, label_id: labels[i].id });
            self.upsert_label(labels[i].copy());
            proof {
                let pre = labels@.subrange(0, i as int + 1);
                assert(pre.drop_last() =~= labels@.subrange(0, i as int));
            }
            i = i + 1;
        }
        proof {
            assert(labels@.subrange(0, labels.len() as int) =~= labels@);
        }
    }

    /// Deregisters a repository and deletes every issue of it.
    pub fn delete_repo(&mut self, r: &Repo)
        requires
            old(self).wf(),
        ensures
            final(self).wf(),
            final(self).repo_rows() == old(self).repo_rows().filter(
                not_repo(r.owner_name@, r.name@),
            ),
            final(self).issue_rows() == old(self).issue_rows().filter(
                outside_repo(full_name_of(r.owner_name@, r.name@)),
            ),
            final(self).user_rows() == old(self).user_rows(),
            final(self).label_rows() == old(self).label_rows(),
            final(self).link_rows() == old(self).link_rows(),
    {
        let full = r.full_name();
        let ghost keep_repo = not_repo(r.owner_name@, r.name@);
        let ghost keep_issue = outside_repo(full@);
        let ghost s = self.repos@;
        let mut repos: Vec<Repo> = Vec::new();
        let mut i: usize = 0;
        while i < self.repos.len()
            invariant
                *self == *old(self),
                s == self.repos@,
                repos_unique(s),
                keep_repo == not_repo(r.owner_name@, r.name@),
                i <= s.len(),
                repos@ == s.subrange(0, i as int).filter(keep_repo),
                repos_unique(repos@),
                forall|a: int, j: int|
                    0 <= a < repos@.len() && i <= j < s.len() ==> !(#[trigger] repos@[a].owner_name@
                        == #[trigger] s[j].owner_name@ && repos@[a].name@ == s[j].name@),
            decreases s.len() - i,
        {
            let keep = !(self.repos[i].owner_name == r.owner_name && self.repos[i].name == r.name);
            let ghost before = repos@;
            if keep {
                repos.push(self.repos[i].copy());
            }
            proof {
                reveal(Seq::filter);
                let pre = s.subrange(0, i as int + 1);
                assert(pre.drop_last() =~= s.subrange(0, i as int));
                assert(pre.last() == s[i as int]);
                assert(repos@ == pre.filter(keep_repo));
                assert forall|a: int, j: int|
                    0 <= a < repos@.len() && i + 1 <= j < s.len() implies !(#[trigger] repos@[a].owner_name@
                        == #[trigger] s[j].owner_name@ && repos@[a].name@ == s[j].name@) by {
                    if a == before.len() {
                        assert(!(s[i as int].owner_name@ == s[j].owner_name@ && s[i as int].name@ == s[j].name@));
                    }
                }
                assert forall|a: int, b: int|
                    0 <= a < repos@.len() && 0 <= b < repos@.len() && #[trigger] repos@[a].owner_name@
                        == #[trigger] repos@[b].owner_name@ && repos@[a].name@ == repos@[b].name@ implies a == b by {
                    if a < before.len() && b < before.len() {
                        assert(before[a].owner_name@ == before[b].owner_name@);
                    } else if a < before.len() {
                        assert(before[a].owner_name@ == s[i as int].owner_name@);
                    } else if b < before.len() {
                        assert(before[b].owner_name@ == s[i as int].owner_name@);
                    }
                }
            }
            i = i + 1;
        }
        proof {
            assert(s.subrange(0, s.len() as int) =~= s);
        }
        let ghost s2 = self.issues@;
        let mut issues: Vec<IssueRow> = Vec::new();
        let mut i: usize = 0;
        while i < self.issues.len()
            invariant
                *self == *old(self),
                s2 == self.issues@,
                ids_unique(s2),
                keep_issue == outside_repo(full@),
                i <= s2.len(),
                issues@ == s2.subrange(0, i as int).filter(keep_issue),
                ids_unique(issues@),
                forall|a: int, j: int|
                    0 <= a < issues@.len() && i <= j < s2.len() ==> #[trigger] issues@[a].id
                        != #[trigger] s2[j].id,
            decreases s2.len() - i,
        {
            let keep = !(self.issues[i].repo_name == full);
            let ghost before = issues@;
            if keep {
                issues.push(self.issues[i].copy());
            }
            proof {
                reveal(Seq::filter);
                let pre = s2.subrange(0, i as int + 1);
                assert(pre.drop_last() =~= s2.subrange(0, i as int));
                assert(pre.last() == s2[i as int]);
                assert(issues@ == pre.filter(keep_issue));
                assert forall|a: int, j: int|
                    0 <= a < issues@.len() && i + 1 <= j < s2.len() implies #[trigger] issues@[a].id
                        != #[trigger] s2[j].id by {
                    if a == before.len() {
                        assert(s2[i as int].id != s2[j].id);
                    }
                }
                assert forall|a: int, b: int|
                    0 <= a < issues@.len() && 0 <= b < issues@.len() && #[trigger] issues@[a].id
                        == #[trigger] issues@[b].id implies a == b by {
                    if a < before.len() && b < before.len() {
                        assert(before[a].id == before[b].id);
                    } else if a < before.len() {
                        assert(before[a].id == s2[i as int].id);
                    } else if b < before.len() {
                        assert(before[b].id == s2[i as int].id);
                    }
                }
            }
            i = i + 1;
        }
        proof {
            assert(s2.subrange(0, s2.len() as int) =~= s2);
        }
        self.repos = repos;
        self.issues = issues;
    }
    fn label_id_named(&self, name: &String) -> (r: Option<u64>)
        ensures
            r == label_named(self.label_rows(), name@),
    {
        let mut i: usize = 0;
        while i < self.labels.len()
            invariant
                i <= self.labels.len(),
                label_named(self.labels@, name@) == label_named_from(self.labels@, name@, i as int),
            decreases self.labels.len() - i,
        {
            if self.labels[i].name == *name {
                return Some(self.labels[i].id);
            }
            i = i + 1;
        }
        None
    }

    fn has_link(&self, l: IssueLabelLink) -> (r: bool)
        ensures
            r == self.link_rows().contains(l),
    {
        let mut i: usize = 0;
        while i < self.links.len()
            invariant
                i <= self.links.len(),
                forall|k: int| 0 <= k < i ==> self.links@[k] != l,
            decreases self.links.len() - i,
        {
            if self.links[i] == l {
                assert(self.links@[i as int] == l);
                return true;
            }
            i = i + 1;
        }
        false
    }

    /// Lists one page of the stored issues that pass the query's filters,
    /// newest first. A label name that names no label is an error.
    pub fn fetch_issues(&self, q: &IssueQuery) -> (r: Result<Vec<IssueRow>, HunterError>)
        requires
            q.page >= 1,
        ensures
            match q.label_name {
                Some(n) => label_named(self.label_rows(), n@) is None <==> r is Err,
                None => r is Ok,
            },
            r is Err ==> r == Err::<Vec<IssueRow>, HunterError>(HunterError::NotFound),
            r matches Ok(v) ==> v@ == page_of(
                listing(
                    self.issue_rows(),
                    pattern_of(*q),
                    q.created_after,
                    match q.label_name {
                        None => None,
                        Some(n) => label_named(self.label_rows(), n@),
                    },
                    self.link_rows(),
                ),
                q.page as int,
                q.page_size as int,
            ),
    {
        let label: Option<u64> = match &q.label_name {
            None => None,
            Some(n) => match self.label_id_named(n) {
                None => {
                    return Err(HunterError::NotFound);
                },
                Some(id) => Some(id),
            },
        };
        let pattern: Option<Vec<char>> = match &q.repo_name {
            None => None,
            Some(p) => Some(chars_of(p.as_str())),
        };
        let ghost pat = pattern_of(*q);
        let ghost sel = selector(pat, q.created_after, label, self.links@);
        let ghost s = self.issues@;
        let mut out: Vec<IssueRow> = Vec::new();
        let mut i: usize = 0;
        while i < self.issues.len()
            invariant
                s == self.issues@,
                i <= s.len(),
                sel == selector(pat, q.created_after, label, self.links@),
                pat == pattern_of(*q),
                match pattern {
                    None => pat is None,
                    Some(pv) => pat == Some(pv@),
                },
                out@ == newest_first(s.subrange(0, i as int).filter(sel)),
            decreases s.len() - i,
        {
            let row = &self.issues[i];
            let by_repo = match &pattern {
                None => true,
                Some(pv) => {
                    let name = chars_of(row.repo_name.as_str());
                    like_match(pv, &name)
                },
            };
            let by_time = match q.created_after {
                None => true,
                Some(t) => row.created_at > t,
            };
            let by_label = match label {
                None => true,
                Some(l) => self.has_link(IssueLabelLink { issue_id: row.id, label_id: l }),
            };
            let ghost before = out@;
            if by_repo && by_time && by_label {
                let t = row.created_at;
                let mut j: usize = 0;
                while j < out.len() && out[j].created_at >= t
                    invariant
                        out@ == before,
                        j <= out.len(),
                        slot_from(before, t, 0) == slot_from(before, t, j as int),
                    decreases out.len() - j,
                {
                    j = j + 1;
                }
                out.insert(j, row.copy());
            }
            proof {
                reveal(Seq::filter);
                let pre = s.subrange(0, i as int + 1);
                assert(pre.drop_last() =~= s.subrange(0, i as int));
                assert(pre.last() == s[i as int]);
                assert(sel(s[i as int]) == (by_repo && by_time && by_label));
                if by_repo && by_time && by_label {
                    let f = s.subrange(0, i as int).filter(sel);
                    assert(f.push(s[i as int]).drop_last() =~= f);
                }
            }
            i = i + 1;
        }
        proof {
            assert(s.subrange(0, s.len() as int) =~= s);
        }
        let n = out.len();
        proof {
            let a = q.page as int;
            let b = q.page_size as int;
            assert(0 <= a <= u64::MAX && 0 <= b <= u64::MAX);
            assert(a * b <= u64::MAX * u64::MAX) by (nonlinear_arith)
                requires
                    0 <= a <= u64::MAX,
                    0 <= b <= u64::MAX,
            ;
            assert((a - 1) * b <= a * b) by (nonlinear_arith)
                requires
                    1 <= a,
                    0 <= b,
            ;
        }
        let lo_wide: u128 = (q.page as u128 - 1) * (q.page_size as u128);
        let hi_wide: u128 = (q.page as u128) * (q.page_size as u128);
        let lo: usize = if lo_wide < n as u128 { lo_wide as usize } else { n };
        let hi: usize = if hi_wide < n as u128 { hi_wide as usize } else { n };
        let mut page: Vec<IssueRow> = Vec::new();
        let mut k: usize = lo;
        while k < hi
            invariant
                lo <= k <= hi,
                hi <= out.len(),
                page@ == out@.subrange(lo as int, k as int),
            decreases hi - k,
        {
            page.push(out[k].copy());
            proof {
                assert(out@.subrange(lo as int, k as int + 1) =~= out@.subrange(lo as int, k as int).push(out@[k as int]));
            }
            k = k + 1;
        }
        Ok(page)
    }
    /// The author of an issue, by id; a missing user is an error.
    pub fn load_user(&self, user_id: u64) -> (r: Result<User, HunterError>)
        requires
            self.wf(),
        ensures
            match user_with_id(self.user_rows(), user_id) {
                None => r == Err::<User, HunterError>(HunterError::NotFound),
                Some(u) => r == Ok::<User, HunterError>(u),
            },
    {
        let mut i: usize = 0;
        while i < self.users.len()
            invariant
                self.wf(),
                i <= self.users.len(),
                forall|k: int| 0 <= k < i ==> self.users@[k].id != user_id,
            decreases self.users.len() - i,
        {
            if self.users[i].id == user_id {
                proof {
                    let s = self.users@;
                    let j = choose|j: int| 0 <= j < s.len() && s[j].id == user_id;
                    assert(s[j].id == s[i as int].id);
                }
                return Ok(self.users[i].copy());
            }
            i = i + 1;
        }
        Err(HunterError::NotFound)
    }

    /// The labels attached to an issue, in table order.
    pub fn load_labels(&self, issue_id: u64) -> (r: Vec<Label>)
        ensures
            r@ == self.label_rows().filter(linked_to(issue_id, self.link_rows())),
    {
        let ghost s = self.labels@;
        let ghost keep = linked_to(issue_id, self.links@);
        let mut out: Vec<Label> = Vec::new();
        let mut i: usize = 0;
        while i < self.labels.len()
            invariant
                s == self.labels@,
                keep == linked_to(issue_id, self.links@),
                i <= s.len(),
                out@ == s.subrange(0, i as int).filter(keep),
            decreases s.len() - i,
        {
            let linked = self.has_link(IssueLabelLink { issue_id, label_id: self.labels[i].id });
            if linked {
                out.push(self.labels[i].copy());
            }
            proof {
                reveal(Seq::filter);
                let pre = s.subrange(0, i as int + 1);
                assert(pre.drop_last() =~= s.subrange(0, i as int));
                assert(pre.last() == s[i as int]);
            }
            i = i + 1;
        }
        proof {
            assert(s.subrange(0, s.len() as int) =~= s);
        }
        out
    }

    /// Rebuilds an issue from its row: its author and its labels are read back
    /// from their tables.
    pub fn load_issue(&self, row: &IssueRow) -> (r: Result<Issue, HunterError>)
        requires
            self.wf(),
        ensures
            match user_with_id(self.user_rows(), row.user_id) {
                None => r == Err::<Issue, HunterError>(HunterError::NotFound),
                Some(u) => r matches Ok(i) && rebuilt_from(
                    i,
                    *row,
                    u,
                    self.label_rows().filter(linked_to(row.id, self.link_rows())),
                ),
            },
    {
        let user = self.load_user(row.user_id)?;
        let labels = self.load_labels(row.id);
        let r = row.copy();
        let issue = Issue {
            id: r.id,
            number: r.number,
            title: r.title,
            state: r.state,
            repo_name: r.repo_name,
            user,
            labels,
            created_at: r.created_at,
        };
        Ok(issue)
    }

    /// Deletes an issue's row and its label associations.
    pub fn delete_issue(&mut self, id: u64)
        requires
            old(self).wf(),
        ensures
            final(self).wf(),
            final(self).issue_rows() == old(self).issue_rows().filter(issue_id_is_not(id)),
            final(self).link_rows() == old(self).link_rows().filter(link_issue_is_not(id)),
            final(self).repo_rows() == old(self).repo_rows(),
            final(self).user_rows() == old(self).user_rows(),
            final(self).label_rows() == old(self).label_rows(),
    {
        let ghost keep_issue = issue_id_is_not(id);
        let ghost keep_link = link_issue_is_not(id);
        let ghost s = self.issues@;
        let mut issues: Vec<IssueRow> = Vec::new();
        let mut i: usize = 0;
        while i < self.issues.len()
            invariant
                *self == *old(self),
                s == self.issues@,
                ids_unique(s),
                keep_issue == issue_id_is_not(id),
                i <= s.len(),
                issues@ == s.subrange(0, i as int).filter(keep_issue),
                ids_unique(issues@),
                forall|a: int, j: int|
                    0 <= a < issues@.len() && i <= j < s.len() ==> #[trigger] issues@[a].id
                        != #[trigger] s[j].id,
            decreases s.len() - i,
        {
            let ghost before = issues@;
            if self.issues[i].id != id {
                issues.push(self.issues[i].copy());
            }
            proof {
                reveal(Seq::filter);
                let pre = s.subrange(0, i as int + 1);
                assert(pre.drop_last() =~= s.subrange(0, i as int));
                assert(pre.last() == s[i as int]);
                assert forall|a: int, j: int|
                    0 <= a < issues@.len() && i + 1 <= j < s.len() implies #[trigger] issues@[a].id
                        != #[trigger] s[j].id by {
                    if a == before.len() {
                        assert(s[i as int].id != s[j].id);
                    }
                }
                assert forall|a: int, b: int|
                    0 <= a < issues@.len() && 0 <= b < issues@.len() && #[trigger] issues@[a].id
                        == #[trigger] issues@[b].id implies a == b by {
                    if a < before.len() && b < before.len() {
                        assert(before[a].id == before[b].id);
                    } else if a < before.len() {
                        assert(before[a].id == s[i as int].id);
                    } else if b < before.len() {
                        assert(before[b].id == s[i as int].id);
                    }
                }
            }
            i = i + 1;
        }
        proof {
            assert(s.subrange(0, s.len() as int) =~= s);
        }
        let ghost s2 = self.links@;
        let mut links: Vec<IssueLabelLink> = Vec::new();
        let mut i: usize = 0;
        while i < self.links.len()
            invariant
                *self == *old(self),
                s2 == self.links@,
                links_unique(s2),
                keep_link == link_issue_is_not(id),
                i <= s2.len(),
                links@ == s2.subrange(0, i as int).filter(keep_link),
                links_unique(links@),
                forall|a: int, j: int| 0 <= a < links@.len() && i <= j < s2.len() ==> #[trigger] links@[a] != #[trigger] s2[j],
            decreases s2.len() - i,
        {
            let ghost before = links@;
            if self.links[i].issue_id != id {
                links.push(self.links[i]);
            }
            proof {
                reveal(Seq::filter);
                let pre = s2.subrange(0, i as int + 1);
                assert(pre.drop_last() =~= s2.subrange(0, i as int));
                assert(pre.last() == s2[i as int]);
                assert forall|a: int, j: int|
                    0 <= a < links@.len() && i + 1 <= j < s2.len() implies #[trigger] links@[a] != #[trigger] s2[j] by {
                    if a == before.len() {
                        assert(s2[i as int] != s2[j]);
                    }
                }
                assert forall|a: int, b: int|
                    0 <= a < links@.len() && 0 <= b < links@.len() && #[trigger] links@[a] == #[trigger] links@[b] implies a == b by {
                    if a < before.len() && b < before.len() {
                        assert(before[a] == before[b]);
                    } else if a < before.len() {
                        assert(before[a] == s2[i as int]);
                    } else if b < before.len() {
                        assert(before[b] == s2[i as int]);
                    }
                }
            }
            i = i + 1;
        }
        proof {
            assert(s2.subrange(0, s2.len() as int) =~= s2);
        }
        self.issues = issues;
        self.links = links;
    }
    /// Takes in one fetched page of a repository's sync pass: each issue is
    /// stamped with the repository's full name and persisted at once, and the
    /// pass's watermark advances over the page's creation times.
    pub fn sync_page(&mut self, repo: &Repo, page: Vec<Issue>, state: &mut SyncState)
        requires
            old(self).wf(),
            !old(state).done,
            old(state).page < u64::MAX,
        ensures
            final(self).wf(),
            forall|k: int|
                0 <= k < page@.len() ==> stored_in(
                    final(self).issue_rows(),
                    #[trigger] page@[k].id,
                    full_name_of(repo.owner_name@, repo.name@),
                ),
            forall|k: int|
                0 <= k < page@.len() && last_of_id(page@, k, page@.len() as int) ==> holds_issue(
                    final(self).issue_rows(),
                    #[trigger] page@[k],
                    full_name_of(repo.owner_name@, repo.name@),
                ),
            forall|id: u64| has_issue(old(self).issue_rows(), id) ==> has_issue(final(self).issue_rows(), id),
            final(self).repo_rows() == old(self).repo_rows(),
            final(state).oldest_seen == watermark(old(state).oldest_seen, created_times(page@)),
            final(state).cutoff == old(state).cutoff,
            final(state).page == old(state).page + 1,
            final(state).done == (page@.len() == 0 || !goes_on(
                final(state).oldest_seen,
                old(state).cutoff,
            )),
    {
        let ghost full = full_name_of(repo.owner_name@, repo.name@);
        let ghost items = page@;
        let mut created: Vec<i64> = Vec::new();
        let mut pending = page;
        let mut k: usize = 0;
        let n = pending.len();
        while k < n
            invariant
                n == items.len(),
                k <= n,
                pending@ == items.subrange(k as int, n as int),
                items == page@,
                full == full_name_of(repo.owner_name@, repo.name@),
                forall|a: int|
                    0 <= a < k && last_of_id(items, a, k as int) ==> holds_issue(
                        self.issue_rows(),
                        #[trigger] items[a],
                        full,
                    ),
                self.wf(),
                self.repo_rows() == old(self).repo_rows(),
                forall|id: u64| has_issue(old(self).issue_rows(), id) ==> has_issue(self.issue_rows(), id),
                forall|a: int| 0 <= a < k ==> stored_in(self.issue_rows(), #[trigger] items[a].id, full),
                created@ == created_times(items).subrange(0, k as int),
            decreases n - k,
        {
            let ghost rest = pending@;
            let mut issue = pending.remove(0);
            proof {
                assert(issue == items[k as int]);
                assert(pending@ =~= items.subrange(k as int + 1, n as int));
            }
            issue.repo_name = repo.full_name();
            created.push(issue.created_at);
            let ghost before = self.issue_rows();
            let ghost stamped = issue;
            self.insert_issue(issue);
            proof {
                lemma_upsert_issue_row(before, row_of(stamped));
                let u = self.issue_rows();
                let r = row_of(stamped);
                assert(r.id == items[k as int].id);
                assert(r.repo_name@ == full);
                assert(u.contains(r));
                let ju = choose|j: int| 0 <= j < u.len() && u[j] == r;
                assert(u[ju] == r);
                assert(u[ju].id == items[k as int].id);
                assert forall|a: int| 0 <= a < k + 1 implies stored_in(u, #[trigger] items[a].id, full) by {
                    if a == k {
                        assert(u[ju].id == items[a].id && u[ju].repo_name@ == full);
                    } else {
                        assert(stored_in(before, items[a].id, full));
                        let jb = choose|j: int|
                            0 <= j < before.len() && before[j].id == items[a].id && before[j].repo_name@ == full;
                        if before[jb].id == r.id {
                            assert(u[ju].id == items[a].id && u[ju].repo_name@ == full);
                        } else {
                            assert(before.contains(before[jb]));
                            let jc = choose|j: int| 0 <= j < u.len() && u[j] == before[jb];
                            assert(u[jc].id == items[a].id && u[jc].repo_name@ == full);
                        }
                    }
                }
                assert(created@ =~= created_times(items).subrange(0, k as int + 1));
                assert(row_holds(r, items[k as int], full));
                assert forall|a: int|
                    0 <= a < k + 1 && last_of_id(items, a, k + 1) implies holds_issue(
                        u,
                        #[trigger] items[a],
                        full,
                    ) by {
                    if a == k {
                        assert(row_holds(u[ju], items[a], full));
                    } else {
                        assert(items[k as int].id != items[a].id);
                        assert(last_of_id(items, a, k as int));
                        assert(holds_issue(before, items[a], full));
                        let jb = choose|j: int| 0 <= j < before.len() && row_holds(before[j], items[a], full);
                        assert(before.contains(before[jb]));
                        let jc = choose|j: int| 0 <= j < u.len() && u[j] == before[jb];
                        assert(row_holds(u[jc], items[a], full));
                    }
                }
            }
            k = k + 1;
        }
        proof {
            assert(created@ =~= created_times(items));
        }
        state.on_page(&created);

    }
    /// Every registered repository, in table order.
    pub fn repos(&self) -> (r: Vec<Repo>)
        ensures
            r@ == self.repo_rows(),
    {
        let mut out: Vec<Repo> = Vec::new();
        let mut i: usize = 0;
        while i < self.repos.len()
            invariant
                i <= self.repos.len(),
                out@ == self.repos@.subrange(0, i as int),
            decreases self.repos.len() - i,
        {
            out.push(self.repos[i].copy());
            proof {
                assert(self.repos@.subrange(0, i as int + 1) =~= self.repos@.subrange(0, i as int).push(
                    self.repos@[i as int],
                ));
            }
            i = i + 1;
        }
        proof {
            assert(self.repos@.subrange(0, self.repos.len() as int) =~= self.repos@);
        }
        out
    }
    /// Deletes the user with the given id.
    pub fn delete_user(&mut self, id: u64)
        requires
            old(self).wf(),
        ensures
            final(self).wf(),
            final(self).user_rows() == old(self).user_rows().filter(user_id_is_not(id)),
            final(self).repo_rows() == old(self).repo_rows(),
            final(self).issue_rows() == old(self).issue_rows(),
            final(self).label_rows() == old(self).label_rows(),
            final(self).link_rows() == old(self).link_rows(),
    {
        let ghost keep = user_id_is_not(id);
        let ghost s = self.users@;
        let mut out: Vec<User> = Vec::new();
        let mut i: usize = 0;
        while i < self.users.len()
            invariant
                *self == *old(self),
                s == self.users@,
                user_ids_unique(s),
                keep == user_id_is_not(id),
                i <= s.len(),
                out@ == s.subrange(0, i as int).filter(keep),
                user_ids_unique(out@),
                forall|a: int, j: int|
                    0 <= a < out@.len() && i <= j < s.len() ==> #[trigger] out@[a].id
                        != #[trigger] s[j].id,
            decreases s.len() - i,
        {
            let ghost before = out@;
            if self.users[i].id != id {
                out.push(self.users[i].copy());
            }
            proof {
                reveal(Seq::filter);
                let pre = s.subrange(0, i as int + 1);
                assert(pre.drop_last() =~= s.subrange(0, i as int));
                assert(pre.last() == s[i as int]);
                assert forall|a: int, j: int|
                    0 <= a < out@.len() && i + 1 <= j < s.len() implies #[trigger] out@[a].id
                        != #[trigger] s[j].id by {
                    if a == before.len() {
                        assert(s[i as int].id != s[j].id);
                    }
                }
                assert forall|a: int, b: int|
                    0 <= a < out@.len() && 0 <= b < out@.len() && #[trigger] out@[a].id
                        == #[trigger] out@[b].id implies a == b by {
                    if a < before.len() && b < before.len() {
                        assert(before[a].id == before[b].id);
                    } else if a < before.len() {
                        assert(before[a].id == s[i as int].id);
                    } else if b < before.len() {
                        assert(before[b].id == s[i as int].id);
                    }
                }
            }
            i = i + 1;
        }
        proof {
            assert(s.subrange(0, s.len() as int) =~= s);
        }
        self.users = out;
    }

    /// Deletes the label with the given id; its association rows stay.
    pub fn delete_label(&mut self, id: u64)
        requires
            old(self).wf(),
        ensures
            final(self).wf(),
            final(self).label_rows() == old(self).label_rows().filter(label_id_is_not(id)),
            final(self).repo_rows() == old(self).repo_rows(),
            final(self).issue_rows() == old(self).issue_rows(),
            final(self).user_rows() == old(self).user_rows(),
            final(self).link_rows() == old(self).link_rows(),
    {
        let ghost keep = label_id_is_not(id);
        let ghost s = self.labels@;
        let mut out: Vec<Label> = Vec::new();
        let mut i: usize = 0;
        while i < self.labels.len()
            invariant
                *self == *old(self),
                s == self.labels@,
                label_ids_unique(s),
                keep == label_id_is_not(id),
                i <= s.len(),
                out@ == s.subrange(0, i as int).filter(keep),
                label_ids_unique(out@),
                forall|a: int, j: int|
                    0 <= a < out@.len() && i <= j < s.len() ==> #[trigger] out@[a].id
                        != #[trigger] s[j].id,
            decreases s.len() - i,
        {
            let ghost before = out@;
            if self.labels[i].id != id {
                out.push(self.labels[i].copy());
            }
            proof {
                reveal(Seq::filter);
                let pre = s.subrange(0, i as int + 1);
                assert(pre.drop_last() =~= s.subrange(0, i as int));
                assert(pre.last() == s[i as int]);
                assert forall|a: int, j: int|
                    0 <= a < out@.len() && i + 1 <= j < s.len() implies #[trigger] out@[a].id
                        != #[trigger] s[j].id by {
                    if a == before.len() {
                        assert(s[i as int].id != s[j].id);
                    }
                }
                assert forall|a: int, b: int|
                    0 <= a < out@.len() && 0 <= b < out@.len() && #[trigger] out@[a].id
                        == #[trigger] out@[b].id implies a == b by {
                    if a < before.len() && b < before.len() {
                        assert(before[a].id == before[b].id);
                    } else if a < before.len() {
                        assert(before[a].id == s[i as int].id);
                    } else if b < before.len() {
                        assert(before[b].id == s[i as int].id);
                    }
                }
            }
            i = i + 1;
        }
        proof {
            assert(s.subrange(0, s.len() as int) =~= s);
        }
        self.labels = out;
    }

    /// Deletes one association row.
    pub fn delete_link(&mut self, l: IssueLabelLink)
        requires
            old(self).wf(),
        ensures
            final(self).wf(),
            final(self).link_rows() == old(self).link_rows().filter(|r: IssueLabelLink| r != l),
            final(self).repo_rows() == old(self).repo_rows(),
            final(self).issue_rows() == old(self).issue_rows(),
            final(self).user_rows() == old(self).user_rows(),
            final(self).label_rows() == old(self).label_rows(),
    {
        let ghost keep = |r: IssueLabelLink| r != l;
        let ghost s2 = self.links@;
        let mut links: Vec<IssueLabelLink> = Vec::new();
        let mut i: usize = 0;
        while i < self.links.len()
            invariant
                *self == *old(self),
                s2 == self.links@,
                links_unique(s2),
                keep == (|r: IssueLabelLink| r != l),
                i <= s2.len(),
                links@ == s2.subrange(0, i as int).filter(keep),
                links_unique(links@),
                forall|a: int, j: int| 0 <= a < links@.len() && i <= j < s2.len() ==> #[trigger] links@[a] != #[trigger] s2[j],
            decreases s2.len() - i,
        {
            let ghost before = links@;
            if self.links[i] != l {
                links.push(self.links[i]);
            }
            proof {
                reveal(Seq::filter);
                let pre = s2.subrange(0, i as int + 1);
                assert(pre.drop_last() =~= s2.subrange(0, i as int));
                assert(pre.last() == s2[i as int]);
                assert forall|a: int, j: int|
                    0 <= a < links@.len() && i + 1 <= j < s2.len() implies #[trigger] links@[a] != #[trigger] s2[j] by {
                    if a == before.len() {
                        assert(s2[i as int] != s2[j]);
                    }
                }
                assert forall|a: int, b: int|
                    0 <= a < links@.len() && 0 <= b < links@.len() && #[trigger] links@[a] == #[trigger] links@[b] implies a == b by {
                    if a < before.len() && b < before.len() {
                        assert(before[a] == before[b]);
                    } else if a < before.len() {
                        assert(before[a] == s2[i as int]);
                    } else if b < before.len() {
                        assert(before[b] == s2[i as int]);
                    }
                }
            }
            i = i + 1;
        }
        proof {
            assert(s2.subrange(0, s2.len() as int) =~= s2);
        }
        self.links = links;
    }
}

} // verus!
