use vstd::prelude::*;
use crate::entity::{Issue, IssueRow, Repo, full_name_of, row_of};
use crate::entity::{IssueLabelLink, Label};
use crate::store::{
    ids_unique, lemma_upsert_issue_row, listing, newest_first, not_repo, outside_repo, page_of,
    label_ids_unique, linked_to, rebuilt_from, selector, slot_from, upsert_issue_row,
    upsert_label_row, upsert_labels, upsert_link_row, upsert_links, upsert_user_row, user_with_id,
};
use crate::sync::{goes_on, lower, watermark};

verus! {

/// Writing an issue twice under one id, whatever changed in between, leaves
/// exactly one row with that id, and it is the row of the later write.
pub proof fn upsert_is_idempotent(rows: Seq<IssueRow>, first: Issue, second: Issue)
    requires
        ids_unique(rows),
        first.id == second.id,
    ensures
        ({
            let t = upsert_issue_row(upsert_issue_row(rows, row_of(first)), row_of(second));
            &&& ids_unique(t)
            &&& t.contains(row_of(second))
            &&& forall|j: int| 0 <= j < t.len() && t[j].id == second.id ==> t[j] == row_of(second)
        }),
{
    lemma_upsert_issue_row(rows, row_of(first));
    lemma_upsert_issue_row(upsert_issue_row(rows, row_of(first)), row_of(second));
}

/// Removing a repository leaves no issue row of its full name and no row for
/// the repository itself.
pub proof fn removal_cascades(repos: Seq<Repo>, issues: Seq<IssueRow>, r: Repo)
    ensures
        ({
            let left = issues.filter(outside_repo(full_name_of(r.owner_name@, r.name@)));
            forall|k: int| 0 <= k < left.len() ==> left[k].repo_name@ != full_name_of(r.owner_name@, r.name@)
        }),
        ({
            let left = repos.filter(not_repo(r.owner_name@, r.name@));
            forall|k: int|
                0 <= k < left.len() ==> !(left[k].owner_name@ == r.owner_name@ && left[k].name@ == r.name@)
        }),
{
    broadcast use vstd::seq_lib::group_filter_ensures;

    let left = issues.filter(outside_repo(full_name_of(r.owner_name@, r.name@)));
    assert forall|k: int| 0 <= k < left.len() implies left[k].repo_name@ != full_name_of(
        r.owner_name@,
        r.name@,
    ) by {
        assert(outside_repo(full_name_of(r.owner_name@, r.name@))(left[k]));
    }
    let kept = repos.filter(not_repo(r.owner_name@, r.name@));
    assert forall|k: int|
        0 <= k < kept.len() implies !(kept[k].owner_name@ == r.owner_name@ && kept[k].name@ == r.name@) by {
        assert(not_repo(r.owner_name@, r.name@)(kept[k]));
    }
}

/// Pages 1 to `n` of `s`, one after the other.
pub open spec fn pages_upto(s: Seq<IssueRow>, size: int, n: nat) -> Seq<IssueRow>
    decreases n,
{
    if n == 0 {
        Seq::empty()
    } else {
        pages_upto(s, size, (n - 1) as nat) + page_of(s, n as int, size)
    }
}

proof fn lemma_pages_prefix(s: Seq<IssueRow>, size: int, n: nat)
    requires
        size > 0,
    ensures
        pages_upto(s, size, n) == s.subrange(
            0,
            if n * size < s.len() { n * size } else { s.len() as int },
        ),
    decreases n,
{
    if n == 0 {
        assert(pages_upto(s, size, n) =~= s.subrange(0, 0));
    } else {
        lemma_pages_prefix(s, size, (n - 1) as nat);
        assert((n - 1) * size <= n * size) by (nonlinear_arith)
            requires
                n >= 1,
                size > 0,
        ;
        assert(((n - 1) as nat) * size == (n - 1) * size);
        let hi = if n * size < s.len() { n * size } else { s.len() as int };
        assert(pages_upto(s, size, n) =~= s.subrange(0, hi));
    }
}

/// Cutting a listing of M rows into pages of P rows and putting pages 1 to
/// ceil(M/P) back together gives the listing again, each row once, in order.
pub proof fn pages_cover_listing(s: Seq<IssueRow>, size: int)
    requires
        size > 0,
    ensures
        pages_upto(s, size, ((s.len() + size - 1) / size) as nat) == s,
{
    let n = (s.len() + size - 1) / size;
    vstd::arithmetic::div_mod::lemma_fundamental_div_mod(s.len() + size - 1, size);
    assert(n >= 0) by (nonlinear_arith)
        requires
            n == (s.len() + size - 1) / size,
            size > 0,
            s.len() >= 0,
    ;
    assert(n * size >= s.len()) by (nonlinear_arith)
        requires
            s.len() + size - 1 == size * n + (s.len() + size - 1) % size,
            0 <= (s.len() + size - 1) % size < size,
    ;
    lemma_pages_prefix(s, size, n as nat);
    assert(s.subrange(0, s.len() as int) =~= s);
}

/// The smallest of a non-empty run of timestamps.
pub open spec fn min_of(ts: Seq<i64>) -> i64
    recommends
        ts.len() > 0,
    decreases ts.len(),
{
    if ts.len() <= 1 {
        ts[0]
    } else {
        let m = min_of(ts.drop_last());
        if ts.last() < m {
            ts.last()
        } else {
            m
        }
    }
}

proof fn lemma_watermark_min(oldest: Option<i64>, ts: Seq<i64>)
    requires
        ts.len() > 0,
    ensures
        watermark(oldest, ts) == lower(oldest, min_of(ts)),
    decreases ts.len(),
{
    if ts.len() > 1 {
        lemma_watermark_min(oldest, ts.drop_last());
        let m = min_of(ts.drop_last());
        assert(watermark(oldest, ts) == lower(lower(oldest, m), ts.last()));
        match oldest {
            None => {},
            Some(o) => {},
        }
    } else {
        assert(ts.drop_last().len() == 0);
        assert(watermark(oldest, ts.drop_last()) == oldest);
        assert(ts.last() == ts[0]);
    }
}

/// How many pages a pass fetches from a source that offers `pages`, going on
/// from page `k` with watermark `oldest`.
pub open spec fn pages_fetched(pages: Seq<Seq<i64>>, cutoff: i64, oldest: Option<i64>, k: int) -> int
    decreases pages.len() - k,
{
    if k < 0 || k >= pages.len() {
        k
    } else {
        let o = watermark(oldest, pages[k]);
        if pages[k].len() == 0 || !goes_on(o, cutoff) {
            k + 1
        } else {
            pages_fetched(pages, cutoff, o, k + 1)
        }
    }
}

proof fn lemma_fetched_from(pages: Seq<Seq<i64>>, cutoff: i64, oldest: Option<i64>, k: int, j: int)
    requires
        0 <= k <= j < pages.len(),
        forall|a: int| 0 <= a < pages.len() ==> #[trigger] pages[a].len() > 0,
        forall|a: int| 0 <= a < j ==> #[trigger] min_of(pages[a]) > cutoff,
        min_of(pages[j]) <= cutoff,
        goes_on(oldest, cutoff),
    ensures
        pages_fetched(pages, cutoff, oldest, k) == j + 1,
    decreases j - k,
{
    lemma_watermark_min(oldest, pages[k]);
    if k < j {
        assert(min_of(pages[k]) > cutoff);
        lemma_fetched_from(pages, cutoff, watermark(oldest, pages[k]), k + 1, j);
    }
}

/// A pass over pages whose minimum creation times strictly decrease fetches
/// every page up to and including the first whose minimum is at or below the
/// cutoff, and stops there.
pub proof fn pass_stops_at_cutoff(pages: Seq<Seq<i64>>, cutoff: i64, j: int)
    requires
        0 <= j < pages.len(),
        forall|a: int| 0 <= a < pages.len() ==> #[trigger] pages[a].len() > 0,
        forall|a: int|
            0 < a < pages.len() ==> #[trigger] min_of(pages[a]) < min_of(pages[a - 1]),
        forall|a: int| 0 <= a < j ==> #[trigger] min_of(pages[a]) > cutoff,
        min_of(pages[j]) <= cutoff,
    ensures
        pages_fetched(pages, cutoff, None, 0) == j + 1,
{
    lemma_fetched_from(pages, cutoff, None, 0, j);
}

/// Whether rows run from newest to oldest.
pub open spec fn is_newest_first(s: Seq<IssueRow>) -> bool {
    forall|a: int, b: int| 0 <= a < b < s.len() ==> #[trigger] s[a].created_at >= #[trigger] s[b].created_at
}

proof fn lemma_slot(s: Seq<IssueRow>, t: i64, j: int)
    requires
        0 <= j <= s.len(),
    ensures
        j <= slot_from(s, t, j) <= s.len(),
        forall|k: int| j <= k < slot_from(s, t, j) ==> s[k].created_at >= t,
        slot_from(s, t, j) < s.len() ==> s[slot_from(s, t, j)].created_at < t,
    decreases s.len() - j,
{
    if j < s.len() && s[j].created_at >= t {
        lemma_slot(s, t, j + 1);
    }
}

/// Ordering newest first keeps the same rows, as many of each, and puts
/// them in descending order of creation.
pub proof fn newest_first_orders(s: Seq<IssueRow>)
    ensures
        newest_first(s).len() == s.len(),
        newest_first(s).to_multiset() == s.to_multiset(),
        is_newest_first(newest_first(s)),
    decreases s.len(),
{
    broadcast use vstd::seq_lib::group_to_multiset_ensures;

    if s.len() > 0 {
        let rest = newest_first(s.drop_last());
        newest_first_orders(s.drop_last());
        let x = s.last();
        let p = slot_from(rest, x.created_at, 0);
        lemma_slot(rest, x.created_at, 0);
        let u = rest.insert(p, x);
        rest.insert_ensures(p, x);
        assert(u == newest_first(s));
        assert forall|a: int, b: int| 0 <= a < b < u.len() implies #[trigger] u[a].created_at
            >= #[trigger] u[b].created_at by {
            if b < p {
                assert(u[a] == rest[a] && u[b] == rest[b]);
            } else if b == p {
                assert(u[a] == rest[a]);
            } else if a < p {
                assert(u[a] == rest[a] && u[b] == rest[b - 1]);
                assert(rest[a].created_at >= rest[b - 1].created_at);
            } else if a == p {
                assert(u[b] == rest[b - 1]);
                assert(rest[p].created_at >= rest[b - 1].created_at);
            } else {
                assert(u[a] == rest[a - 1] && u[b] == rest[b - 1]);
            }
        }
        assert(u =~= rest.subrange(0, p).push(x) + rest.subrange(p, rest.len() as int));
        vstd::seq_lib::lemma_multiset_commutative(rest.subrange(0, p).push(x), rest.subrange(p, rest.len() as int));
        vstd::seq_lib::lemma_multiset_commutative(rest.subrange(0, p), rest.subrange(p, rest.len() as int));
        assert(rest.subrange(0, p) + rest.subrange(p, rest.len() as int) =~= rest);
        assert(s.drop_last().push(x) =~= s);
    }
}

/// With only a label filter set, the listing holds exactly the rows that
/// an association row links to that label.
pub proof fn label_filter_selects_linked(s: Seq<IssueRow>, label: u64, links: Seq<IssueLabelLink>)
    ensures
        forall|r: IssueRow|
            #[trigger] listing(s, None, None, Some(label), links).contains(r) <==> (s.contains(r)
                && links.contains(IssueLabelLink { issue_id: r.id, label_id: label })),
{
    broadcast use vstd::seq_lib::group_filter_ensures;
    broadcast use vstd::seq_lib::group_to_multiset_ensures;

    let sel = selector(None, None, Some(label), links);
    let f = s.filter(sel);
    newest_first_orders(f);
    assert forall|r: IssueRow|
        #[trigger] listing(s, None, None, Some(label), links).contains(r) <==> (s.contains(r)
            && links.contains(IssueLabelLink { issue_id: r.id, label_id: label })) by {
        let l = listing(s, None, None, Some(label), links);
        assert(l.contains(r) <==> l.to_multiset().count(r) > 0);
        assert(f.contains(r) <==> f.to_multiset().count(r) > 0);
        if f.contains(r) {
            s.lemma_filter_contains_rev(sel, r);
            let k = choose|k: int| 0 <= k < f.len() && f[k] == r;
            assert(sel(f[k]));
        }
        if s.contains(r) && links.contains(IssueLabelLink { issue_id: r.id, label_id: label }) {
            let k = choose|k: int| 0 <= k < s.len() && s[k] == r;
            assert(sel(s[k]));
        }
    }
}

proof fn lemma_labels_into_empty(ls: Seq<Label>)
    requires
        label_ids_unique(ls),
    ensures
        upsert_labels(Seq::empty(), ls) == ls,
    decreases ls.len(),
{
    if ls.len() > 0 {
        let init = ls.drop_last();
        assert(label_ids_unique(init)) by {
            assert forall|a: int, b: int|
                0 <= a < init.len() && 0 <= b < init.len() && #[trigger] init[a].id == #[trigger] init[b].id implies a
                == b by {
                assert(ls[a].id == ls[b].id);
            }
        }
        lemma_labels_into_empty(init);
        assert forall|k: int| 0 <= k < init.len() implies init[k].id != ls.last().id by {
            assert(ls[k].id != ls[ls.len() - 1].id);
        }
        assert(upsert_label_row(init, ls.last()) == init.push(ls.last()));
        assert(init.push(ls.last()) =~= ls);
    }
}

proof fn lemma_links_cover(issue_id: u64, ls: Seq<Label>)
    ensures
        forall|k: int|
            0 <= k < ls.len() ==> upsert_links(Seq::empty(), issue_id, ls).contains(
                IssueLabelLink { issue_id, label_id: #[trigger] ls[k].id },
            ),
    decreases ls.len(),
{
    if ls.len() > 0 {
        let init = ls.drop_last();
        lemma_links_cover(issue_id, init);
        let prev = upsert_links(Seq::empty(), issue_id, init);
        let l = IssueLabelLink { issue_id, label_id: ls.last().id };
        let now = upsert_link_row(prev, l);
        assert(now.contains(l)) by {
            if !prev.contains(l) {
                assert(now[prev.len() as int] == l);
            }
        }
        assert forall|k: int| 0 <= k < ls.len() implies now.contains(
            IssueLabelLink { issue_id, label_id: #[trigger] ls[k].id },
        ) by {
            if k < init.len() {
                assert(init[k] == ls[k]);
                let x = IssueLabelLink { issue_id, label_id: init[k].id };
                assert(prev.contains(x));
                if !prev.contains(l) {
                    let j = choose|j: int| 0 <= j < prev.len() && prev[j] == x;
                    assert(now[j] == x);
                }
            }
        }
    }
}

proof fn lemma_filter_keeps_all(ls: Seq<Label>, p: spec_fn(Label) -> bool)
    requires
        forall|k: int| 0 <= k < ls.len() ==> #[trigger] p(ls[k]),
    ensures
        ls.filter(p) == ls,
    decreases ls.len(),
{
    reveal(Seq::filter);
    if ls.len() > 0 {
        let init = ls.drop_last();
        assert forall|k: int| 0 <= k < init.len() implies #[trigger] p(init[k]) by {
            assert(p(ls[k]));
        }
        lemma_filter_keeps_all(init, p);
        assert(p(ls[ls.len() - 1]));
        assert(init.push(ls.last()) =~= ls);
    }
}

/// An issue whose labels have distinct ids, written into empty tables, reads
/// back equal in every field: its author is found by id and its labels, in
/// their order, through the association rows.
pub proof fn written_issue_reads_back(i: Issue)
    requires
        label_ids_unique(i.labels@),
    ensures
        ({
            let users = upsert_user_row(Seq::empty(), i.user);
            let labels = upsert_labels(Seq::empty(), i.labels@);
            let links = upsert_links(Seq::empty(), i.id, i.labels@);
            &&& user_with_id(users, row_of(i).user_id) == Some(i.user)
            &&& rebuilt_from(i, row_of(i), i.user, labels.filter(linked_to(i.id, links)))
        }),
{
    let users = upsert_user_row(Seq::empty(), i.user);
    assert(users == seq![i.user]);
    assert(users[0].id == i.user.id);
    lemma_labels_into_empty(i.labels@);
    lemma_links_cover(i.id, i.labels@);
    let links = upsert_links(Seq::empty(), i.id, i.labels@);
    let p = linked_to(i.id, links);
    assert forall|k: int| 0 <= k < i.labels@.len() implies #[trigger] p(i.labels@[k]) by {
        assert(links.contains(IssueLabelLink { issue_id: i.id, label_id: i.labels@[k].id }));
    }
    lemma_filter_keeps_all(i.labels@, p);
}

} // verus!
