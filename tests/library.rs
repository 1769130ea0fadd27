use issue_hunter::entity::{escape_sql_string, Issue, IssueLabelLink, IssueRow, Label, Repo, User};
use issue_hunter::error::{check_status, HunterError};
use issue_hunter::pattern::like_match;
use issue_hunter::sql::{
    issue_delete_sql, issue_insert_sql, issue_insert_sql_at, label_insert_sql, link_insert_sql,
    repo_delete_sql, repo_insert_sql, repo_issues_delete_sql, user_insert_sql,
};
use issue_hunter::store::{IssueQuery, Store};
use issue_hunter::row::{
    issue_row_from_tuple, label_from_tuple, link_from_tuple, repo_from_tuple, user_from_tuple, Tuple,
    Value,
};
use issue_hunter::sync::{cutoff_for, SyncAction, SyncState};

const DAY: i64 = 86_400;
const DAY0: i64 = 1_700_006_400;

fn repo(owner: &str, name: &str) -> Repo {
    Repo::new(owner.to_string(), name.to_string())
}

fn label(id: u64, name: &str, description: Option<&str>) -> Label {
    Label { id, name: name.to_string(), description: description.map(|d| d.to_string()) }
}

fn issue(id: u64, repo_name: &str, title: &str, created_at: i64, labels: Vec<Label>) -> Issue {
    Issue {
        id,
        number: id + 100,
        title: title.to_string(),
        state: "open".to_string(),
        repo_name: repo_name.to_string(),
        user: User { id: 7, login: "alice".to_string() },
        labels,
        created_at,
    }
}

fn query_all() -> IssueQuery {
    IssueQuery { repo_name: None, created_after: None, label_name: None, page: 1, page_size: 100 }
}

fn ids(rows: &[IssueRow]) -> Vec<u64> {
    rows.iter().map(|r| r.id).collect()
}

fn chars(s: &str) -> Vec<char> {
    s.chars().collect()
}

#[test]
fn escape_doubles_quotes() {
    assert_eq!(escape_sql_string("it's"), "it''s");
    assert_eq!(escape_sql_string("'; drop table issues; --"), "''; drop table issues; --");
    assert_eq!(escape_sql_string(""), "");
    assert_eq!(escape_sql_string("plain"), "plain");
}

#[test]
fn full_name_joins_owner_and_name() {
    assert_eq!(repo("octo", "demo").full_name(), "octo/demo");
}

#[test]
fn status_outside_2xx_is_remote_error() {
    assert_eq!(check_status(200), Ok(()));
    assert_eq!(check_status(204), Ok(()));
    assert_eq!(check_status(404), Err(HunterError::Remote(404)));
    assert_eq!(check_status(301), Err(HunterError::Remote(301)));
}

#[test]
fn like_patterns() {
    assert!(like_match(&chars("octo/%"), &chars("octo/demo")));
    assert!(like_match(&chars("%demo"), &chars("octo/demo")));
    assert!(like_match(&chars("octo/d_mo"), &chars("octo/demo")));
    assert!(!like_match(&chars("octo/_"), &chars("octo/demo")));
    assert!(!like_match(&chars("other/%"), &chars("octo/demo")));
    assert!(like_match(&chars("octo/demo"), &chars("octo/demo")));
}

#[test]
fn upsert_same_id_keeps_latest() {
    let mut store = Store::new();
    store.insert_issue(issue(1, "octo/demo", "first", DAY0, vec![]));
    let mut again = issue(1, "octo/demo", "second", DAY0, vec![]);
    again.state = "closed".to_string();
    store.insert_issue(again);
    let rows = store.fetch_issues(&query_all()).unwrap();
    assert_eq!(rows.len(), 1);
    assert_eq!(rows[0].title, "second");
    assert_eq!(rows[0].state, "closed");
}

#[test]
fn removing_repo_cascades_to_its_issues() {
    let mut store = Store::new();
    store.add_repo(repo("octo", "demo"));
    store.add_repo(repo("octo", "other"));
    store.insert_issue(issue(1, "octo/demo", "a", DAY0, vec![]));
    store.insert_issue(issue(2, "octo/demo", "b", DAY0 - DAY, vec![]));
    store.insert_issue(issue(3, "octo/other", "c", DAY0, vec![]));
    store.delete_repo(&repo("octo", "demo"));
    let rows = store.fetch_issues(&query_all()).unwrap();
    assert_eq!(ids(&rows), vec![3]);
    let repos = store.repos();
    assert_eq!(repos.len(), 1);
    assert_eq!(repos[0].name, "other");
}

#[test]
fn adding_repo_twice_keeps_one_row() {
    let mut store = Store::new();
    store.add_repo(repo("octo", "demo"));
    store.add_repo(repo("octo", "demo"));
    assert_eq!(store.repos().len(), 1);
}

#[test]
fn pages_concatenate_to_full_listing() {
    let mut store = Store::new();
    for id in 1..=5u64 {
        store.insert_issue(issue(id, "octo/demo", "t", DAY0 + (id as i64) * 60, vec![]));
    }
    let full = store.fetch_issues(&query_all()).unwrap();
    assert_eq!(ids(&full), vec![5, 4, 3, 2, 1]);
    let mut joined = Vec::new();
    for page in 1..=3usize {
        let q = IssueQuery { page, page_size: 2, ..query_all() };
        joined.extend(ids(&store.fetch_issues(&q).unwrap()));
    }
    assert_eq!(joined, vec![5, 4, 3, 2, 1]);
    let beyond = IssueQuery { page: 4, page_size: 2, ..query_all() };
    assert!(store.fetch_issues(&beyond).unwrap().is_empty());
}

#[test]
fn page_offset_is_one_indexed() {
    let mut store = Store::new();
    for id in 1..=3u64 {
        store.insert_issue(issue(id, "octo/demo", "t", DAY0 + (id as i64), vec![]));
    }
    let q = IssueQuery { page: 2, page_size: 1, ..query_all() };
    assert_eq!(ids(&store.fetch_issues(&q).unwrap()), vec![2]);
}

#[test]
fn label_filter_returns_linked_issues() {
    let mut store = Store::new();
    store.insert_issue(issue(1, "octo/demo", "a", DAY0, vec![label(10, "bug", None)]));
    store.insert_issue(issue(2, "octo/demo", "b", DAY0 + 1, vec![label(11, "docs", Some("words"))]));
    store.insert_issue(issue(
        3,
        "octo/demo",
        "c",
        DAY0 + 2,
        vec![label(10, "bug", None), label(11, "docs", Some("words"))],
    ));
    let q = IssueQuery { label_name: Some("bug".to_string()), ..query_all() };
    let mut got = ids(&store.fetch_issues(&q).unwrap());
    got.sort();
    assert_eq!(got, vec![1, 3]);
}

#[test]
fn unknown_label_is_not_found() {
    let mut store = Store::new();
    store.insert_issue(issue(1, "octo/demo", "a", DAY0, vec![label(10, "bug", None)]));
    let q = IssueQuery { label_name: Some("feature".to_string()), ..query_all() };
    assert_eq!(store.fetch_issues(&q).err(), Some(HunterError::NotFound));
}

#[test]
fn filters_by_repo_pattern_and_time() {
    let mut store = Store::new();
    store.insert_issue(issue(1, "octo/demo", "a", DAY0, vec![]));
    store.insert_issue(issue(2, "octo/other", "b", DAY0, vec![]));
    store.insert_issue(issue(3, "octo/demo", "c", DAY0 - 2 * DAY, vec![]));
    let q = IssueQuery { repo_name: Some("%demo".to_string()), ..query_all() };
    assert_eq!(ids(&store.fetch_issues(&q).unwrap()), vec![1, 3]);
    let q = IssueQuery { created_after: Some(DAY0 - DAY), ..query_all() };
    let mut got = ids(&store.fetch_issues(&q).unwrap());
    got.sort();
    assert_eq!(got, vec![1, 2]);
    let q = IssueQuery { created_after: Some(DAY0), ..query_all() };
    assert!(store.fetch_issues(&q).unwrap().is_empty());
}

#[test]
fn written_issue_reads_back() {
    let mut store = Store::new();
    let labels = vec![label(10, "bug", None), label(11, "docs", Some("words"))];
    store.insert_issue(issue(1, "octo/demo", "it's broken", DAY0 + 5, labels));
    let rows = store.fetch_issues(&query_all()).unwrap();
    let back = store.load_issue(&rows[0]).unwrap();
    assert_eq!(back.id, 1);
    assert_eq!(back.number, 101);
    assert_eq!(back.title, "it's broken");
    assert_eq!(back.state, "open");
    assert_eq!(back.repo_name, "octo/demo");
    assert_eq!(back.user.id, 7);
    assert_eq!(back.user.login, "alice");
    assert_eq!(back.created_at, DAY0 + 5);
    assert_eq!(back.labels.len(), 2);
    assert_eq!(back.labels[0].name, "bug");
    assert_eq!(back.labels[0].description, None);
    assert_eq!(back.labels[1].description, Some("words".to_string()));
}

#[test]
fn missing_author_is_not_found() {
    let store = Store::new();
    assert_eq!(store.load_user(9).err(), Some(HunterError::NotFound));
}

#[test]
fn deleting_issue_drops_row_and_links() {
    let mut store = Store::new();
    store.insert_issue(issue(1, "octo/demo", "a", DAY0, vec![label(10, "bug", None)]));
    store.insert_issue(issue(2, "octo/demo", "b", DAY0, vec![label(10, "bug", None)]));
    store.delete_issue(1);
    assert_eq!(ids(&store.fetch_issues(&query_all()).unwrap()), vec![2]);
    assert!(store.load_labels(1).is_empty());
    assert_eq!(store.load_labels(2).len(), 1);
}

#[test]
fn sync_example_stops_after_one_page() {
    let mut store = Store::new();
    let demo = repo("octo", "demo");
    store.add_repo(demo.copy());
    let mut state = SyncState::start(DAY0 - DAY);
    let mut fetched = Vec::new();
    loop {
        match state.next_action() {
            SyncAction::Finish => break,
            SyncAction::Fetch(page) => {
                fetched.push(page);
                let items = if page == 1 {
                    vec![issue(1, "", "new", DAY0, vec![]), issue(2, "", "old", DAY0 - 3 * DAY, vec![])]
                } else {
                    vec![issue(3, "", "older", DAY0 - 9 * DAY, vec![])]
                };
                store.sync_page(&demo, items, &mut state);
            }
        }
    }
    assert_eq!(fetched, vec![1]);
    let rows = store.fetch_issues(&query_all()).unwrap();
    assert_eq!(ids(&rows), vec![1, 2]);
    assert!(rows.iter().all(|r| r.repo_name == "octo/demo"));
}

#[test]
fn sync_goes_on_until_page_minimum_reaches_cutoff() {
    let mut store = Store::new();
    let demo = repo("octo", "demo");
    let cutoff = DAY0 - 5 * DAY;
    let pages: Vec<Vec<i64>> = vec![
        vec![DAY0, DAY0 - DAY],
        vec![DAY0 - 2 * DAY, DAY0 - 4 * DAY],
        vec![DAY0 - 5 * DAY, DAY0 - 6 * DAY],
        vec![DAY0 - 7 * DAY],
    ];
    let mut state = SyncState::start(cutoff);
    let mut next_id = 1u64;
    let mut fetched = 0;
    while let SyncAction::Fetch(page) = state.next_action() {
        fetched += 1;
        let items = pages[(page - 1) as usize]
            .iter()
            .map(|t| {
                next_id += 1;
                issue(next_id, "", "t", *t, vec![])
            })
            .collect();
        store.sync_page(&demo, items, &mut state);
    }
    assert_eq!(fetched, 3);
    assert_eq!(store.fetch_issues(&query_all()).unwrap().len(), 6);
}

#[test]
fn sync_stops_on_empty_page() {
    let mut state = SyncState::start(0);
    let mut store = Store::new();
    store.sync_page(&repo("octo", "demo"), vec![], &mut state);
    assert!(matches!(state.next_action(), SyncAction::Finish));
    assert_eq!(state.oldest_seen, None);
}

fn tuple(cells: Vec<(&str, Value)>) -> Tuple {
    let mut columns = Vec::new();
    let mut values = Vec::new();
    for (c, v) in cells {
        columns.push(c.to_string());
        values.push(v);
    }
    Tuple { columns, values }
}

#[test]
fn issue_row_maps_by_column_name() {
    let t = tuple(vec![
        ("created_at", Value::Time(DAY0)),
        ("title", Value::Text("t".to_string())),
        ("id", Value::UInt(4)),
        ("user_id", Value::UInt(7)),
        ("state", Value::Text("open".to_string())),
        ("number", Value::UInt(40)),
        ("repo_name", Value::Text("octo/demo".to_string())),
    ]);
    let row = issue_row_from_tuple(&t).unwrap();
    assert_eq!(row.id, 4);
    assert_eq!(row.number, 40);
    assert_eq!(row.title, "t");
    assert_eq!(row.state, "open");
    assert_eq!(row.repo_name, "octo/demo");
    assert_eq!(row.user_id, 7);
    assert_eq!(row.created_at, DAY0);
}

#[test]
fn missing_or_mistyped_column_is_mapping_error() {
    let missing = tuple(vec![("id", Value::UInt(1))]);
    assert_eq!(user_from_tuple(&missing).err(), Some(HunterError::Mapping));
    let mistyped = tuple(vec![("id", Value::Text("1".to_string())), ("login", Value::Text("a".to_string()))]);
    assert_eq!(user_from_tuple(&mistyped).err(), Some(HunterError::Mapping));
    let good = tuple(vec![("login", Value::Text("a".to_string())), ("id", Value::UInt(1))]);
    let u = user_from_tuple(&good).unwrap();
    assert_eq!((u.id, u.login.as_str()), (1, "a"));
}

#[test]
fn label_description_may_be_null() {
    let t = tuple(vec![("id", Value::UInt(3)), ("name", Value::Text("bug".to_string())), ("description", Value::Null)]);
    let l = label_from_tuple(&t).unwrap();
    assert_eq!((l.id, l.name.as_str(), l.description), (3, "bug", None));
    let t = tuple(vec![("issue_id", Value::UInt(1)), ("label_id", Value::UInt(3))]);
    let link = link_from_tuple(&t).unwrap();
    assert_eq!((link.issue_id, link.label_id), (1, 3));
    let t = tuple(vec![("owner_name", Value::Text("octo".to_string())), ("name", Value::Text("demo".to_string()))]);
    assert_eq!(repo_from_tuple(&t).unwrap().full_name(), "octo/demo");
}

#[test]
fn cutoff_defaults_to_start_of_utc_day() {
    assert_eq!(cutoff_for(Some(12345), DAY0 + 100), Some(12345));
    assert_eq!(cutoff_for(None, DAY0 + 3_723), Some(DAY0));
    assert_eq!(cutoff_for(None, DAY0), Some(DAY0));
    assert_eq!(cutoff_for(None, -1), Some(-DAY));
}

#[test]
fn deleting_user_label_and_link() {
    let mut store = Store::new();
    store.insert_issue(issue(1, "octo/demo", "a", DAY0, vec![label(10, "bug", None), label(11, "docs", None)]));
    store.delete_link(IssueLabelLink { issue_id: 1, label_id: 10 });
    let names: Vec<String> = store.load_labels(1).into_iter().map(|l| l.name).collect();
    assert_eq!(names, vec!["docs".to_string()]);
    store.delete_label(11);
    assert!(store.load_labels(1).is_empty());
    store.delete_user(7);
    assert_eq!(store.load_user(7).err(), Some(HunterError::NotFound));
}

fn stored_row() -> IssueRow {
    IssueRow {
        id: 12,
        number: 3045,
        title: "Don't crash".to_string(),
        state: "open".to_string(),
        repo_name: "octo/demo".to_string(),
        user_id: 90,
        created_at: DAY0 + 3_723,
    }
}

#[test]
fn issue_statement_escapes_and_formats_time() {
    assert_eq!(
        issue_insert_sql(&stored_row()).unwrap(),
        "insert overwrite issues values(12, 3045, 'Don''t crash', 'open', 'octo/demo', 90, '2023-11-15 01:02:03');"
    );
    assert_eq!(
        issue_insert_sql_at(&stored_row(), "x"),
        "insert overwrite issues values(12, 3045, 'Don''t crash', 'open', 'octo/demo', 90, 'x');"
    );
}

#[test]
fn repo_statements() {
    let r = repo("o'ct", "demo");
    assert_eq!(repo_insert_sql(&r), "insert overwrite repos values('o''ct', 'demo');");
    assert_eq!(repo_delete_sql(&r), "delete from repos where owner_name = 'o''ct' and name = 'demo';");
    assert_eq!(repo_issues_delete_sql(&r), "delete from issues where repo_name = 'o''ct/demo';");
}

#[test]
fn user_label_and_link_statements() {
    let u = User { id: 0, login: "bob".to_string() };
    assert_eq!(user_insert_sql(&u), "insert overwrite users values(0, 'bob');");
    assert_eq!(
        label_insert_sql(&label(18446744073709551615, "won't fix", Some("it's fine"))),
        "insert overwrite labels values(18446744073709551615, 'won''t fix', 'it''s fine');"
    );
    assert_eq!(label_insert_sql(&label(5, "bug", None)), "insert overwrite labels values(5, 'bug', null);");
    assert_eq!(
        link_insert_sql(IssueLabelLink { issue_id: 1, label_id: 20 }),
        "insert overwrite issue_labels values(1, 20);"
    );
    let (a, b) = issue_delete_sql(907);
    assert_eq!(a, "delete from issues where id = 907;");
    assert_eq!(b, "delete from issue_labels where issue_id = 907;");
}
