use archive_af::model::{Property, PropertyType, QueuePosition};
use archive_af::git::{collect_history, queue_history};
use archive_af::read::QueueHistoryQuery;
use archive_af::write::write_and_commit_properties;

fn prop(id: u32, area: &str, desc: &str, size: &str, pos: Option<u32>, reserved: bool) -> Property {
    Property {
        id,
        property_type: PropertyType::Apartment,
        description: String::from(desc),
        short_description: String::from(desc),
        area: String::from(area),
        queue_position: QueuePosition { position: pos, total_in_queue: 40 },
        reserved,
        size_sqm: String::from(size),
    }
}

fn init_repo_with_root_commit(dir: &tempfile::TempDir, when: i64) -> git2::Repository {
    let repo = git2::Repository::init(dir.path()).unwrap();
    {
        let sig =
            git2::Signature::new("t", "t@example.com", &git2::Time::new(when, 0)).unwrap();
        let tree_id = repo.treebuilder(None).unwrap().write().unwrap();
        let tree = repo.find_tree(tree_id).unwrap();
        repo.commit(Some("HEAD"), &sig, &sig, "root", &tree, &[]).unwrap();
    }
    repo
}

#[test]
fn walker_visits_each_commit_of_a_merge_once() {
    let td = tempfile::tempdir().unwrap();
    let repo = git2::Repository::init(td.path()).unwrap();
    let sig = git2::Signature::new("t", "t@example.com", &git2::Time::new(1721253700, 0)).unwrap();
    let tree_id = repo.treebuilder(None).unwrap().write().unwrap();
    let tree = repo.find_tree(tree_id).unwrap();
    let c1 = repo.commit(Some("HEAD"), &sig, &sig, "one", &tree, &[]).unwrap();
    let c1c = repo.find_commit(c1).unwrap();
    let c2 = repo.commit(Some("HEAD"), &sig, &sig, "two", &tree, &[&c1c]).unwrap();
    let c3 = repo.commit(None, &sig, &sig, "three", &tree, &[&c1c]).unwrap();
    let c4 = repo
        .commit(
            Some("HEAD"),
            &sig,
            &sig,
            "merge",
            &tree,
            &[&repo.find_commit(c2).unwrap(), &repo.find_commit(c3).unwrap()],
        )
        .unwrap();
    let records = collect_history(&repo).unwrap();
    assert_eq!(records.len(), 4);
    let mut seen: Vec<Vec<u8>> = records.iter().map(|r| r.id.clone()).collect();
    seen.sort();
    seen.dedup();
    assert_eq!(seen.len(), 4, "every commit appears exactly once");
    for oid in [c1, c2, c3, c4] {
        assert!(
            records.iter().any(|r| r.id.as_slice() == oid.as_bytes()),
            "commit missing from the walk"
        );
    }
}

#[test]
fn identical_snapshot_written_twice_commits_once() {
    let td = tempfile::tempdir().unwrap();
    let repo = init_repo_with_root_commit(&td, 1721253601);
    let props = vec![prop(1, "Sparta", "a", "20", Some(5), false)];
    let first = write_and_commit_properties(&repo, &props, 1721253700).unwrap();
    assert!(first.committed);
    assert!(!first.pushed, "there is no remote to push to");
    let second = write_and_commit_properties(&repo, &props, 1721253800).unwrap();
    assert!(!second.committed, "an unchanged snapshot must not commit");
    let records = collect_history(&repo).unwrap();
    assert_eq!(records.len(), 2, "the root commit and exactly one snapshot commit");
}

#[test]
fn changed_snapshot_commits_and_replaces_stale_files() {
    let td = tempfile::tempdir().unwrap();
    let repo = init_repo_with_root_commit(&td, 1721253601);
    let first = write_and_commit_properties(
        &repo,
        &vec![prop(1, "A", "a", "20", Some(5), false)],
        1721253700,
    )
    .unwrap();
    assert!(first.committed);
    let second = write_and_commit_properties(
        &repo,
        &vec![prop(2, "B", "b", "30", Some(1), true)],
        1721253800,
    )
    .unwrap();
    assert!(second.committed);
    // writing the second set again changes nothing: the stale file of the
    // first entity is already gone
    let third = write_and_commit_properties(
        &repo,
        &vec![prop(2, "B", "b", "30", Some(1), true)],
        1721253900,
    )
    .unwrap();
    assert!(!third.committed);
    let chart = queue_history(&repo, &QueueHistoryQuery { max: None }).unwrap();
    assert_eq!(chart.categories, vec![1721253700, 1721253800]);
    let a = chart.series.iter().find(|s| s.name.starts_with("A;")).unwrap();
    assert_eq!(a.data, vec![Some(5), None]);
    let b = chart.series.iter().find(|s| s.name.starts_with("B;")).unwrap();
    assert_eq!(b.data, vec![None, Some(1)]);
}

#[test]
fn writing_without_a_head_commit_fails() {
    let td = tempfile::tempdir().unwrap();
    let repo = git2::Repository::init(td.path()).unwrap();
    let r = write_and_commit_properties(&repo, &vec![prop(1, "A", "a", "20", None, false)], 1);
    let e = r.expect_err("a repository without a head commit cannot take a snapshot");
    assert!(!e.message.is_empty());
}

#[test]
fn empty_repository_yields_empty_chart() {
    let td = tempfile::tempdir().unwrap();
    let repo = git2::Repository::init(td.path()).unwrap();
    let chart = queue_history(&repo, &QueueHistoryQuery { max: None }).unwrap();
    assert_eq!(chart.categories.len(), 0);
    assert_eq!(chart.series.len(), 0);
}

#[test]
fn history_read_through_the_repository() {
    let td = tempfile::tempdir().unwrap();
    let repo = init_repo_with_root_commit(&td, 1721253601);
    write_and_commit_properties(
        &repo,
        &vec![prop(1, "A", "a", "20", Some(5), false)],
        1721253700,
    )
    .unwrap();
    write_and_commit_properties(
        &repo,
        &vec![
            prop(1, "A", "a", "20", Some(3), false),
            prop(2, "B", "b", "30", Some(1), true),
        ],
        1721253800,
    )
    .unwrap();
    let chart = queue_history(&repo, &QueueHistoryQuery { max: None }).unwrap();
    assert_eq!(chart.categories, vec![1721253700, 1721253800]);
    assert_eq!(chart.series.len(), 2);
    assert_eq!(chart.series[0].name, "A; a (20 kvm)");
    assert_eq!(chart.series[0].data, vec![Some(5), Some(3)]);
    assert_eq!(chart.series[0].color, "#00000020");
    assert_eq!(chart.series[1].name, "B; b (30 kvm) \u{2705}");
    assert_eq!(chart.series[1].data, vec![None, Some(1)]);
    assert_eq!(chart.series[1].color, "#ff000080");
    // the same query again returns byte-identical output
    let again = queue_history(&repo, &QueueHistoryQuery { max: None }).unwrap();
    assert_eq!(chart, again);
}

#[test]
fn user_info_normalisation() {
    let info = archive_af::user::UserInfo {
        email: String::from("a@example.com"),
        personalnumber: None,
        firstname: String::from("Alva"),
        lastname: String::from("Larsson"),
        street: String::from("Gatan 1"),
        postalcode: String::from("22100"),
        city: String::from("Lund"),
        county: String::from("Sk\u{e5}ne"),
        country: String::from("Sverige"),
        mobilephone: String::from("0700000000"),
        startyear: String::from("2021"),
        startsemester: String::from("HT"),
        dateofbirth: String::from("19991231-1234"),
    };
    let user = info.into_user();
    assert_eq!(user.start_year, Some(2021));
    assert_eq!(
        user.date_of_birth,
        Some(archive_af::user::DateYmd { year: 1999, month: 12, day: 31 })
    );
    assert_eq!(user.address.city, "Lund");
}

#[test]
fn duplicate_entities_in_one_set_still_write_idempotently() {
    let td = tempfile::tempdir().unwrap();
    let repo = init_repo_with_root_commit(&td, 1721253601);
    // two entities naming the same file: the later one wins, and writing
    // the same set again must still be a no-op
    let props = vec![
        prop(1, "A", "a", "20", Some(5), false),
        prop(1, "A", "a", "20", Some(7), false),
    ];
    let first = write_and_commit_properties(&repo, &props, 1721253700).unwrap();
    assert!(first.committed);
    let second = write_and_commit_properties(&repo, &props, 1721253800).unwrap();
    assert!(!second.committed, "an unchanged snapshot must not commit");
    let chart = queue_history(&repo, &QueueHistoryQuery { max: None }).unwrap();
    let a = chart.series.iter().find(|s| s.name.starts_with("A;")).unwrap();
    assert_eq!(a.data, vec![Some(7)], "the last write for a name wins");
}

#[test]
fn report_lists_unreadable_archive_files() {
    let td = tempfile::tempdir().unwrap();
    let repo = init_repo_with_root_commit(&td, 1721253601);
    write_and_commit_properties(
        &repo,
        &vec![prop(1, "A", "a", "20", Some(5), false)],
        1721253700,
    )
    .unwrap();
    let rep =
        archive_af::git::queue_history_report(&repo, &QueueHistoryQuery { max: None }).unwrap();
    assert_eq!(rep.skipped.len(), 0);
    assert_eq!(rep.chart.categories, vec![1721253700]);
}
