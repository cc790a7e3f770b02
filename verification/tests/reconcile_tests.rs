use rmg_tool::catalog::VersionMap;
use rmg_tool::diff::migration_diff;
use rmg_tool::migration::{migration_files, Migration, MigrationStatus};
use rmg_tool::reconcile::{holds, reconcile_status, reconcile_target, NO_FILE};

fn versions(items: &[&str]) -> Vec<String> {
    items.iter().map(|s| s.to_string()).collect()
}

fn added_versions(items: &[(&str, &str)]) -> VersionMap<String> {
    let mut m = VersionMap::new();
    for (version, description) in items.iter() {
        m.insert(version.to_string(), description.to_string());
    }
    m
}

fn catalog(items: &[(&str, &str)]) -> VersionMap<Migration> {
    let mut m = VersionMap::new();
    for (version, description) in items.iter() {
        m.insert(
            version.to_string(),
            Migration {
                version: version.to_string(),
                description: description.to_string(),
                status: MigrationStatus::Down,
            },
        );
    }
    m
}

fn entries(report: &VersionMap<Migration>) -> Vec<Migration> {
    let mut all = Vec::new();
    for i in 0..report.len() {
        assert_eq!(report.key_at(i), &report.value_at(i).version);
        all.push(report.value_at(i).clone());
    }
    all
}

fn migration(version: &str, description: &str, status: MigrationStatus) -> Migration {
    Migration { version: version.to_string(), description: description.to_string(), status }
}

#[test]
fn holds_finds_a_member() {
    let list = versions(&["001", "002"]);
    assert!(holds(&list, "001"));
    assert!(holds(&list, "002"));
    assert!(!holds(&list, "003"));
    assert!(!holds(&list, "00"));
    assert!(!holds(&Vec::new(), "001"));
}

#[test]
fn applied_version_without_a_file_is_reported_as_no_file() {
    let report = reconcile_status(catalog(&[("001", "Create users")]), &versions(&["001", "999"]));
    assert_eq!(
        entries(&report),
        vec![
            migration("001", "Create users", MigrationStatus::Up),
            migration("999", "NO FILE", MigrationStatus::Up),
        ]
    );
}

#[test]
fn no_file_description_is_the_sentinel() {
    assert_eq!(NO_FILE, "NO FILE");
}

#[test]
fn status_keeps_unapplied_files_down() {
    let report = reconcile_status(
        catalog(&[("003", "Three"), ("001", "One"), ("002", "Two")]),
        &versions(&["002"]),
    );
    assert_eq!(
        entries(&report),
        vec![
            migration("001", "One", MigrationStatus::Down),
            migration("002", "Two", MigrationStatus::Up),
            migration("003", "Three", MigrationStatus::Down),
        ]
    );
}

#[test]
fn status_is_sorted_ascending_whatever_the_order_of_the_inputs() {
    let report = reconcile_status(
        catalog(&[("20230315", "C"), ("20220601", "A")]),
        &versions(&["20230101", "20210101", "20220601"]),
    );
    assert_eq!(
        entries(&report),
        vec![
            migration("20210101", "NO FILE", MigrationStatus::Up),
            migration("20220601", "A", MigrationStatus::Up),
            migration("20230101", "NO FILE", MigrationStatus::Up),
            migration("20230315", "C", MigrationStatus::Down),
        ]
    );
}

#[test]
fn status_with_nothing_applied_is_the_catalog() {
    let report = reconcile_status(catalog(&[("2", "Two"), ("1", "One")]), &Vec::new());
    assert_eq!(
        entries(&report),
        vec![migration("1", "One", MigrationStatus::Down), migration("2", "Two", MigrationStatus::Down)]
    );
}

#[test]
fn status_of_nothing_is_empty() {
    let report = reconcile_status(VersionMap::new(), &Vec::new());
    assert_eq!(report.len(), 0);
}

#[test]
fn status_counts_a_repeated_applied_version_once() {
    let report = reconcile_status(catalog(&[("1", "One")]), &versions(&["9", "1", "9", "1"]));
    assert_eq!(
        entries(&report),
        vec![migration("1", "One", MigrationStatus::Up), migration("9", "NO FILE", MigrationStatus::Up)]
    );
}

#[test]
fn status_reconciliation_is_repeatable() {
    let names = versions(&["20230315_add_posts.rb", "20220601_create_users.rb", "x.txt"]);
    let applied = versions(&["20220601", "20190101"]);
    let first = reconcile_status(migration_files(&names), &applied);
    let second = reconcile_status(migration_files(&names), &applied);
    assert_eq!(entries(&first), entries(&second));
    assert_eq!(first.len(), 3);
}

#[test]
fn status_reconciliation_of_its_own_result_changes_nothing() {
    let applied = versions(&["2", "7"]);
    let first = reconcile_status(catalog(&[("1", "One"), ("2", "Two")]), &applied);
    let expected = entries(&first);
    let second = reconcile_status(first, &applied);
    assert_eq!(entries(&second), expected);
}

#[test]
fn target_is_the_intersection_in_ascending_order() {
    let applied = versions(&["20230315", "20220601", "20230101", "20200101"]);
    let added = added_versions(&[
        ("20230101", "b"),
        ("20240101", "d"),
        ("20230315", "c"),
        ("20220601", "a"),
    ]);
    assert_eq!(reconcile_target(&applied, &added), versions(&["20220601", "20230101", "20230315"]));
}

#[test]
fn target_holds_a_version_at_most_once() {
    let applied = versions(&["7", "3", "7", "7", "3"]);
    let added = added_versions(&[("7", "first"), ("3", "three"), ("7", "again")]);
    assert_eq!(reconcile_target(&applied, &added), versions(&["3", "7"]));
}

#[test]
fn target_holds_a_version_of_both_a_file_and_the_diff_once() {
    let files = migration_files(&versions(&["7_seven.rb", "8_eight.rb"]));
    let added = migration_diff(true, "A\tdb/migrate/7_seven.rb\nA\tdb/migrate/7_seven.rb\n");
    let applied = versions(&["7", "8"]);
    assert!(files.contains_key("7"));
    assert_eq!(reconcile_target(&applied, &added), versions(&["7"]));
}

#[test]
fn target_does_not_depend_on_the_order_of_the_applied_versions() {
    let added = added_versions(&[("1", "a"), ("2", "b"), ("3", "c")]);
    let one = reconcile_target(&versions(&["3", "1", "2"]), &added);
    let other = reconcile_target(&versions(&["2", "3", "1"]), &added);
    assert_eq!(one, other);
    assert_eq!(one, versions(&["1", "2", "3"]));
}

#[test]
fn target_of_disjoint_sets_is_empty() {
    let added = added_versions(&[("003", "c")]);
    assert_eq!(reconcile_target(&versions(&["001", "002"]), &added), Vec::<String>::new());
}

#[test]
fn target_of_empty_inputs_is_empty() {
    assert_eq!(reconcile_target(&Vec::new(), &added_versions(&[("1", "a")])), Vec::<String>::new());
    assert_eq!(reconcile_target(&versions(&["1"]), &VersionMap::new()), Vec::<String>::new());
}
