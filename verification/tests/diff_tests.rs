use rmg_tool::diff::{added_migration, migration_diff};

#[test]
fn diff_reads_added_migration_files() {
    let out = "A\tdb/migrate/20230101_create_users.rb\nA\tdb/migrate/20230315_add_posts.rb\n";
    let added = migration_diff(true, out);
    assert_eq!(added.len(), 2);
    assert_eq!(added.get("20230101"), Some(&"Create users".to_string()));
    assert_eq!(added.get("20230315"), Some(&"Add posts".to_string()));
}

#[test]
fn diff_ignores_lines_that_do_not_match() {
    let listing = vec![
        "M\tdb/migrate/20230101_create_users.rb",
        "D\tdb/migrate/20230102_drop_users.rb",
        "R100\tdb/migrate/20230103_a.rb\tdb/migrate/20230104_b.rb",
        "A\tapp/models/user.rb",
        "A\tlib/db/migrate_helper.rb",
        "A\tdb/migrate/README.md",
        "A\tdb/migrate/create_users.rb",
        "",
        "A\tdb/migrate/20230105_add_email.rb",
        " A\tdb/migrate/20230106_indented.rb",
        "Adb/migrate/20230107_no_space.rb",
        "a\tdb/migrate/20230108_lower_case.rb",
    ];
    let added = migration_diff(true, &listing.join("\n"));
    assert_eq!(added.len(), 1);
    assert_eq!(added.key_at(0), "20230105");
    assert_eq!(added.value_at(0), "Add email");
}

#[test]
fn diff_of_a_failed_run_is_empty() {
    let out = "A\tdb/migrate/20230101_create_users.rb\n";
    assert_eq!(migration_diff(false, out).len(), 0);
    assert_eq!(migration_diff(false, "").len(), 0);
}

#[test]
fn diff_of_empty_output_is_empty() {
    assert_eq!(migration_diff(true, "").len(), 0);
}

#[test]
fn diff_keeps_the_later_of_two_lines_with_one_version() {
    let out = "A\tdb/migrate/1_first.rb\nA\tdb/migrate/1_second.rb\n";
    let added = migration_diff(true, out);
    assert_eq!(added.len(), 1);
    assert_eq!(added.get("1"), Some(&"Second".to_string()));
}

#[test]
fn diff_accepts_any_white_space_after_the_status() {
    let out = "A   db/migrate/7_seven.rb\r\nA \t db/migrate/8_eight.rb";
    let added = migration_diff(true, out);
    assert_eq!(added.len(), 2);
    assert_eq!(added.get("7"), Some(&"Seven".to_string()));
    assert_eq!(added.get("8"), Some(&"Eight".to_string()));
}

#[test]
fn diff_is_sorted_whatever_the_order_of_the_lines() {
    let out = "A\tdb/migrate/30_c.rb\nA\tdb/migrate/10_a.rb\nA\tdb/migrate/20_b.rb\n";
    let added = migration_diff(true, out);
    assert_eq!(added.key_at(0), "10");
    assert_eq!(added.key_at(1), "20");
    assert_eq!(added.key_at(2), "30");
}

#[test]
fn added_migration_describes_the_name() {
    let groups = Some(vec![
        Some("A\tdb/migrate/5_add_x.rb".to_string()),
        Some("5".to_string()),
        Some("add_x".to_string()),
    ]);
    assert_eq!(added_migration(&groups), Some(("5".to_string(), "Add x".to_string())));
    assert_eq!(added_migration(&None), None);
}
