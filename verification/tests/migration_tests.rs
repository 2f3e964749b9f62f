use nuvix::migration::{
    checksum_hex, hex_encode, migration_file, migration_file_name, migration_states,
    normalize_name, parse_i64, parse_migration_filename, resolve_migrations_dir,
    resolve_schema_snapshot_path, sort_migrations, state_counts, AppliedMigration,
    MigrationFile, MigrationNameError, MigrationState,
};
use nuvix::migration::new_migration_file_name;

fn file(version: i64, name: &str, path: &str) -> MigrationFile {
    MigrationFile {
        version,
        name: name.to_string(),
        path: path.to_string(),
        sql: String::new(),
        checksum: String::new(),
    }
}

#[test]
fn normalize_name_collapses_to_identifier() {
    assert_eq!(normalize_name("  Add Users Table! "), "add_users_table");
    assert_eq!(normalize_name("__a--b__"), "a_b");
    assert_eq!(normalize_name("!!!"), "");
}

#[test]
fn migration_file_name_joins_stamp_and_normalized_name() {
    assert_eq!(
        migration_file_name("20240102030405", "Create Posts").unwrap(),
        "20240102030405_create_posts.sql"
    );
}

#[test]
fn migration_file_name_refuses_empty_name() {
    assert_eq!(
        migration_file_name("20240102030405", " ?? "),
        Err(MigrationNameError::EmptyName)
    );
}

#[test]
fn parse_i64_matches_std() {
    for s in [
        "0",
        "42",
        "-42",
        "+7",
        "9223372036854775807",
        "-9223372036854775808",
        "9223372036854775808",
        "-9223372036854775809",
        "",
        "-",
        "+",
        "1a",
        " 1",
        "00012",
        "99999999999999999999",
    ] {
        assert_eq!(parse_i64(s), s.parse::<i64>().ok(), "input {:?}", s);
    }
}

#[test]
fn parse_migration_filename_reads_version_and_name() {
    assert_eq!(
        parse_migration_filename("20240101000000_init_schema.sql").unwrap(),
        (20240101000000, "init_schema".to_string())
    );
    assert_eq!(
        parse_migration_filename("-5_negative.sql").unwrap(),
        (-5, "negative".to_string())
    );
    assert_eq!(
        parse_migration_filename("+7_plus.sql").unwrap(),
        (7, "plus".to_string())
    );
    assert_eq!(
        parse_migration_filename("1_a_b.sql").unwrap(),
        (1, "a_b".to_string())
    );
}

#[test]
fn parse_migration_filename_errors() {
    assert_eq!(
        parse_migration_filename("1_init.txt"),
        Err(MigrationNameError::InvalidExtension)
    );
    assert_eq!(
        parse_migration_filename("init.sql"),
        Err(MigrationNameError::InvalidFormat)
    );
    assert_eq!(
        parse_migration_filename("_init.sql"),
        Err(MigrationNameError::InvalidFormat)
    );
    assert_eq!(
        parse_migration_filename("1_.sql"),
        Err(MigrationNameError::InvalidFormat)
    );
    assert_eq!(
        parse_migration_filename("v1_init.sql"),
        Err(MigrationNameError::VersionNotBigint)
    );
    assert_eq!(
        parse_migration_filename("9223372036854775808_big.sql"),
        Err(MigrationNameError::VersionNotBigint)
    );
}

#[test]
fn new_migration_reads_back() {
    let stamp = "20250101120000";
    let f = migration_file_name(stamp, "Add  Index").unwrap();
    assert_eq!(
        parse_migration_filename(&f).unwrap(),
        (20250101120000, "add_index".to_string())
    );
}

#[test]
fn hex_encode_is_lowercase_two_digits_per_byte() {
    assert_eq!(hex_encode(&[0x00, 0xff, 0x1a, 0x09]), "00ff1a09");
    assert_eq!(hex_encode(&[]), "");
}

#[test]
fn checksum_hex_is_sha256() {
    assert_eq!(
        checksum_hex(b""),
        "e3b0c44298fc1c149afbf4c8996fb92427ae41e4649b934ca495991b7852b855"
    );
    assert_eq!(
        checksum_hex(b"abc"),
        "ba7816bf8f01cfea414140de5dae2223b00361a396177a9cb410ff61f20015ad"
    );
}

#[test]
fn migration_file_builds_from_name_and_text() {
    let m = migration_file(
        "3_seed.sql",
        "/p/3_seed.sql".to_string(),
        "abc".to_string(),
    )
    .ok()
    .unwrap();
    assert_eq!(m.version, 3);
    assert_eq!(m.name, "seed");
    assert_eq!(m.path, "/p/3_seed.sql");
    assert_eq!(m.sql, "abc");
    assert_eq!(
        m.checksum,
        "ba7816bf8f01cfea414140de5dae2223b00361a396177a9cb410ff61f20015ad"
    );
    assert!(matches!(
        migration_file("seed.sql", String::new(), String::new()),
        Err(MigrationNameError::InvalidFormat)
    ));
}

#[test]
fn sort_migrations_orders_by_version_then_name() {
    let sorted = sort_migrations(vec![
        file(3, "c", "p1"),
        file(1, "b", "p2"),
        file(2, "a", "p3"),
        file(1, "a", "p4"),
        file(-1, "z", "p5"),
    ]);
    let keys: Vec<(i64, String)> = sorted.iter().map(|m| (m.version, m.name.clone())).collect();
    assert_eq!(
        keys,
        vec![
            (-1, "z".to_string()),
            (1, "a".to_string()),
            (1, "b".to_string()),
            (2, "a".to_string()),
            (3, "c".to_string()),
        ]
    );
}

#[test]
fn sort_migrations_keeps_order_of_equal_keys() {
    let sorted = sort_migrations(vec![
        file(1, "x", "first"),
        file(0, "y", "other"),
        file(1, "x", "second"),
        file(1, "x", "third"),
    ]);
    let paths: Vec<&str> = sorted.iter().map(|m| m.path.as_str()).collect();
    assert_eq!(paths, vec!["other", "first", "second", "third"]);
}

#[test]
fn sort_migrations_matches_std_stable_sort() {
    let input = vec![
        file(5, "b", "0"),
        file(5, "a", "1"),
        file(2, "é", "2"),
        file(2, "e", "3"),
        file(2, "E", "4"),
        file(5, "a", "5"),
        file(i64::MIN, "", "6"),
        file(i64::MAX, "", "7"),
    ];
    let mut expected: Vec<String> = Vec::new();
    let mut copy: Vec<(i64, String, String)> = input
        .iter()
        .map(|m| (m.version, m.name.clone(), m.path.clone()))
        .collect();
    copy.sort_by(|a, b| a.0.cmp(&b.0).then(a.1.cmp(&b.1)));
    for c in copy {
        expected.push(c.2);
    }
    let got: Vec<String> = sort_migrations(input).into_iter().map(|m| m.path).collect();
    assert_eq!(got, expected);
}

#[test]
fn migration_states_against_records() {
    let mut a = file(1, "a", "");
    a.checksum = "aaa".to_string();
    let mut b = file(2, "b", "");
    b.checksum = "bbb".to_string();
    let mut c = file(3, "c", "");
    c.checksum = "ccc".to_string();
    let applied = vec![
        AppliedMigration { version: 1, checksum: "aaa".to_string() },
        AppliedMigration { version: 2, checksum: "old".to_string() },
    ];
    let states = migration_states(&vec![a, b, c], &applied);
    assert_eq!(states[0], MigrationState::Applied);
    assert_eq!(
        states[1],
        MigrationState::ChecksumMismatch { recorded: "old".to_string() }
    );
    assert_eq!(states[2], MigrationState::Pending);
    assert_eq!(state_counts(&states), (1, 1));
}

#[test]
fn migration_states_last_record_wins() {
    let mut a = file(1, "a", "");
    a.checksum = "new".to_string();
    let applied = vec![
        AppliedMigration { version: 1, checksum: "old".to_string() },
        AppliedMigration { version: 1, checksum: "new".to_string() },
    ];
    let states = migration_states(&vec![a], &applied);
    assert_eq!(states[0], MigrationState::Applied);
}

#[test]
fn migration_paths_resolve_against_project_dir() {
    assert_eq!(
        resolve_migrations_dir("/proj", &None),
        "/proj/nuvix/migrations/sql"
    );
    assert_eq!(
        resolve_migrations_dir("/proj", &Some("db/m".to_string())),
        "/proj/db/m"
    );
    assert_eq!(
        resolve_migrations_dir("/proj", &Some("/abs/m".to_string())),
        "/abs/m"
    );
    assert_eq!(
        resolve_schema_snapshot_path("/proj", &None),
        "/proj/nuvix/schema/sql/remote.sql"
    );
    assert_eq!(
        resolve_schema_snapshot_path("/proj", &Some("out.sql".to_string())),
        "/proj/out.sql"
    );
}

#[test]
fn a_new_migration_is_stamped_now() {
    let f = new_migration_file_name("Add Users").unwrap();
    assert!(f.ends_with("_add_users.sql"));
    let stamp = &f[..f.len() - "_add_users.sql".len()];
    assert_eq!(stamp.len(), 14);
    assert!(stamp.chars().all(|c| c.is_ascii_digit()));
    assert!(parse_migration_filename(&f).is_ok());
    assert_eq!(new_migration_file_name("  ***  "), Err(MigrationNameError::EmptyName));
}
