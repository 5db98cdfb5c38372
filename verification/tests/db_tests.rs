use m3u8_core::db::sqlite_file_path;

#[test]
fn extracts_relative_sqlite_path() {
    assert_eq!(
        sqlite_file_path("sqlite:storage/db/app.db"),
        Some("storage/db/app.db")
    );
}

#[test]
fn extracts_absolute_sqlite_path_with_query() {
    assert_eq!(
        sqlite_file_path("sqlite:/app/storage/db/app.db?mode=rwc"),
        Some("/app/storage/db/app.db")
    );
}

#[test]
fn skips_memory_database() {
    assert_eq!(sqlite_file_path("sqlite::memory:"), None);
}

#[test]
fn file_scheme_is_accepted() {
    assert_eq!(sqlite_file_path("file:data/app.db?cache=shared"), Some("data/app.db"));
}

#[test]
fn other_schemes_and_empty_paths_name_no_file() {
    assert_eq!(sqlite_file_path("postgres://localhost/db"), None);
    assert_eq!(sqlite_file_path("sqlite:"), None);
    assert_eq!(sqlite_file_path("sqlite:?mode=rwc"), None);
    assert_eq!(sqlite_file_path("file::memory:?cache=shared"), None);
}
