use m3u8_core::files::{
    assemble_folder, date_before, format_size, is_listed, later_of, others_folder,
    relative_id_path, root_listing, sort_newest_first, FileInfo, FolderInfo,
};
use m3u8_core::files::{build_folder, build_listing, ScannedFile, ScannedFolder};

fn file(id: &str, updated_at: &str) -> FileInfo {
    FileInfo {
        id: id.to_string(),
        name: id.rsplit('/').next().unwrap().to_string(),
        size: "1 B".to_string(),
        updated_at: updated_at.to_string(),
    }
}

fn folder(id: &str, file_count: usize, updated_at: &str) -> FolderInfo {
    FolderInfo {
        id: id.to_string(),
        name: id.to_string(),
        file_count,
        updated_at: updated_at.to_string(),
        folders: Vec::new(),
        files: Vec::new(),
    }
}

fn expected_size(size: u64) -> String {
    const KB: u64 = 1024;
    const MB: u64 = KB * 1024;
    const GB: u64 = MB * 1024;
    if size >= GB {
        format!("{:.2} GB", size as f64 / GB as f64)
    } else if size >= MB {
        format!("{:.2} MB", size as f64 / MB as f64)
    } else if size >= KB {
        format!("{:.2} KB", size as f64 / KB as f64)
    } else {
        format!("{} B", size)
    }
}

#[test]
fn format_size_writes_bytes_below_one_kilobyte() {
    assert_eq!(format_size(0), "0 B");
    assert_eq!(format_size(1023), "1023 B");
}

#[test]
fn format_size_writes_two_decimals_per_unit() {
    assert_eq!(format_size(1024), "1.00 KB");
    assert_eq!(format_size(1536), "1.50 KB");
    assert_eq!(format_size(1048576), "1.00 MB");
    assert_eq!(format_size(5 * 1024 * 1024 * 1024), "5.00 GB");
    assert_eq!(format_size(u64::MAX), "17179869184.00 GB");
}

#[test]
fn format_size_rounds_exact_ties_to_even() {
    // 1034 / 1024 = 1.009765625 and 1152 / 1024 = 1.125: exact binary fractions.
    assert_eq!(format_size(1034), expected_size(1034));
    assert_eq!(format_size(1152), "1.12 KB");
    assert_eq!(format_size(1160), expected_size(1160));
}

#[test]
fn format_size_matches_float_formatting() {
    let mut sizes: Vec<u64> = vec![
        1024, 1025, 2047, 2048, 10_000, 123_456, 1_048_575, 1_048_577, 7_340_032, 999_999_999,
        1_073_741_823, 1_073_741_825, 3_221_225_472, 1 << 40, (1 << 53) + 1, (1 << 53) + 3,
        (1 << 60) + 12_345, u64::MAX - 1,
    ];
    let mut x: u64 = 0x9E37_79B9_7F4A_7C15;
    for _ in 0..2000 {
        x ^= x << 13;
        x ^= x >> 7;
        x ^= x << 17;
        sizes.push(x >> (x % 64));
    }
    for size in sizes {
        assert_eq!(format_size(size), expected_size(size), "size {}", size);
    }
}

#[test]
fn relative_id_path_joins_below_the_root() {
    assert_eq!(relative_id_path("", "Show"), "Show");
    assert_eq!(relative_id_path("Show", "S01"), "Show/S01");
    assert_eq!(relative_id_path("Show/S01", "e1.mp4"), "Show/S01/e1.mp4");
}

#[test]
fn date_before_orders_like_strings() {
    assert!(date_before("2024-01-01 10:00", "2024-01-02 09:00"));
    assert!(!date_before("2024-01-02 09:00", "2024-01-01 10:00"));
    assert!(!date_before("2024-01-01 10:00", "2024-01-01 10:00"));
    assert!(date_before("2024", "2024-01"));
    assert!(date_before("", "a"));
    assert!(date_before("Z", "a"));
    assert_eq!(date_before("é", "z"), "é" < "z");
}

#[test]
fn later_of_is_the_string_maximum() {
    assert_eq!(later_of("2024-05-01 08:00".into(), "2023-12-31 23:59".into()), "2024-05-01 08:00");
    assert_eq!(later_of("2023-12-31 23:59".into(), "2024-05-01 08:00".into()), "2024-05-01 08:00");
}

#[test]
fn hidden_entries_are_not_listed() {
    assert!(!is_listed(".DS_Store"));
    assert!(!is_listed(".temp"));
    assert!(is_listed("Show"));
    assert!(is_listed("a.b"));
    assert!(is_listed(""));
}

#[test]
fn sort_newest_first_is_stable() {
    let files = vec![
        file("a", "2024-01-01 10:00"),
        file("b", "2024-03-01 10:00"),
        file("c", "2024-01-01 10:00"),
        file("d", "2024-02-01 10:00"),
        file("e", "2024-03-01 10:00"),
    ];
    let ids: Vec<String> = sort_newest_first(files).into_iter().map(|f| f.id).collect();
    assert_eq!(ids, vec!["b", "e", "d", "a", "c"]);
}

#[test]
fn assemble_folder_counts_files_and_takes_latest_time() {
    let sub = folder("Show/S01", 3, "2024-04-01 12:00");
    let older = folder("Show/S00", 2, "2023-01-01 12:00");
    let files = vec![
        file("Show/a.mp4", "2024-02-01 12:00"),
        file("Show/b.mp4", "2024-03-01 12:00"),
    ];
    let f = assemble_folder(
        "Show".to_string(),
        "Show".to_string(),
        "2024-01-01 00:00".to_string(),
        vec![older, sub],
        files,
    );
    assert_eq!(f.id, "Show");
    assert_eq!(f.name, "Show");
    assert_eq!(f.file_count, 7);
    assert_eq!(f.updated_at, "2024-04-01 12:00");
    let folder_ids: Vec<&str> = f.folders.iter().map(|x| x.id.as_str()).collect();
    assert_eq!(folder_ids, vec!["Show/S01", "Show/S00"]);
    let file_ids: Vec<&str> = f.files.iter().map(|x| x.id.as_str()).collect();
    assert_eq!(file_ids, vec!["Show/b.mp4", "Show/a.mp4"]);
}

#[test]
fn assemble_folder_keeps_its_own_time_when_newer() {
    let f = assemble_folder(
        "Empty".to_string(),
        "Empty".to_string(),
        "2025-01-01 00:00".to_string(),
        Vec::new(),
        vec![file("Empty/x", "2024-01-01 00:00")],
    );
    assert_eq!(f.file_count, 1);
    assert_eq!(f.updated_at, "2025-01-01 00:00");
}

#[test]
fn others_folder_gathers_root_files_in_order() {
    let o = others_folder(vec![
        file("b.mp4", "2024-01-01 00:00"),
        file("a.mp4", "2024-06-01 00:00"),
        file("c.mp4", "2024-03-01 00:00"),
    ]);
    assert_eq!(o.id, "others");
    assert_eq!(o.name, "其他");
    assert_eq!(o.file_count, 3);
    assert_eq!(o.updated_at, "2024-06-01 00:00");
    assert!(o.folders.is_empty());
    let ids: Vec<&str> = o.files.iter().map(|x| x.id.as_str()).collect();
    assert_eq!(ids, vec!["b.mp4", "a.mp4", "c.mp4"]);
}

#[test]
fn root_listing_adds_others_and_sorts() {
    let listing = root_listing(
        vec![folder("Old", 1, "2023-01-01 00:00"), folder("New", 2, "2024-09-01 00:00")],
        vec![file("x.mp4", "2024-05-01 00:00")],
    );
    let ids: Vec<&str> = listing.iter().map(|x| x.id.as_str()).collect();
    assert_eq!(ids, vec!["New", "others", "Old"]);

    let without_root_files = root_listing(vec![folder("A", 1, "2023-01-01 00:00")], Vec::new());
    assert_eq!(without_root_files.len(), 1);
    assert_eq!(without_root_files[0].id, "A");
}

#[test]
fn nested_folders_agree_on_counts_and_times() {
    let season = assemble_folder(
        "Show/S01".into(),
        "S01".into(),
        "2024-01-01 00:00".into(),
        Vec::new(),
        vec![file("Show/S01/e1.mp4", "2024-02-01 00:00"), file("Show/S01/e2.mp4", "2024-03-01 00:00")],
    );
    let show = assemble_folder(
        "Show".into(),
        "Show".into(),
        "2023-06-01 00:00".into(),
        vec![season],
        vec![file("Show/poster.jpg", "2023-07-01 00:00")],
    );
    assert_eq!(show.file_count, 3);
    assert_eq!(show.folders[0].file_count, 2);
    assert_eq!(show.file_count, show.files.len() + show.folders[0].file_count);
    assert_eq!(show.updated_at, "2024-03-01 00:00");
    assert!(show.updated_at >= show.folders[0].updated_at);
    assert!(show.files.iter().all(|f| show.updated_at >= f.updated_at));
}

fn scanned_file(name: &str, size: u64, modified: i64) -> ScannedFile {
    ScannedFile { name: name.to_string(), size, modified }
}

fn scanned_folder(name: &str, modified: i64, folders: Vec<ScannedFolder>, files: Vec<ScannedFile>) -> ScannedFolder {
    ScannedFolder { name: name.to_string(), modified, folders, files }
}

fn show_tree() -> ScannedFolder {
    let season = scanned_folder(
        "S01",
        1704067200,
        vec![scanned_folder(".cache", 1893456000, Vec::new(), vec![scanned_file("x.ts", 1, 1893456000)])],
        vec![
            scanned_file("e1.mp4", 2048, 1709287200),
            scanned_file(".e1.part", 5, 1924992000),
            scanned_file("e2.mp4", 1536, 1709370000),
        ],
    );
    let extras = scanned_folder("Extras", 1714550400, Vec::new(), Vec::new());
    scanned_folder("Show", 1704067200, vec![season, extras], vec![scanned_file("poster.jpg", 10, 1706745600)])
}

#[test]
fn build_folder_lists_a_tree_without_hidden_entries() {
    let show = build_folder("Show", &show_tree()).unwrap();
    assert_eq!(show.id, "Show");
    assert_eq!(show.name, "Show");
    assert_eq!(show.file_count, 3);
    assert_eq!(show.updated_at, "2024-05-01 08:00");
    let ids: Vec<&str> = show.folders.iter().map(|f| f.id.as_str()).collect();
    assert_eq!(ids, vec!["Show/Extras", "Show/S01"]);
    let season = &show.folders[1];
    assert_eq!(season.file_count, 2);
    assert_eq!(season.updated_at, "2024-03-02 09:00");
    assert!(season.folders.is_empty());
    let files: Vec<(&str, &str, &str)> =
        season.files.iter().map(|f| (f.id.as_str(), f.name.as_str(), f.size.as_str())).collect();
    assert_eq!(files, vec![("Show/S01/e2.mp4", "e2.mp4", "1.50 KB"), ("Show/S01/e1.mp4", "e1.mp4", "2.00 KB")]);
    assert_eq!(show.files.len(), 1);
    assert_eq!(show.files[0].id, "Show/poster.jpg");
    assert_eq!(show.files[0].size, "10 B");
    let extras = &show.folders[0];
    assert_eq!(extras.file_count, 0);
    assert_eq!(extras.updated_at, "2024-05-01 08:00");
}

#[test]
fn build_folder_counts_agree_at_every_depth() {
    fn check(f: &FolderInfo) {
        let below: usize = f.folders.iter().map(|c| c.file_count).sum();
        assert_eq!(f.file_count, f.files.len() + below);
        for c in &f.folders {
            assert!(f.updated_at >= c.updated_at);
            check(c);
        }
        for c in &f.files {
            assert!(f.updated_at >= c.updated_at);
        }
    }
    check(&build_folder("Show", &show_tree()).unwrap());
}

#[test]
fn build_listing_gathers_root_files_and_skips_hidden_ones() {
    let folders = vec![show_tree(), scanned_folder(".trash", 2051222400, Vec::new(), Vec::new())];
    let files = vec![
        scanned_file("clip.mp4", 3 * 1024 * 1024, 1717243200),
        scanned_file(".DS_Store", 6, 2082758400),
    ];
    let listing = build_listing(&folders, &files).unwrap();
    let ids: Vec<&str> = listing.iter().map(|f| f.id.as_str()).collect();
    assert_eq!(ids, vec!["others", "Show"]);
    let others = &listing[0];
    assert_eq!(others.name, "其他");
    assert_eq!(others.file_count, 1);
    assert_eq!(others.updated_at, "2024-06-01 12:00");
    assert_eq!(others.files[0].id, "clip.mp4");
    assert_eq!(others.files[0].size, "3.00 MB");
    assert_eq!(listing[1].folders[1].id, "Show/S01");
    assert_eq!(listing[1].folders[1].files[0].id, "Show/S01/e2.mp4");
}

#[test]
fn build_listing_of_an_empty_folder_is_empty() {
    assert!(build_listing(&Vec::new(), &Vec::new()).unwrap().is_empty());
}

#[test]
fn build_folder_shows_times_to_the_minute_in_utc() {
    // 2024-03-01 10:00:59 UTC, and one second before the epoch.
    let folder = scanned_folder(
        "A",
        -1,
        Vec::new(),
        vec![scanned_file("a.mp4", 1, 1709287259)],
    );
    let built = build_folder("A", &folder).unwrap();
    assert_eq!(built.files[0].updated_at, "2024-03-01 10:00");
    assert_eq!(built.updated_at, "2024-03-01 10:00");
    let empty = build_folder("B", &scanned_folder("B", -1, Vec::new(), Vec::new())).unwrap();
    assert_eq!(empty.updated_at, "1969-12-31 23:59");
}

#[test]
fn build_folder_refuses_a_time_chrono_does_not_hold() {
    let folder = scanned_folder("A", i64::MAX, Vec::new(), Vec::new());
    assert!(build_folder("A", &folder).is_none());
    let hidden_only = scanned_folder("B", 0, Vec::new(), vec![scanned_file(".x", 1, i64::MAX)]);
    assert_eq!(build_folder("B", &hidden_only).unwrap().updated_at, "1970-01-01 00:00");
}
