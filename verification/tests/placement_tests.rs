use m3u8_core::placement::{
    extract_season_from_title, output_location, parse_season_number, OutputLocation, TaskNaming,
};

fn naming(title: &str, task_type: &str, group: Option<&str>, season: Option<&str>) -> TaskNaming {
    TaskNaming {
        title: title.to_string(),
        task_type: task_type.to_string(),
        group_title: group.map(|s| s.to_string()),
        season: season.map(|s| s.to_string()),
    }
}

#[test]
fn series_go_under_their_season_folder() {
    let parent = naming("Show", "series", Some("Show"), Some("2"));
    let sub = naming("Show.S02E01", "series", None, None);
    assert_eq!(
        output_location(&sub, true, Some(&parent)),
        OutputLocation {
            folder: "Show".to_string(),
            season_folder: Some("S02".to_string()),
            file_name: "Show.S02E01.mp4".to_string(),
        }
    );
}

#[test]
fn title_season_wins_over_parent_default() {
    let parent = naming("Show", "series", Some("Show"), Some("1"));
    let sub = naming("Show.S03E05", "series", None, None);
    let loc = output_location(&sub, true, Some(&parent));
    assert_eq!(loc.folder, "Show");
    assert_eq!(loc.season_folder.as_deref(), Some("S03"));
    assert_eq!(loc.file_name, "Show.S03E05.mp4");
}

#[test]
fn movies_and_missing_groups() {
    let parent = naming("Film", "movie", None, Some("4"));
    let sub = naming("Film.2020", "movie", None, None);
    let loc = output_location(&sub, true, Some(&parent));
    assert_eq!(loc.folder, "Others");
    assert_eq!(loc.season_folder, None);
    assert_eq!(loc.file_name, "Film.2020.mp4");

    // A parent that no longer exists: no group, the task's own type, no season.
    let orphan = naming("Ep.S01E02", "series", Some("Ignored"), Some("9"));
    let loc = output_location(&orphan, true, None);
    assert_eq!(loc.folder, "Others");
    assert_eq!(loc.season_folder.as_deref(), Some("S01"));
}

#[test]
fn tasks_without_parent_use_their_own_fields() {
    let task = naming("Episode", "series", Some("Group"), Some(" 12 "));
    let loc = output_location(&task, false, None);
    assert_eq!(loc.folder, "Group");
    assert_eq!(loc.season_folder.as_deref(), Some("S12"));
    let no_season = naming("Episode", "series", Some("Group"), Some("x"));
    assert_eq!(output_location(&no_season, false, None).season_folder, None);
}

#[test]
fn season_numbers_read_from_titles_and_fields() {
    assert_eq!(extract_season_from_title("Show.S02E01"), Some(2));
    assert_eq!(extract_season_from_title("show s7 extra"), Some(7));
    assert_eq!(extract_season_from_title("Show S10"), Some(10));
    assert_eq!(extract_season_from_title("ShowS02E01"), None);
    assert_eq!(extract_season_from_title("Show.S123"), None);
    assert_eq!(parse_season_number(Some(" 3 ")), Some(3));
    assert_eq!(parse_season_number(Some("+4")), Some(4));
    assert_eq!(parse_season_number(Some("")), None);
    assert_eq!(parse_season_number(Some("4294967296")), None);
    assert_eq!(parse_season_number(None), None);
}
