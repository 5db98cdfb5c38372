use m3u8_core::naming::{plan_task, CreateTaskRequest};

fn request(title: &str, category: &str, year: Option<&str>, season: Option<&str>, raw: &str) -> CreateTaskRequest {
    CreateTaskRequest {
        title: title.to_string(),
        category: category.to_string(),
        year: year.map(|s| s.to_string()),
        season: season.map(|s| s.to_string()),
        raw_subtasks: raw.to_string(),
    }
}

fn titles(req: &CreateTaskRequest) -> Vec<String> {
    plan_task(req).subtasks.into_iter().map(|s| s.title).collect()
}

#[test]
fn series_titles_number_seasons_and_episodes() {
    let req = request(
        "Show: Name",
        "series",
        None,
        Some("第2季"),
        "http://a/1.m3u8 第1集\n\n   \nhttp://a/2.m3u8 S03E04\nhttp://a/3.m3u8 5\nhttp://a/4.m3u8\nhttp://a/5.m3u8 Special  Extra\r\n",
    );
    let plan = plan_task(&req);
    assert_eq!(plan.season.as_deref(), Some("2"));
    assert_eq!(plan.year, None);
    let urls: Vec<&str> = plan.subtasks.iter().map(|s| s.url.as_str()).collect();
    assert_eq!(urls, vec!["http://a/1.m3u8", "http://a/2.m3u8", "http://a/3.m3u8", "http://a/4.m3u8", "http://a/5.m3u8"]);
    let names: Vec<&str> = plan.subtasks.iter().map(|s| s.title.as_str()).collect();
    assert_eq!(
        names,
        vec![
            "Show_ Name.S02E01",
            "Show_ Name.S03E04",
            "Show_ Name.S02E05",
            "Show_ Name.S02E04",
            "Show_ Name.Special Extra",
        ]
    );
}

#[test]
fn series_default_season_and_unnumbered_titles() {
    let req = request("Show", "series", None, None, "u1 E7\nu2 Episode 12\nu3 Season 3");
    assert_eq!(titles(&req), vec!["Show.S01E07", "Show.Episode 12", "Show.Season 3"]);
}

#[test]
fn movie_titles_carry_year_and_sequence() {
    let req = request("Movie", "movie", Some("Year 2021 release"), None, "u1 Part1\nu2");
    let plan = plan_task(&req);
    assert_eq!(plan.year.as_deref(), Some("2021"));
    let names: Vec<String> = plan.subtasks.into_iter().map(|s| s.title).collect();
    assert_eq!(names, vec!["Movie.2021.Part1.01", "Movie.2021.02"]);
}

#[test]
fn single_movie_has_no_sequence() {
    let req = request("Movie", "movie", Some("abcd"), None, "u1");
    let plan = plan_task(&req);
    assert_eq!(plan.year, None);
    let names: Vec<String> = plan.subtasks.into_iter().map(|s| s.title).collect();
    assert_eq!(names, vec!["Movie"]);
}

#[test]
fn other_categories_use_title_and_sequence() {
    assert_eq!(titles(&request("Clip", "show", None, None, "u1  a   b ")), vec!["Clip.a b"]);
    assert_eq!(titles(&request("Clip", "show", None, None, "u1\nu2 x")), vec!["Clip.01", "Clip.x.02"]);
}

#[test]
fn unsafe_characters_in_group_title_are_replaced() {
    assert_eq!(titles(&request("A/B\\C?", "show", None, None, "u1")), vec!["A_B_C_"]);
}

#[test]
fn blank_text_plans_no_subtasks() {
    let plan = plan_task(&request("T", "series", Some("2020"), Some("1"), "\n  \n"));
    assert!(plan.subtasks.is_empty());
    assert_eq!(plan.year.as_deref(), Some("2020"));
    assert_eq!(plan.season.as_deref(), Some("1"));
}
