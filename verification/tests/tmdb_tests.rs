use m3u8_core::tmdb::{
    extract_year, normalize_base_url, search_query, search_url, tmdb_config, tv_details_url,
    tv_season_url, TmdbConfig, TmdbError, TmdbMediaType, TmdbMovieResult, TmdbSearchResult,
    TmdbTvResult,
};

#[test]
fn extract_year_reads_first_four_digits() {
    assert_eq!(extract_year(Some("2024-03-01")), Some("2024".to_string()));
    assert_eq!(extract_year(Some("")), None);
    assert_eq!(extract_year(None), None);
}

#[test]
fn normalize_base_url_trims_trailing_slashes() {
    assert_eq!(
        normalize_base_url("https://api.themoviedb.org/3///"),
        "https://api.themoviedb.org/3"
    );
    assert_eq!(normalize_base_url(""), "https://api.themoviedb.org/3");
}

#[test]
fn movie_result_uses_title_and_release_year() {
    let item = TmdbMovieResult {
        id: 42,
        title: Some("Arrival".to_string()),
        original_title: Some("Arrival".to_string()),
        release_date: Some("2016-11-10".to_string()),
    };

    assert_eq!(
        item.into_search_result(),
        TmdbSearchResult {
            id: 42,
            media_type: TmdbMediaType::Movie,
            title: "Arrival".to_string(),
            original_title: Some("Arrival".to_string()),
            year: Some("2016".to_string()),
            season_count: None,
        }
    );
}

#[test]
fn extract_year_rejects_non_digits_and_short_dates() {
    assert_eq!(extract_year(Some("20x4-01-01")), None);
    assert_eq!(extract_year(Some("202")), None);
    assert_eq!(extract_year(Some("1999")), Some("1999".to_string()));
    assert_eq!(extract_year(Some("二〇二四")), None);
}

#[test]
fn tv_result_without_name_uses_placeholder() {
    let item = TmdbTvResult {
        id: 7,
        name: None,
        original_name: Some("Orig".to_string()),
        first_air_date: Some("bad".to_string()),
    };
    assert_eq!(
        item.into_search_result(),
        TmdbSearchResult {
            id: 7,
            media_type: TmdbMediaType::Tv,
            title: "未命名剧集".to_string(),
            original_title: Some("Orig".to_string()),
            year: None,
            season_count: None,
        }
    );
}

#[test]
fn movie_without_title_uses_placeholder() {
    let item = TmdbMovieResult { id: 1, title: None, original_title: None, release_date: None };
    assert_eq!(item.into_search_result().title, "未命名电影");
}

#[test]
fn normalize_base_url_trims_whitespace() {
    assert_eq!(normalize_base_url("  https://proxy.example/3/ \n"), "https://proxy.example/3");
    assert_eq!(normalize_base_url(" /// "), "https://api.themoviedb.org/3");
}

#[test]
fn config_requires_api_key() {
    assert_eq!(tmdb_config(None, None), Err(TmdbError::MissingApiKey));
    assert_eq!(tmdb_config(Some("   "), None), Err(TmdbError::MissingApiKey));
    assert_eq!(
        tmdb_config(Some(" key "), Some("https://x.example/3/")),
        Ok(TmdbConfig { api_key: "key".to_string(), base_url: "https://x.example/3".to_string() })
    );
    assert_eq!(
        tmdb_config(Some("key"), None).unwrap().base_url,
        "https://api.themoviedb.org/3"
    );
}

#[test]
fn request_urls() {
    assert_eq!(tv_season_url("https://b/3", 1399, 2), "https://b/3/tv/1399/season/2");
    assert_eq!(tv_season_url("https://b/3", -5, 0), "https://b/3/tv/-5/season/0");
    assert_eq!(tv_details_url("https://b/3", 42), "https://b/3/tv/42");
    assert_eq!(search_url("https://b/3", TmdbMediaType::Movie), "https://b/3/search/movie");
    assert_eq!(search_url("https://b/3", TmdbMediaType::Tv), "https://b/3/search/tv");
    assert_eq!(tv_details_url("b", i64::MIN), format!("b/tv/{}", i64::MIN));
}

#[test]
fn search_query_is_trimmed() {
    assert_eq!(search_query("  Dune "), Some("Dune".to_string()));
    assert_eq!(search_query(" \t "), None);
}
