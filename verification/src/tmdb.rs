//! Normalisation of TMDB (The Movie Database) metadata for task creation: search
//! results, release years, the API base URL and request URLs.
use vstd::prelude::*;
use crate::text::{
    chars_of, decimal, is_digit, push_char, push_decimal, push_str, string_from, trim,
    trim_chars,
};

verus! {

/// The TMDB v3 API that is used when no base URL is configured.
pub const DEFAULT_TMDB_API_BASE_URL: &'static str = "https://api.themoviedb.org/3";

/// The title given to a movie that TMDB returns without one.
pub const UNTITLED_MOVIE: &'static str = "未命名电影";

/// The title given to a TV series that TMDB returns without one.
pub const UNTITLED_TV: &'static str = "未命名剧集";

/// Whether a search result is a movie or a TV series.
#[derive(Debug, Clone, Copy, PartialEq, Eq, Structural)]
pub enum TmdbMediaType {
    Movie,
    Tv,
}

/// A search result, reduced to what task creation needs.
#[derive(Debug, PartialEq)]
pub struct TmdbSearchResult {
    pub id: i64,
    pub media_type: TmdbMediaType,
    pub title: String,
    pub original_title: Option<String>,
    pub year: Option<String>,
    pub season_count: Option<i32>,
}

/// One episode of a TV season.
#[derive(Debug, PartialEq)]
pub struct TmdbEpisode {
    pub episode_number: i32,
    pub name: Option<String>,
    pub air_date: Option<String>,
}

/// The episodes of one season of a TV series.
#[derive(Debug, PartialEq)]
pub struct TmdbSeasonDetails {
    pub series_id: i64,
    pub season_number: i32,
    pub episodes: Vec<TmdbEpisode>,
}

/// A movie as the TMDB movie search returns it.
#[derive(Debug, PartialEq)]
pub struct TmdbMovieResult {
    pub id: i64,
    pub title: Option<String>,
    pub original_title: Option<String>,
    pub release_date: Option<String>,
}

/// A TV series as the TMDB TV search returns it.
#[derive(Debug, PartialEq)]
pub struct TmdbTvResult {
    pub id: i64,
    pub name: Option<String>,
    pub original_name: Option<String>,
    pub first_air_date: Option<String>,
}

/// The API key and base URL that TMDB requests use.
#[derive(Debug, PartialEq)]
pub struct TmdbConfig {
    pub api_key: String,
    pub base_url: String,
}

/// Why TMDB cannot be queried.
#[derive(Debug, Clone, Copy, PartialEq, Eq, Structural)]
pub enum TmdbError {
    /// No non-blank API key is configured.
    MissingApiKey,
}

/// The view of an optional string.
pub open spec fn opt_view(o: Option<String>) -> Option<Seq<char>> {
    match o {
        Some(s) => Some(s@),
        None => None,
    }
}

/// The year of a date `YYYY-...`: its first four characters when they are all ASCII
/// digits.
pub open spec fn year_of(value: Option<Seq<char>>) -> Option<Seq<char>> {
    match value {
        Some(d) => if d.len() >= 4 && is_digit(d[0]) && is_digit(d[1]) && is_digit(d[2])
            && is_digit(d[3]) {
            Some(d.subrange(0, 4))
        } else {
            None
        },
        None => None,
    }
}

/// The year in a TMDB date (`2024-03-01` gives `2024`); `None` when the date is
/// missing or does not begin with four ASCII digits.
pub fn extract_year(value: Option<&str>) -> (r: Option<String>)
    ensures
        opt_view(r) == year_of(
            match value {
                Some(v) => Some(v@),
                None => None,
            },
        ),
{
    match value {
        None => None,
        Some(date) => {
            let cs = chars_of(date);
            if cs.len() >= 4 && '0' <= cs[0] && cs[0] <= '9' && '0' <= cs[1] && cs[1] <= '9'
                && '0' <= cs[2] && cs[2] <= '9' && '0' <= cs[3] && cs[3] <= '9' {
                let year = string_from(&cs.as_slice()[0..4]);
                assert(cs@.subrange(0, 4) =~= cs@.subrange(0, 4));
                Some(year)
            } else {
                None
            }
        },
    }
}

/// `s` without its trailing `/` characters.
pub open spec fn strip_trailing_slashes(s: Seq<char>) -> Seq<char>
    decreases s.len(),
{
    if s.len() > 0 && s.last() == '/' {
        strip_trailing_slashes(s.drop_last())
    } else {
        s
    }
}

/// A configured base URL, trimmed and without trailing slashes; the default API when
/// nothing is left.
pub open spec fn normalized_base_url(value: Seq<char>) -> Seq<char> {
    let t = strip_trailing_slashes(trim(value));
    if t.len() == 0 {
        DEFAULT_TMDB_API_BASE_URL@
    } else {
        t
    }
}

/// Normalises a configured TMDB base URL: surrounding whitespace and trailing slashes
/// are removed, and an empty result becomes `DEFAULT_TMDB_API_BASE_URL`.
pub fn normalize_base_url(value: &str) -> (r: String)
    ensures
        r@ == normalized_base_url(value@),
{
    let t = trim_chars(chars_of(value).as_slice());
    let mut end = t.len();
    assert(t@.subrange(0, t@.len() as int) =~= t@);
    while end > 0 && t[end - 1] == '/'
        invariant
            end <= t@.len(),
            strip_trailing_slashes(t@) == strip_trailing_slashes(t@.subrange(0, end as int)),
        decreases end,
    {
        assert(t@.subrange(0, end as int).drop_last() =~= t@.subrange(0, end - 1));
        end = end - 1;
    }
    assert(t@.subrange(0, t@.len() as int) =~= t@);
    if end == 0 {
        assert(strip_trailing_slashes(t@.subrange(0, 0)) =~= Seq::<char>::empty());
        String::from_str(DEFAULT_TMDB_API_BASE_URL)
    } else {
        string_from(&t.as_slice()[0..end])
    }
}

/// The search result of a movie: the untitled placeholder when the title is missing and
/// the year of the release date.
pub open spec fn movie_result_spec(m: TmdbMovieResult, r: TmdbSearchResult) -> bool {
    &&& r.id == m.id
    &&& r.media_type == TmdbMediaType::Movie
    &&& r.title@ == match m.title {
        Some(t) => t@,
        None => UNTITLED_MOVIE@,
    }
    &&& opt_view(r.original_title) == opt_view(m.original_title)
    &&& opt_view(r.year) == year_of(opt_view(m.release_date))
    &&& r.season_count is None
}

/// The search result of a TV series: the untitled placeholder when the name is missing
/// and the year of the first air date.
pub open spec fn tv_result_spec(t: TmdbTvResult, r: TmdbSearchResult) -> bool {
    &&& r.id == t.id
    &&& r.media_type == TmdbMediaType::Tv
    &&& r.title@ == match t.name {
        Some(n) => n@,
        None => UNTITLED_TV@,
    }
    &&& opt_view(r.original_title) == opt_view(t.original_name)
    &&& opt_view(r.year) == year_of(opt_view(t.first_air_date))
    &&& r.season_count is None
}

fn as_str_opt(o: &Option<String>) -> (r: Option<&str>)
    ensures
        match o {
            Some(s) => r is Some && r->0@ == s@,
            None => r is None,
        },
{
    match o {
        Some(s) => Some(s.as_str()),
        None => None,
    }
}

impl TmdbMovieResult {
    /// The search result that a movie stands for.
    pub fn into_search_result(self) -> (r: TmdbSearchResult)
        ensures
            movie_result_spec(self, r),
    {
        let year = extract_year(as_str_opt(&self.release_date));
        let title = match self.title {
            Some(t) => t,
            None => String::from_str(UNTITLED_MOVIE),
        };
        TmdbSearchResult {
            id: self.id,
            media_type: TmdbMediaType::Movie,
            title,
            original_title: self.original_title,
            year,
            season_count: None,
        }
    }
}

impl TmdbTvResult {
    /// The search result that a TV series stands for; its season count is filled in
    /// later from the series details.
    pub fn into_search_result(self) -> (r: TmdbSearchResult)
        ensures
            tv_result_spec(self, r),
    {
        let year = extract_year(as_str_opt(&self.first_air_date));
        let title = match self.name {
            Some(t) => t,
            None => String::from_str(UNTITLED_TV),
        };
        TmdbSearchResult {
            id: self.id,
            media_type: TmdbMediaType::Tv,
            title,
            original_title: self.original_name,
            year,
            season_count: None,
        }
    }
}

/// The configuration that the settings give: a non-blank API key is required (it is
/// used trimmed); the base URL is normalised, and the default when not set.
pub open spec fn tmdb_config_spec(
    api_key: Option<Seq<char>>,
    base_url: Option<Seq<char>>,
    r: Result<TmdbConfig, TmdbError>,
) -> bool {
    match api_key {
        Some(k) if trim(k).len() > 0 => {
            &&& r is Ok
            &&& r->Ok_0.api_key@ == trim(k)
            &&& r->Ok_0.base_url@ == match base_url {
                Some(b) => normalized_base_url(b),
                None => DEFAULT_TMDB_API_BASE_URL@,
            }
        },
        _ => r == Err::<TmdbConfig, TmdbError>(TmdbError::MissingApiKey),
    }
}

/// Builds the TMDB configuration from the `tmdbApiKey` and `tmdbApiBaseUrl` settings.
pub fn tmdb_config(api_key: Option<&str>, base_url: Option<&str>) -> (r: Result<
    TmdbConfig,
    TmdbError,
>)
    ensures
        tmdb_config_spec(
            match api_key {
                Some(k) => Some(k@),
                None => None,
            },
            match base_url {
                Some(b) => Some(b@),
                None => None,
            },
            r,
        ),
{
    let key = match api_key {
        Some(k) => trim_chars(chars_of(k).as_slice()),
        None => {
            return Err(TmdbError::MissingApiKey);
        },
    };
    if key.len() == 0 {
        return Err(TmdbError::MissingApiKey);
    }
    let base = match base_url {
        Some(b) => normalize_base_url(b),
        None => String::from_str(DEFAULT_TMDB_API_BASE_URL),
    };
    Ok(TmdbConfig { api_key: string_from(key.as_slice()), base_url: base })
}

/// The text of a search query to send: trimmed, and `None` when it is blank (no
/// request is made then).
pub fn search_query(query: &str) -> (r: Option<String>)
    ensures
        match r {
            Some(q) => q@ == trim(query@) && q@.len() > 0,
            None => trim(query@).len() == 0,
        },
{
    let q = trim_chars(chars_of(query).as_slice());
    if q.len() == 0 {
        None
    } else {
        Some(string_from(q.as_slice()))
    }
}

/// The decimal text of a signed integer, with a leading `-` when it is negative.
pub open spec fn signed_decimal(n: int) -> Seq<char> {
    if n < 0 {
        seq!['-'] + decimal((-n) as nat)
    } else {
        decimal(n as nat)
    }
}

/// Appends the decimal text of `n`.
pub fn push_signed_decimal(out: &mut String, n: i64)
    ensures
        final(out)@ == old(out)@ + signed_decimal(n as int),
{
    if n < 0 {
        push_char(out, '-');
        let m: u64 = (-(n as i128)) as u64;
        push_decimal(out, m);
        assert(final(out)@ =~= old(out)@ + signed_decimal(n as int));
    } else {
        push_decimal(out, n as u64);
    }
}

/// The URL of the details of season `season_number` of series `series_id`:
/// `{base}/tv/{series_id}/season/{season_number}`.
pub fn tv_season_url(base_url: &str, series_id: i64, season_number: i32) -> (r: String)
    ensures
        r@ == base_url@ + "/tv/"@ + signed_decimal(series_id as int) + "/season/"@
            + signed_decimal(season_number as int),
{
    let mut out = String::new();
    push_str(&mut out, base_url);
    push_str(&mut out, "/tv/");
    push_signed_decimal(&mut out, series_id);
    push_str(&mut out, "/season/");
    push_signed_decimal(&mut out, season_number as i64);
    assert(out@ =~= base_url@ + "/tv/"@ + signed_decimal(series_id as int) + "/season/"@
        + signed_decimal(season_number as int));
    out
}

/// The URL of the details of series `series_id`: `{base}/tv/{series_id}`.
pub fn tv_details_url(base_url: &str, series_id: i64) -> (r: String)
    ensures
        r@ == base_url@ + "/tv/"@ + signed_decimal(series_id as int),
{
    let mut out = String::new();
    push_str(&mut out, base_url);
    push_str(&mut out, "/tv/");
    push_signed_decimal(&mut out, series_id);
    assert(out@ =~= base_url@ + "/tv/"@ + signed_decimal(series_id as int));
    out
}

/// The URL of a search of the given kind: `{base}/search/movie` or `{base}/search/tv`.
pub fn search_url(base_url: &str, media_type: TmdbMediaType) -> (r: String)
    ensures
        r@ == base_url@ + match media_type {
            TmdbMediaType::Movie => "/search/movie"@,
            TmdbMediaType::Tv => "/search/tv"@,
        },
{
    let mut out = String::new();
    push_str(&mut out, base_url);
    match media_type {
        TmdbMediaType::Movie => push_str(&mut out, "/search/movie"),
        TmdbMediaType::Tv => push_str(&mut out, "/search/tv"),
    }
    out
}

} // verus!
