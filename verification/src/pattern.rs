//! The regular expressions that name and place tasks, evaluated by the `regex` crate.
use vstd::prelude::*;

verus! {

/// A run of four digits: the year written in a task's year field.
pub const YEAR_PATTERN: &'static str = r"\d{4}";

/// A run of digits: the season number written in a task's season field.
pub const SEASON_NUMBER_PATTERN: &'static str = r"\d+";

/// The characters that file names cannot hold.
pub const UNSAFE_TITLE_PATTERN: &'static str = r#"[\\/:*?"<>|]"#;

/// A season marker in a subtask's title: `S2`, `Season 2`.
pub const SEASON_IN_SUBTITLE_PATTERN: &'static str = r"(?i)(?:S|Season\s*)(\d+)";

/// An episode marker in a subtask's title: `E3`, `Episode 3`, `第3`, `集 3`.
pub const EPISODE_IN_SUBTITLE_PATTERN: &'static str = r"(?i)(?:E|Episode|第|集\s*)(\d+)";

/// A subtask title that is only a number.
pub const ONLY_NUMBER_PATTERN: &'static str = r"^\d+$";

/// A season marker in a file title: `Show.S02E01`, `Show S02 ...`.
pub const SEASON_IN_TITLE_PATTERN: &'static str =
    r"(?i)(?:^|[.\s_-])S(\d{1,2})(?:E\d{1,3}\b|[.\s_-]|$)";

/// The text of the leftmost-first match of the regular expression `pattern` in
/// `haystack` (`None` when there is no match or `pattern` does not compile).
pub uninterp spec fn regex_first_match(pattern: Seq<char>, haystack: Seq<char>) -> Option<
    Seq<char>,
>;

/// The text of capture group 1 of the leftmost-first match of `pattern` in `haystack`
/// (`None` when there is no match, the group does not take part in it, or `pattern` does
/// not compile).
pub uninterp spec fn regex_first_group(pattern: Seq<char>, haystack: Seq<char>) -> Option<
    Seq<char>,
>;

/// Whether `pattern` matches somewhere in `haystack` (`false` when `pattern` does not
/// compile).
pub uninterp spec fn regex_is_match(pattern: Seq<char>, haystack: Seq<char>) -> bool;

/// `haystack` with every non-overlapping match of `pattern` replaced by `replacement`
/// (`haystack` itself when `pattern` does not compile).
pub uninterp spec fn regex_replaced(
    pattern: Seq<char>,
    haystack: Seq<char>,
    replacement: Seq<char>,
) -> Seq<char>;

/// Whether `part` occurs in `whole`.
pub open spec fn is_substring(part: Seq<char>, whole: Seq<char>) -> bool {
    exists|i: int, j: int| 0 <= i <= j <= whole.len() && whole.subrange(i, j) == part
}

/// Finds the first match of `pattern` in `haystack`.
///
/// Trusted: compiles `pattern` with `regex::Regex::new` and calls `Regex::find`; the
/// result is the matched text, which the `regex` documentation describes as a substring
/// of the haystack. Which text matches is named, not stated.
#[verifier::external_body]
pub(crate) fn find_match(pattern: &str, haystack: &str) -> (r: Option<String>)
    ensures
        match r {
            Some(m) => regex_first_match(pattern@, haystack@) == Some(m@),
            None => regex_first_match(pattern@, haystack@) is None,
        },
        r matches Some(m) ==> is_substring(m@, haystack@),
{
    let re = regex::Regex::new(pattern).ok()?;
    re.find(haystack).map(|m| m.as_str().to_string())
}

/// Capture group 1 of the first match of `pattern` in `haystack`.
///
/// Trusted: compiles `pattern` with `regex::Regex::new`, calls `Regex::captures` and
/// takes group 1; a group's text is, by the `regex` documentation, a substring of the
/// haystack. Which text matches is named, not stated.
#[verifier::external_body]
pub(crate) fn first_group(pattern: &str, haystack: &str) -> (r: Option<String>)
    ensures
        match r {
            Some(m) => regex_first_group(pattern@, haystack@) == Some(m@),
            None => regex_first_group(pattern@, haystack@) is None,
        },
        r matches Some(m) ==> is_substring(m@, haystack@),
{
    let re = regex::Regex::new(pattern).ok()?;
    re.captures(haystack).and_then(|c| c.get(1)).map(|m| m.as_str().to_string())
}

/// Whether `pattern` matches in `haystack`.
///
/// Trusted: compiles `pattern` with `regex::Regex::new` and calls `Regex::is_match`.
/// Which texts match is named, not stated.
#[verifier::external_body]
pub(crate) fn is_match(pattern: &str, haystack: &str) -> (r: bool)
    ensures
        r == regex_is_match(pattern@, haystack@),
{
    match regex::Regex::new(pattern) {
        Ok(re) => re.is_match(haystack),
        Err(_) => false,
    }
}

/// Replaces every match of `pattern` in `haystack` with `replacement`.
///
/// Trusted: compiles `pattern` with `regex::Regex::new` and calls `Regex::replace_all`
/// (with `$` group references in the replacement expanded as `regex` documents). The
/// resulting text is named,
/// not stated.
#[verifier::external_body]
pub(crate) fn replace_all(pattern: &str, haystack: &str, replacement: &str) -> (r: String)
    ensures
        r@ == regex_replaced(pattern@, haystack@, replacement@),
{
    match regex::Regex::new(pattern) {
        Ok(re) => re.replace_all(haystack, replacement).into_owned(),
        Err(_) => haystack.to_string(),
    }
}

} // verus!
