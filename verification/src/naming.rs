//! Turning a task-creation request into a parent task and named subtasks: the year and
//! season fields are cleaned, the raw subtask text is read line by line (`URL [title]`),
//! and each subtask gets a file-name friendly title that depends on the category.
use vstd::prelude::*;
use crate::pattern::{
    find_match, first_group, is_match, regex_first_group, regex_first_match, regex_is_match,
    regex_replaced, replace_all, EPISODE_IN_SUBTITLE_PATTERN, ONLY_NUMBER_PATTERN,
    SEASON_IN_SUBTITLE_PATTERN, SEASON_NUMBER_PATTERN, UNSAFE_TITLE_PATTERN, YEAR_PATTERN,
};
use crate::text::{
    chars_eq_str, chars_of, decimal, join_from, join_with, parse_unsigned, parse_unsigned_spec,
    push_char, push_chars, push_decimal_padded, push_str, split_chars, split_on, split_words, nonblank_lines, nonblank_lines_of,
    lemma_keep_nonblank, lemma_trimmed_nonblank_has_words,
    string_from, trim, trim_chars, views_of, words, zero_pad,
};

verus! {

/// A request to create a task: a title, a category (`series`, `movie` or another), an
/// optional year and season, and one `URL [title]` line per subtask.
pub struct CreateTaskRequest {
    pub title: String,
    pub category: String,
    pub year: Option<String>,
    pub season: Option<String>,
    pub raw_subtasks: String,
}

/// A subtask to create: the playlist URL and the title its file is named after.
pub struct PlannedSubtask {
    pub url: String,
    pub title: String,
}

/// What a creation request turns into: the cleaned year and season of the parent
/// task, and the subtasks in the order of their lines.
pub struct TaskPlan {
    pub year: Option<String>,
    pub season: Option<String>,
    pub subtasks: Vec<PlannedSubtask>,
}

/// The view of an optional string.
pub open spec fn opt_chars(o: Option<String>) -> Option<Seq<char>> {
    match o {
        Some(s) => Some(s@),
        None => None,
    }
}

/// The number that `s` denotes as a `u32`, or `default` when it is not one.
pub open spec fn u32_or(s: Seq<char>, default: nat) -> nat {
    match parse_unsigned_spec(s, u32::MAX as nat) {
        Some(v) => v,
        None => default,
    }
}

/// `prefix` followed by `n` in at least two digits (`S01`, `E12`).
pub open spec fn numbered(prefix: char, n: nat) -> Seq<char> {
    seq![prefix] + zero_pad(decimal(n), 2)
}

/// The season label of a series subtask: the season that its title names, else the
/// season of the task, else season 1.
pub open spec fn season_label(season: Option<Seq<char>>, season_in_title: Option<Seq<char>>) -> Seq<
    char,
> {
    match season_in_title {
        Some(g) => numbered('S', u32_or(g, 1)),
        None => match season {
            Some(s) => numbered('S', u32_or(s, 1)),
            None => numbered('S', 1),
        },
    }
}

/// The episode label of a series subtask: the episode that its title names; else, for
/// an empty title, its position (counting from 1); else, for a title that is only a
/// number, that number (or the position when it does not fit a `usize`); else none.
pub open spec fn episode_label(
    title: Seq<char>,
    index: nat,
    episode_in_title: Option<Seq<char>>,
    title_is_number: bool,
) -> Seq<char> {
    match episode_in_title {
        Some(g) => numbered('E', u32_or(g, 1)),
        None => if title.len() == 0 {
            numbered('E', index + 1)
        } else if title_is_number {
            numbered(
                'E',
                match parse_unsigned_spec(title, usize::MAX as nat) {
                    Some(v) => v,
                    None => index + 1,
                },
            )
        } else {
            Seq::empty()
        },
    }
}

/// `.NN`, the position of a subtask among several (counting from 1); nothing when there
/// is a single subtask.
pub open spec fn sequence_suffix(index: nat, count: nat) -> Seq<char> {
    if count > 1 {
        seq!['.'] + zero_pad(decimal(index + 1), 2)
    } else {
        Seq::empty()
    }
}

/// The title of a series subtask: `group.SxxEyy` when it has an episode label, else
/// `group.title`, else `group.Sxx`.
pub open spec fn series_title_spec(
    group: Seq<char>,
    season: Option<Seq<char>>,
    title: Seq<char>,
    index: nat,
    season_in_title: Option<Seq<char>>,
    episode_in_title: Option<Seq<char>>,
    title_is_number: bool,
) -> Seq<char> {
    let s = season_label(season, season_in_title);
    let e = episode_label(title, index, episode_in_title, title_is_number);
    if e.len() > 0 {
        group + seq!['.'] + s + e
    } else if title.len() > 0 {
        group + seq!['.'] + title
    } else {
        group + seq!['.'] + s
    }
}

/// The title of a movie subtask: `group[.year][.title][.NN]`.
pub open spec fn movie_title_spec(
    group: Seq<char>,
    year: Option<Seq<char>>,
    title: Seq<char>,
    index: nat,
    count: nat,
) -> Seq<char> {
    let y = match year {
        Some(y) => seq!['.'] + y,
        None => Seq::empty(),
    };
    if title.len() > 0 {
        group + y + seq!['.'] + title + sequence_suffix(index, count)
    } else {
        group + y + sequence_suffix(index, count)
    }
}

/// The title of a subtask of any other category: `group[.title][.NN]`.
pub open spec fn other_title_spec(group: Seq<char>, title: Seq<char>, index: nat, count: nat) -> Seq<
    char,
> {
    if title.len() > 0 {
        group + seq!['.'] + title + sequence_suffix(index, count)
    } else {
        group + sequence_suffix(index, count)
    }
}

/// The title of subtask `index` of `count`, from the safe group title, the category,
/// the task's season and year, the subtask's own title, and what the season, episode and
/// number patterns found in that title.
pub open spec fn subtask_title_spec(
    category: Seq<char>,
    group: Seq<char>,
    season: Option<Seq<char>>,
    year: Option<Seq<char>>,
    title: Seq<char>,
    index: nat,
    count: nat,
    season_in_title: Option<Seq<char>>,
    episode_in_title: Option<Seq<char>>,
    title_is_number: bool,
) -> Seq<char> {
    if category == "series"@ {
        series_title_spec(group, season, title, index, season_in_title, episode_in_title, title_is_number)
    } else if category == "movie"@ {
        movie_title_spec(group, year, title, index, count)
    } else {
        other_title_spec(group, title, index, count)
    }
}

/// The view of an optional string slice.
pub open spec fn opt_str_view(o: Option<&str>) -> Option<Seq<char>> {
    match o {
        Some(s) => Some(s@),
        None => None,
    }
}

fn opt_str(o: &Option<String>) -> (r: Option<&str>)
    ensures
        match o {
            Some(s) => r is Some && r->0@ == s@,
            None => r is None,
        },
{
    match o {
        Some(s) => Some(s.as_str()),
        None => None,
    }
}

fn push_numbered(out: &mut String, prefix: char, n: u64)
    ensures
        final(out)@ == old(out)@ + numbered(prefix, n as nat),
{
    push_char(out, prefix);
    push_decimal_padded(out, n, 2);
    assert(final(out)@ =~= old(out)@ + numbered(prefix, n as nat));
}

fn u32_or_value(s: &str, default: u64) -> (r: u64)
    requires
        default <= u32::MAX,
    ensures
        r as nat == u32_or(s@, default as nat),
{
    match parse_unsigned(chars_of(s).as_slice(), 4294967295u64) {
        Some(v) => v,
        None => default,
    }
}

fn series_title(
    group: &str,
    season: Option<&str>,
    title: &str,
    index: usize,
    season_in_title: Option<&str>,
    episode_in_title: Option<&str>,
    title_is_number: bool,
) -> (r: String)
    requires
        index < usize::MAX,
    ensures
        r@ == series_title_spec(
            group@,
            opt_str_view(season),
            title@,
            index as nat,
            opt_str_view(season_in_title),
            opt_str_view(episode_in_title),
            title_is_number,
        ),
{
    let title_len = title.unicode_len();
    let position = (index + 1) as u64;
    let season_number: u64 = match season_in_title {
        Some(g) => u32_or_value(g, 1),
        None => match season {
            Some(s) => u32_or_value(s, 1),
            None => 1,
        },
    };
    let mut episode = String::new();
    match episode_in_title {
        Some(g) => {
            push_numbered(&mut episode, 'E', u32_or_value(g, 1));
        },
        None => {
            if title_len == 0 {
                push_numbered(&mut episode, 'E', position);
            } else if title_is_number {
                let n = match parse_unsigned(chars_of(title).as_slice(), usize::MAX as u64) {
                    Some(v) => v,
                    None => position,
                };
                push_numbered(&mut episode, 'E', n);
            }
        },
    }
    assert(episode@ =~= episode_label(
        title@,
        index as nat,
        opt_str_view(episode_in_title),
        title_is_number,
    ));
    let mut out = String::new();
    push_str(&mut out, group);
    push_char(&mut out, '.');
    if episode.unicode_len() > 0 {
        push_numbered(&mut out, 'S', season_number);
        push_str(&mut out, episode.as_str());
    } else if title_len > 0 {
        push_str(&mut out, title);
    } else {
        push_numbered(&mut out, 'S', season_number);
    }
    out
}

fn push_sequence_suffix(out: &mut String, index: usize, count: usize)
    requires
        index < count,
    ensures
        final(out)@ == old(out)@ + sequence_suffix(index as nat, count as nat),
{
    if count > 1 {
        push_char(out, '.');
        push_decimal_padded(out, (index + 1) as u64, 2);
    }
    assert(final(out)@ =~= old(out)@ + sequence_suffix(index as nat, count as nat));
}

fn movie_title(group: &str, year: Option<&str>, title: &str, index: usize, count: usize) -> (r:
    String)
    requires
        index < count,
    ensures
        r@ == movie_title_spec(group@, opt_str_view(year), title@, index as nat, count as nat),
{
    let mut out = String::new();
    push_str(&mut out, group);
    match year {
        Some(y) => {
            push_char(&mut out, '.');
            push_str(&mut out, y);
        },
        None => {},
    }
    if title.unicode_len() > 0 {
        push_char(&mut out, '.');
        push_str(&mut out, title);
    }
    push_sequence_suffix(&mut out, index, count);
    assert(out@ =~= movie_title_spec(group@, opt_str_view(year), title@, index as nat, count as nat));
    out
}

fn other_title(group: &str, title: &str, index: usize, count: usize) -> (r: String)
    requires
        index < count,
    ensures
        r@ == other_title_spec(group@, title@, index as nat, count as nat),
{
    let mut out = String::new();
    push_str(&mut out, group);
    if title.unicode_len() > 0 {
        push_char(&mut out, '.');
        push_str(&mut out, title);
    }
    push_sequence_suffix(&mut out, index, count);
    assert(out@ =~= other_title_spec(group@, title@, index as nat, count as nat));
    out
}

/// The title of subtask `index` of `count`, given what the season, episode and number
/// patterns found in its own title `title`. `group` is the task title with the
/// characters that file names cannot hold replaced.
pub fn subtask_title(
    category: &str,
    group: &str,
    season: Option<&str>,
    year: Option<&str>,
    title: &str,
    index: usize,
    count: usize,
    season_in_title: Option<&str>,
    episode_in_title: Option<&str>,
    title_is_number: bool,
) -> (r: String)
    requires
        index < count,
    ensures
        r@ == subtask_title_spec(
            category@,
            group@,
            opt_str_view(season),
            opt_str_view(year),
            title@,
            index as nat,
            count as nat,
            opt_str_view(season_in_title),
            opt_str_view(episode_in_title),
            title_is_number,
        ),
{
    let cat = chars_of(category);
    if chars_eq_str(cat.as_slice(), "series") {
        series_title(group, season, title, index, season_in_title, episode_in_title, title_is_number)
    } else if chars_eq_str(cat.as_slice(), "movie") {
        movie_title(group, year, title, index, count)
    } else {
        other_title(group, title, index, count)
    }
}

/// A movie subtask with a title of its own is named after the group, then `.` and the
/// year when there is one, then `.` and its title, then its number among several: its
/// title is set off by a `.` with or without a year, and a year only adds `.year` after
/// the group. What the patterns found in the title plays no part.
pub proof fn law_movie_subtask_title(
    group: Seq<char>,
    season: Option<Seq<char>>,
    year: Option<Seq<char>>,
    title: Seq<char>,
    index: nat,
    count: nat,
    season_in_title: Option<Seq<char>>,
    episode_in_title: Option<Seq<char>>,
    title_is_number: bool,
)
    requires
        title.len() > 0,
    ensures
        subtask_title_spec("movie"@, group, season, year, title, index, count, season_in_title, episode_in_title, title_is_number)
            == group + (match year {
                Some(y) => seq!['.'] + y,
                None => Seq::empty(),
            }) + seq!['.'] + title + sequence_suffix(index, count),
        subtask_title_spec("movie"@, group, season, None, title, index, count, season_in_title, episode_in_title, title_is_number)
            .subrange(group.len() as int, (group.len() + 1 + title.len()) as int) == seq!['.'] + title,
        forall|y: Seq<char>|
            #[trigger] subtask_title_spec("movie"@, group, season, Some(y), title, index, count, season_in_title, episode_in_title, title_is_number)
                == group + seq!['.'] + y + subtask_title_spec("movie"@, group, None, None, title, index, count, None, None, false)
                .skip(group.len() as int),
{
    reveal_strlit("movie");
    reveal_strlit("series");
    assert("movie"@ != "series"@) by {
        assert("movie"@[0] != "series"@[0]);
    }
    let plain = group + seq!['.'] + title + sequence_suffix(index, count);
    assert(plain.subrange(group.len() as int, (group.len() + 1 + title.len()) as int) =~= seq!['.'] + title);
    assert(plain.skip(group.len() as int) =~= seq!['.'] + title + sequence_suffix(index, count));
    assert forall|y: Seq<char>|
        #[trigger] subtask_title_spec("movie"@, group, season, Some(y), title, index, count, season_in_title, episode_in_title, title_is_number)
            == group + seq!['.'] + y + plain.skip(group.len() as int) by {
        assert(group + (seq!['.'] + y) + seq!['.'] + title + sequence_suffix(index, count)
            =~= group + seq!['.'] + y + (seq!['.'] + title + sequence_suffix(index, count)));
    }
}

/// A subtask of a category other than series and movie is named after the group, then
/// `.` and its own title when it has one, then its number among several (`.NN`, from
/// `01`, only when there are several); season, year and what the patterns found play no
/// part.
pub proof fn law_other_subtask_title(
    category: Seq<char>,
    group: Seq<char>,
    season: Option<Seq<char>>,
    year: Option<Seq<char>>,
    title: Seq<char>,
    index: nat,
    count: nat,
    season_in_title: Option<Seq<char>>,
    episode_in_title: Option<Seq<char>>,
    title_is_number: bool,
)
    requires
        category != "series"@,
        category != "movie"@,
    ensures
        subtask_title_spec(category, group, season, year, title, index, count, season_in_title, episode_in_title, title_is_number)
            == group + (if title.len() > 0 {
                seq!['.'] + title
            } else {
                Seq::empty()
            }) + (if count > 1 {
                seq!['.'] + zero_pad(decimal(index + 1), 2)
            } else {
                Seq::empty()
            }),
{
    if title.len() > 0 {
        assert(group + seq!['.'] + title + sequence_suffix(index, count)
            =~= group + (seq!['.'] + title) + sequence_suffix(index, count));
    } else {
        assert(group + sequence_suffix(index, count) =~= group + Seq::<char>::empty() + sequence_suffix(index, count));
    }
}

/// The URL of a subtask line: its first word.
pub open spec fn line_url(line: Seq<char>) -> Seq<char> {
    words(line)[0]
}

/// The title of a subtask line: its other words, joined by single spaces.
pub open spec fn line_title(line: Seq<char>) -> Seq<char> {
    join_with(words(line).subrange(1, words(line).len() as int), seq![' '])
}

/// A task field cleaned by a pattern: the first match of `pattern` in it.
pub open spec fn cleaned_field(field: Option<Seq<char>>, pattern: Seq<char>) -> Option<Seq<char>> {
    match field {
        Some(f) => regex_first_match(pattern, f),
        None => None,
    }
}

/// The title of the subtask of non-blank line `k` of a request.
pub open spec fn planned_title(req: CreateTaskRequest, k: int) -> Seq<char> {
    let lines = nonblank_lines(req.raw_subtasks@);
    let title = line_title(lines[k]);
    subtask_title_spec(
        req.category@,
        regex_replaced(UNSAFE_TITLE_PATTERN@, req.title@, "_"@),
        cleaned_field(opt_chars(req.season), SEASON_NUMBER_PATTERN@),
        cleaned_field(opt_chars(req.year), YEAR_PATTERN@),
        title,
        k as nat,
        lines.len(),
        regex_first_group(SEASON_IN_SUBTITLE_PATTERN@, title),
        regex_first_group(EPISODE_IN_SUBTITLE_PATTERN@, title),
        regex_is_match(ONLY_NUMBER_PATTERN@, title),
    )
}

/// What a request turns into: the year and season fields reduced to the first run of
/// four digits and of digits; one subtask per non-blank line of `raw_subtasks`, in
/// order, with the line's first word as URL and the title that `subtask_title_spec`
/// gives for the rest of the line.
pub open spec fn task_plan_spec(req: CreateTaskRequest, r: TaskPlan) -> bool {
    let lines = nonblank_lines(req.raw_subtasks@);
    &&& opt_chars(r.year) == cleaned_field(opt_chars(req.year), YEAR_PATTERN@)
    &&& opt_chars(r.season) == cleaned_field(opt_chars(req.season), SEASON_NUMBER_PATTERN@)
    &&& r.subtasks@.len() == lines.len()
    &&& forall|k: int|
        0 <= k < lines.len() ==> {
            &&& (#[trigger] r.subtasks@[k]).url@ == line_url(lines[k])
            &&& r.subtasks@[k].title@ == planned_title(req, k)
        }
}

fn clean_field(field: &Option<String>, pattern: &str) -> (r: Option<String>)
    ensures
        opt_chars(r) == cleaned_field(opt_chars(*field), pattern@),
{
    match field {
        Some(f) => find_match(pattern, f.as_str()),
        None => None,
    }
}

/// Plans the subtasks of a creation request (see `task_plan_spec`).
pub fn plan_task(req: &CreateTaskRequest) -> (r: TaskPlan)
    ensures
        task_plan_spec(*req, r),
{
    let year = clean_field(&req.year, YEAR_PATTERN);
    let season = clean_field(&req.season, SEASON_NUMBER_PATTERN);
    let group = replace_all(UNSAFE_TITLE_PATTERN, req.title.as_str(), "_");
    let lines = nonblank_lines_of(chars_of(req.raw_subtasks.as_str()).as_slice());
    let ghost line_views = nonblank_lines(req.raw_subtasks@);
    proof {
        lemma_keep_nonblank(split_on(req.raw_subtasks@, '\n'));
    }
    let count = lines.len();
    let mut subtasks: Vec<PlannedSubtask> = Vec::new();
    let mut k: usize = 0;
    while k < count
        invariant
            count == lines@.len(),
            line_views == views_of(lines@),
            line_views == nonblank_lines(req.raw_subtasks@),
            forall|j: int| 0 <= j < line_views.len() ==> trim(#[trigger] line_views[j]).len() > 0,
            k <= count,
            opt_chars(year) == cleaned_field(opt_chars(req.year), YEAR_PATTERN@),
            opt_chars(season) == cleaned_field(opt_chars(req.season), SEASON_NUMBER_PATTERN@),
            group@ == regex_replaced(UNSAFE_TITLE_PATTERN@, req.title@, "_"@),
            subtasks@.len() == k,
            forall|j: int|
                0 <= j < k ==> {
                    &&& (#[trigger] subtasks@[j]).url@ == line_url(line_views[j])
                    &&& subtasks@[j].title@ == planned_title(*req, j)
                },
        decreases count - k,
    {
        assert(line_views[k as int] == lines@[k as int]@);
        proof {
            lemma_trimmed_nonblank_has_words(line_views[k as int]);
        }
        let parts = split_words(lines[k].as_slice());
        assert(views_of(parts@)[0] == parts@[0]@);
        let url = string_from(parts[0].as_slice());
        let title_chars = join_from(&parts, 1, ' ');
        let title = string_from(title_chars.as_slice());
        let season_in_title = first_group(SEASON_IN_SUBTITLE_PATTERN, title.as_str());
        let episode_in_title = first_group(EPISODE_IN_SUBTITLE_PATTERN, title.as_str());
        let title_is_number = is_match(ONLY_NUMBER_PATTERN, title.as_str());
        let name = subtask_title(
            req.category.as_str(),
            group.as_str(),
            opt_str(&season),
            opt_str(&year),
            title.as_str(),
            k,
            count,
            opt_str(&season_in_title),
            opt_str(&episode_in_title),
            title_is_number,
        );
        subtasks.push(PlannedSubtask { url, title: name });
        k = k + 1;
    }
    TaskPlan { year, season, subtasks }
}

} // verus!
