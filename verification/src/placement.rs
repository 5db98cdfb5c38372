//! Where a downloaded video is saved: `<root>/<group>[/Sxx]/<title>.mp4`, with the
//! season folder used for series and taken from the file title when it names one.
use vstd::prelude::*;
use crate::pattern::{first_group, regex_first_group, SEASON_IN_TITLE_PATTERN};
use crate::text::{
    chars_eq_str, chars_of, parse_unsigned, parse_unsigned_spec, push_char, push_decimal_padded,
    push_str, string_from, trim, trim_chars, decimal, zero_pad,
};

verus! {

/// The fields of a task that decide where its file goes.
pub struct TaskNaming {
    pub title: String,
    pub task_type: String,
    pub group_title: Option<String>,
    pub season: Option<String>,
}

/// The folder, optional season folder and file name of a downloaded video, relative to
/// the download root.
#[derive(Debug, PartialEq)]
pub struct OutputLocation {
    pub folder: String,
    pub season_folder: Option<String>,
    pub file_name: String,
}

/// The folder of tasks without a group title.
pub const OTHERS_FOLDER: &'static str = "Others";

/// The view of an optional string.
pub open spec fn opt_string(o: Option<String>) -> Option<Seq<char>> {
    match o {
        Some(s) => Some(s@),
        None => None,
    }
}

/// The view of an optional string slice.
pub open spec fn opt_text(o: Option<&str>) -> Option<Seq<char>> {
    match o {
        Some(s) => Some(s@),
        None => None,
    }
}

/// A season field read as a number: trimmed, not empty, and a `u32` as `str::parse`
/// reads it.
pub open spec fn season_number_spec(season: Option<Seq<char>>) -> Option<nat> {
    match season {
        Some(v) => if trim(v).len() == 0 {
            None
        } else {
            parse_unsigned_spec(trim(v), u32::MAX as nat)
        },
        None => None,
    }
}

/// The season number that a season field gives, if any (`" 2 "` gives 2).
pub fn parse_season_number(season: Option<&str>) -> (r: Option<u32>)
    ensures
        match season_number_spec(opt_text(season)) {
            Some(n) => r == Some(n as u32),
            None => r is None,
        },
{
    match season {
        None => None,
        Some(v) => {
            let t = trim_chars(chars_of(v).as_slice());
            if t.len() == 0 {
                None
            } else {
                match parse_unsigned(t.as_slice(), 4294967295u64) {
                    Some(n) => Some(n as u32),
                    None => None,
                }
            }
        },
    }
}

/// The season that a file title names (`Show.S02E01` names 2): the digits that the
/// season pattern captures, read as a `u32`.
pub open spec fn title_season_spec(season_in_title: Option<Seq<char>>) -> Option<nat> {
    match season_in_title {
        Some(g) => parse_unsigned_spec(g, u32::MAX as nat),
        None => None,
    }
}

/// The season number in the digits that the season pattern captured in a title.
pub fn season_from_capture(season_in_title: Option<&str>) -> (r: Option<u32>)
    ensures
        match title_season_spec(opt_text(season_in_title)) {
            Some(n) => r == Some(n as u32),
            None => r is None,
        },
{
    match season_in_title {
        None => None,
        Some(g) => match parse_unsigned(chars_of(g).as_slice(), 4294967295u64) {
            Some(n) => Some(n as u32),
            None => None,
        },
    }
}

/// The season that a file title names, found by `SEASON_IN_TITLE_PATTERN`.
pub fn extract_season_from_title(title: &str) -> (r: Option<u32>)
    ensures
        match title_season_spec(regex_first_group(SEASON_IN_TITLE_PATTERN@, title@)) {
            Some(n) => r == Some(n as u32),
            None => r is None,
        },
{
    let g = first_group(SEASON_IN_TITLE_PATTERN, title);
    match g {
        Some(s) => season_from_capture(Some(s.as_str())),
        None => season_from_capture(None),
    }
}

/// Where a task's file goes: the group title, type and season come from its parent
/// when it has one (a missing parent gives no group title, the task's own type and no
/// season), else from the task itself; without group title the folder is `Others`;
/// series get a season folder `Sxx` from the season in the title (`season_in_title`,
/// what the season pattern captured), else from the season field; the file is
/// `<title>.mp4`.
pub open spec fn output_location_spec(
    task: TaskNaming,
    has_parent: bool,
    parent: Option<TaskNaming>,
    season_in_title: Option<Seq<char>>,
) -> (Seq<char>, Option<Seq<char>>, Seq<char>) {
    let group: Option<Seq<char>> = if has_parent {
        match parent {
            Some(p) => opt_string(p.group_title),
            None => None,
        }
    } else {
        opt_string(task.group_title)
    };
    let kind: Seq<char> = if has_parent {
        match parent {
            Some(p) => p.task_type@,
            None => task.task_type@,
        }
    } else {
        task.task_type@
    };
    let season: Option<Seq<char>> = if has_parent {
        match parent {
            Some(p) => opt_string(p.season),
            None => None,
        }
    } else {
        opt_string(task.season)
    };
    let folder = match group {
        Some(g) => g,
        None => OTHERS_FOLDER@,
    };
    let number: Option<nat> = match title_season_spec(season_in_title) {
        Some(n) => Some(n),
        None => season_number_spec(season),
    };
    let season_folder: Option<Seq<char>> = if kind == "series"@ {
        match number {
            Some(n) => Some(seq!['S'] + zero_pad(decimal(n), 2)),
            None => None,
        }
    } else {
        None
    };
    (folder, season_folder, task.title@ + ".mp4"@)
}

/// A task with a parent goes where its parent says: the folder is the parent's group
/// title (or `Others`), and a series parent gives a season folder `Sxx` from the season
/// its title names, else from the parent's own season field; the task's own group
/// title, type and season play no part, and the file is the task's title with `.mp4`.
pub proof fn law_parent_decides_location(
    task: TaskNaming,
    other: TaskNaming,
    parent: TaskNaming,
    season_in_title: Option<Seq<char>>,
)
    requires
        other.title@ == task.title@,
    ensures
        output_location_spec(task, true, Some(parent), season_in_title)
            == output_location_spec(other, true, Some(parent), season_in_title),
        output_location_spec(task, true, Some(parent), season_in_title).0 == match opt_string(parent.group_title) {
            Some(g) => g,
            None => OTHERS_FOLDER@,
        },
        output_location_spec(task, true, Some(parent), season_in_title).2 == task.title@ + ".mp4"@,
        parent.task_type@ == "series"@ && title_season_spec(season_in_title) is None
            ==> output_location_spec(task, true, Some(parent), season_in_title).1 == match season_number_spec(
            opt_string(parent.season),
        ) {
            Some(n) => Some(seq!['S'] + zero_pad(decimal(n), 2)),
            None => None,
        },
        parent.task_type@ == "series"@ && title_season_spec(season_in_title) is Some
            ==> output_location_spec(task, true, Some(parent), season_in_title).1 == Some(
            seq!['S'] + zero_pad(decimal(title_season_spec(season_in_title)->0), 2),
        ),
        parent.task_type@ != "series"@ ==> output_location_spec(task, true, Some(parent), season_in_title).1 is None,
{
}

/// A task without a parent goes where its own fields say: its group title (or `Others`),
/// and for a series a season folder `Sxx` from the season its title names, else from its
/// own season field. A task whose parent is missing goes to `Others`, with a season
/// folder only from its title, for a series.
pub proof fn law_own_fields_decide_location(task: TaskNaming, season_in_title: Option<Seq<char>>)
    ensures
        output_location_spec(task, false, None, season_in_title).0 == match opt_string(task.group_title) {
            Some(g) => g,
            None => OTHERS_FOLDER@,
        },
        output_location_spec(task, false, None, season_in_title).2 == task.title@ + ".mp4"@,
        task.task_type@ == "series"@ ==> output_location_spec(task, false, None, season_in_title).1 == match title_season_spec(
            season_in_title,
        ) {
            Some(n) => Some(seq!['S'] + zero_pad(decimal(n), 2)),
            None => match season_number_spec(opt_string(task.season)) {
                Some(n) => Some(seq!['S'] + zero_pad(decimal(n), 2)),
                None => None,
            },
        },
        task.task_type@ != "series"@ ==> output_location_spec(task, false, None, season_in_title).1 is None,
        output_location_spec(task, true, None, season_in_title).0 == OTHERS_FOLDER@,
        task.task_type@ == "series"@ ==> output_location_spec(task, true, None, season_in_title).1 == match title_season_spec(
            season_in_title,
        ) {
            Some(n) => Some(seq!['S'] + zero_pad(decimal(n), 2)),
            None => None,
        },
{
}

fn copy_opt(o: &Option<String>) -> (r: Option<String>)
    ensures
        opt_string(r) == opt_string(*o),
{
    match o {
        Some(s) => Some(string_from(chars_of(s.as_str()).as_slice())),
        None => None,
    }
}

/// Where a task's file goes, given what the season pattern captured in its title (see
/// `output_location_spec`).
pub fn output_location_with(
    task: &TaskNaming,
    has_parent: bool,
    parent: Option<&TaskNaming>,
    season_in_title: Option<&str>,
) -> (r: OutputLocation)
    ensures
        (r.folder@, opt_string(r.season_folder), r.file_name@) == output_location_spec(
            *task,
            has_parent,
            match parent {
                Some(p) => Some(*p),
                None => None,
            },
            opt_text(season_in_title),
        ),
{
    let (group, kind, season): (Option<String>, String, Option<String>) = if has_parent {
        match parent {
            Some(p) => (
                copy_opt(&p.group_title),
                string_from(chars_of(p.task_type.as_str()).as_slice()),
                copy_opt(&p.season),
            ),
            None => (None, string_from(chars_of(task.task_type.as_str()).as_slice()), None),
        }
    } else {
        (
            copy_opt(&task.group_title),
            string_from(chars_of(task.task_type.as_str()).as_slice()),
            copy_opt(&task.season),
        )
    };
    let folder = match group {
        Some(g) => g,
        None => String::from_str(OTHERS_FOLDER),
    };
    let number = match season_from_capture(season_in_title) {
        Some(n) => Some(n),
        None => match &season {
            Some(s) => parse_season_number(Some(s.as_str())),
            None => parse_season_number(None),
        },
    };
    let season_folder = if chars_eq_str(chars_of(kind.as_str()).as_slice(), "series") {
        match number {
            Some(n) => {
                let mut f = String::new();
                push_char(&mut f, 'S');
                push_decimal_padded(&mut f, n as u64, 2);
                assert(f@ =~= seq!['S'] + zero_pad(decimal(n as nat), 2));
                Some(f)
            },
            None => None,
        }
    } else {
        None
    };
    let mut file_name = string_from(chars_of(task.title.as_str()).as_slice());
    push_str(&mut file_name, ".mp4");
    OutputLocation { folder, season_folder, file_name }
}

/// Where a task's file goes (see `output_location_spec`), with the season in the title
/// found by `SEASON_IN_TITLE_PATTERN`.
pub fn output_location(task: &TaskNaming, has_parent: bool, parent: Option<&TaskNaming>) -> (r:
    OutputLocation)
    ensures
        (r.folder@, opt_string(r.season_folder), r.file_name@) == output_location_spec(
            *task,
            has_parent,
            match parent {
                Some(p) => Some(*p),
                None => None,
            },
            regex_first_group(SEASON_IN_TITLE_PATTERN@, task.title@),
        ),
{
    let g = first_group(SEASON_IN_TITLE_PATTERN, task.title.as_str());
    match g {
        Some(s) => output_location_with(task, has_parent, parent, Some(s.as_str())),
        None => output_location_with(task, has_parent, parent, None),
    }
}

} // verus!
