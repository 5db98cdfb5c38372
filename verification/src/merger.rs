//! Merging downloaded segments: the local playlist that lists them for FFmpeg, and the
//! FFmpeg arguments.
use vstd::prelude::*;
use crate::text::{chars_of, decimal, push_decimal, push_str, string_from};

verus! {

/// Merges the segments of a finished download into one video (with FFmpeg).
pub struct VideoMerger;

/// One segment as the local playlist lists it: its duration as text (as `{}` prints the
/// 32-bit duration), that duration rounded up, its file, and its map file if any.
pub struct PlaylistEntry {
    pub duration_text: String,
    pub duration_ceil: u64,
    pub file_name: String,
    pub map_file: Option<String>,
}

/// The view of an optional string.
pub open spec fn opt_string(o: Option<String>) -> Option<Seq<char>> {
    match o {
        Some(s) => Some(s@),
        None => None,
    }
}

/// The largest rounded-up duration of the entries, at least 1.
pub open spec fn target_duration(entries: Seq<PlaylistEntry>) -> nat
    decreases entries.len(),
{
    if entries.len() == 0 {
        1
    } else {
        let m = target_duration(entries.drop_last());
        let c = entries.last().duration_ceil as nat;
        if c > m {
            c
        } else {
            m
        }
    }
}

/// The map in force before entry `i`: the map of the entry before it.
pub open spec fn map_before(entries: Seq<PlaylistEntry>, i: int) -> Option<Seq<char>> {
    if i == 0 {
        None
    } else {
        opt_string(entries[i - 1].map_file)
    }
}

/// The lines of entry `i`: an `#EXT-X-MAP` line when its map differs from the one in
/// force and it has one, then its `#EXTINF` line and its file.
pub open spec fn entry_text(entries: Seq<PlaylistEntry>, i: int) -> Seq<char> {
    let e = entries[i];
    let map_line = if opt_string(e.map_file) != map_before(entries, i) && e.map_file is Some {
        "#EXT-X-MAP:URI=\""@ + e.map_file->0@ + "\"\n"@
    } else {
        Seq::empty()
    };
    map_line + "#EXTINF:"@ + e.duration_text@ + ",\n"@ + e.file_name@ + "\n"@
}

/// The lines of the first `n` entries.
pub open spec fn entries_text(entries: Seq<PlaylistEntry>, n: nat) -> Seq<char>
    decreases n,
{
    if n == 0 {
        Seq::empty()
    } else {
        entries_text(entries, (n - 1) as nat) + entry_text(entries, n - 1)
    }
}

/// The local playlist: a version 7 header with the target duration and media sequence
/// 0, the entries' lines, and `#EXT-X-ENDLIST`.
pub open spec fn local_playlist(entries: Seq<PlaylistEntry>) -> Seq<char> {
    "#EXTM3U\n#EXT-X-VERSION:7\n#EXT-X-TARGETDURATION:"@ + decimal(target_duration(entries))
        + "\n#EXT-X-MEDIA-SEQUENCE:0\n"@ + entries_text(entries, entries.len())
        + "#EXT-X-ENDLIST\n"@
}

fn same_map(a: &Option<String>, b: &Option<String>) -> (r: bool)
    ensures
        r == (opt_string(*a) == opt_string(*b)),
{
    match (a, b) {
        (Some(x), Some(y)) => *x == *y,
        (None, None) => true,
        _ => false,
    }
}

/// Writes the local playlist that lists the downloaded segments for FFmpeg.
pub fn build_local_playlist(entries: &Vec<PlaylistEntry>) -> (r: String)
    ensures
        r@ == local_playlist(entries@),
{
    let mut target: u64 = 1;
    let mut i: usize = 0;
    assert(entries@.subrange(0, 0) =~= Seq::<PlaylistEntry>::empty());
    while i < entries.len()
        invariant
            i <= entries@.len(),
            target as nat == target_duration(entries@.subrange(0, i as int)),
        decreases entries@.len() - i,
    {
        let ghost pre = entries@.subrange(0, i + 1);
        assert(pre.drop_last() =~= entries@.subrange(0, i as int));
        if entries[i].duration_ceil > target {
            target = entries[i].duration_ceil;
        }
        i = i + 1;
    }
    assert(entries@.subrange(0, entries@.len() as int) =~= entries@);
    let mut out = String::new();
    push_str(&mut out, "#EXTM3U\n#EXT-X-VERSION:7\n#EXT-X-TARGETDURATION:");
    push_decimal(&mut out, target);
    push_str(&mut out, "\n#EXT-X-MEDIA-SEQUENCE:0\n");
    let ghost header = out@;
    let mut k: usize = 0;
    while k < entries.len()
        invariant
            k <= entries@.len(),
            out@ == header + entries_text(entries@, k as nat),
        decreases entries@.len() - k,
    {
        let e = &entries[k];
        let changed = if k == 0 {
            e.map_file.is_some()
        } else {
            !same_map(&e.map_file, &entries[k - 1].map_file)
        };
        let ghost before = out@;
        if changed {
            match &e.map_file {
                Some(m) => {
                    push_str(&mut out, "#EXT-X-MAP:URI=\"");
                    push_str(&mut out, m.as_str());
                    push_str(&mut out, "\"\n");
                },
                None => {},
            }
        }
        push_str(&mut out, "#EXTINF:");
        push_str(&mut out, e.duration_text.as_str());
        push_str(&mut out, ",\n");
        push_str(&mut out, e.file_name.as_str());
        push_str(&mut out, "\n");
        assert(out@ =~= before + entry_text(entries@, k as int));
        k = k + 1;
    }
    push_str(&mut out, "#EXT-X-ENDLIST\n");
    assert(out@ =~= local_playlist(entries@));
    out
}

/// The beginning of the local playlist, up to its target duration.
pub open spec fn playlist_head() -> Seq<char> {
    "#EXTM3U\n#EXT-X-VERSION:7\n#EXT-X-TARGETDURATION:"@
}

/// The target duration written is the largest rounded-up duration of the entries, and 1
/// when there are none or all round up to 0: at least each entry's, at least 1, and one
/// of them (or 1).
pub proof fn law_target_duration(entries: Seq<PlaylistEntry>)
    ensures
        local_playlist(entries).subrange(0, (playlist_head().len() + decimal(target_duration(entries)).len()) as int)
            == playlist_head() + decimal(target_duration(entries)),
        target_duration(entries) >= 1,
        forall|i: int| 0 <= i < entries.len() ==> (#[trigger] entries[i]).duration_ceil <= target_duration(entries),
        target_duration(entries) == 1 || exists|i: int|
            0 <= i < entries.len() && (#[trigger] entries[i]).duration_ceil == target_duration(entries),
    decreases entries.len(),
{
    let text = local_playlist(entries);
    let d = decimal(target_duration(entries));
    assert(text.subrange(0, (playlist_head().len() + d.len()) as int) =~= playlist_head() + d);
    if entries.len() > 0 {
        let rest = entries.drop_last();
        law_target_duration(rest);
        assert forall|i: int| 0 <= i < entries.len() implies (#[trigger] entries[i]).duration_ceil <= target_duration(entries) by {
            if i < entries.len() - 1 {
                assert(entries[i] == rest[i]);
            }
        }
        if target_duration(entries) != 1 {
            if target_duration(entries) == entries.last().duration_ceil {
                assert(entries[entries.len() - 1] == entries.last());
            } else {
                let i = choose|i: int| 0 <= i < rest.len() && (#[trigger] rest[i]).duration_ceil == target_duration(rest);
                assert(entries[i] == rest[i]);
            }
        }
    }
}

/// The `#EXT-X-MAP` line of the map file `m`.
pub open spec fn map_line(m: Seq<char>) -> Seq<char> {
    "#EXT-X-MAP:URI=\""@ + m + "\"\n"@
}

/// The `#EXTINF` line of an entry and its file.
pub open spec fn segment_lines(e: PlaylistEntry) -> Seq<char> {
    "#EXTINF:"@ + e.duration_text@ + ",\n"@ + e.file_name@ + "\n"@
}

/// In the local playlist, the map in force at each entry that has a map file is that
/// file: some entry `j` at or before it writes the `#EXT-X-MAP` line of that file, and
/// no entry after `j` up to it writes any `#EXT-X-MAP` line.
pub proof fn law_map_in_force(entries: Seq<PlaylistEntry>, i: int)
    requires
        0 <= i < entries.len(),
        entries[i].map_file is Some,
    ensures
        exists|j: int|
            0 <= j <= i && #[trigger] entry_text(entries, j) == map_line(entries[i].map_file->0@) + segment_lines(entries[j])
                && forall|k: int| j < k <= i ==> #[trigger] entry_text(entries, k) == segment_lines(entries[k]),
    decreases i,
{
    let m = entries[i].map_file->0@;
    if opt_string(entries[i].map_file) != map_before(entries, i) {
        assert(entry_text(entries, i) =~= map_line(m) + segment_lines(entries[i]));
    } else {
        assert(i > 0);
        assert(entry_text(entries, i) =~= segment_lines(entries[i]));
        law_map_in_force(entries, i - 1);
        assert(entries[i - 1].map_file->0@ == m);
        let j = choose|j: int|
            0 <= j <= i - 1 && #[trigger] entry_text(entries, j) == map_line(m) + segment_lines(entries[j])
                && forall|k: int| j < k <= i - 1 ==> #[trigger] entry_text(entries, k) == segment_lines(entries[k]);
        assert(forall|k: int| j < k <= i ==> #[trigger] entry_text(entries, k) == segment_lines(entries[k]));
    }
}

/// The local playlist holds each entry's lines in order: the text of the first `n`
/// entries, with the text of entry `n`, gives the text of the first `n + 1`.
pub proof fn law_entries_in_order(entries: Seq<PlaylistEntry>, n: nat)
    requires
        n < entries.len(),
    ensures
        entries_text(entries, n + 1) == entries_text(entries, n) + entry_text(entries, n as int),
        local_playlist(entries) == playlist_head() + decimal(target_duration(entries))
            + "\n#EXT-X-MEDIA-SEQUENCE:0\n"@ + entries_text(entries, entries.len()) + "#EXT-X-ENDLIST\n"@,
{
}

/// The FFmpeg arguments that merge the local video playlist (and, when there is one, the
/// audio playlist, taking video from the first input and audio from the second) by
/// copying streams; the output file follows them.
pub open spec fn merge_args_spec(has_audio: bool) -> Seq<Seq<char>> {
    let video = seq!["-y"@, "-allowed_extensions"@, "ALL"@, "-i"@, "video_playlist.m3u8"@];
    let audio = if has_audio {
        seq![
            "-allowed_extensions"@,
            "ALL"@,
            "-i"@,
            "audio_playlist.m3u8"@,
            "-map"@,
            "0:v:0"@,
            "-map"@,
            "1:a:0"@,
        ]
    } else {
        Seq::empty()
    };
    video + audio + seq!["-c"@, "copy"@]
}

/// The strings that a vector of strings holds.
pub open spec fn strings_view(v: Seq<String>) -> Seq<Seq<char>> {
    Seq::new(v.len(), |i: int| v[i]@)
}

fn push_arg(args: &mut Vec<String>, a: &str)
    ensures
        strings_view(final(args)@) == strings_view(old(args)@).push(a@),
{
    let s = string_from(chars_of(a).as_slice());
    args.push(s);
    assert(strings_view(args@) =~= strings_view(old(args)@).push(a@));
}

/// The FFmpeg arguments of a merge, before the output file (see `merge_args_spec`).
pub fn merge_args(has_audio: bool) -> (r: Vec<String>)
    ensures
        strings_view(r@) == merge_args_spec(has_audio),
{
    let mut args: Vec<String> = Vec::new();
    push_arg(&mut args, "-y");
    push_arg(&mut args, "-allowed_extensions");
    push_arg(&mut args, "ALL");
    push_arg(&mut args, "-i");
    push_arg(&mut args, "video_playlist.m3u8");
    if has_audio {
        push_arg(&mut args, "-allowed_extensions");
        push_arg(&mut args, "ALL");
        push_arg(&mut args, "-i");
        push_arg(&mut args, "audio_playlist.m3u8");
        push_arg(&mut args, "-map");
        push_arg(&mut args, "0:v:0");
        push_arg(&mut args, "-map");
        push_arg(&mut args, "1:a:0");
    }
    push_arg(&mut args, "-c");
    push_arg(&mut args, "copy");
    assert(strings_view(args@) =~= merge_args_spec(has_audio));
    args
}


/// Why a merge cannot start.
#[derive(Debug, PartialEq)]
pub enum MergeError {
    /// There are no video segments to merge.
    NoSegments,
}

/// What a merge of `video_segments` video segments and, if given, `audio_segments`
/// audio segments does: nothing without video segments; else whether an audio
/// playlist is merged too (only when audio segments are given and there are some).
pub fn merge_inputs(video_segments: usize, audio_segments: Option<usize>) -> (r: Result<bool, MergeError>)
    ensures
        video_segments == 0 ==> r == Err::<bool, MergeError>(MergeError::NoSegments),
        video_segments > 0 ==> r == Ok::<bool, MergeError>(
            match audio_segments {
                Some(n) => n > 0,
                None => false,
            },
        ),
{
    if video_segments == 0 {
        return Err(MergeError::NoSegments);
    }
    match audio_segments {
        Some(n) => Ok(n > 0),
        None => Ok(false),
    }
}

// ---------------------------------------------------------------------------
// Finding FFmpeg
// ---------------------------------------------------------------------------

/// The operating system the program runs on, as far as finding FFmpeg goes.
#[derive(Debug, Clone, Copy, PartialEq, Eq)]
pub enum Platform {
    MacOs,
    Linux,
    Windows,
    Other,
}

/// The Windows install folders that FFmpeg may lie under, read from the environment
/// (`ProgramFiles`, `ProgramFiles(x86)`, `ChocolateyInstall`, `USERPROFILE`,
/// `LOCALAPPDATA`), each absent when the variable is not set.
pub struct WindowsInstallDirs {
    pub program_files: Option<String>,
    pub program_files_x86: Option<String>,
    pub chocolatey_install: Option<String>,
    pub user_profile: Option<String>,
    pub local_app_data: Option<String>,
}

/// The parts of each candidate path, in order.
pub open spec fn candidate_parts(v: Seq<Vec<String>>) -> Seq<Seq<Seq<char>>> {
    Seq::new(v.len(), |i: int| strings_view(v[i]@))
}

/// `base` followed by the path parts `rest`, when `base` is set.
pub open spec fn under(base: Option<String>, rest: Seq<Seq<char>>) -> Seq<Seq<Seq<char>>> {
    match base {
        Some(b) => seq![seq![b@] + rest],
        None => Seq::empty(),
    }
}

/// Where FFmpeg is looked for when it is neither configured nor on the `PATH`: each
/// candidate is a list of path parts to be joined by the platform's path rules.
/// macOS: the Homebrew folders; Linux: the system folders and Snap; Windows: the
/// usual install folders, then one under each install folder that is set; elsewhere
/// none.
pub open spec fn ffmpeg_candidates_spec(platform: Platform, dirs: WindowsInstallDirs) -> Seq<Seq<Seq<char>>> {
    match platform {
        Platform::MacOs => seq![seq!["/opt/homebrew/bin/ffmpeg"@], seq!["/usr/local/bin/ffmpeg"@]],
        Platform::Linux => seq![
            seq!["/usr/bin/ffmpeg"@],
            seq!["/usr/local/bin/ffmpeg"@],
            seq!["/snap/bin/ffmpeg"@],
        ],
        Platform::Windows => seq![
            seq!["C:\\ffmpeg\\bin\\ffmpeg.exe"@],
            seq!["C:\\ProgramData\\chocolatey\\bin\\ffmpeg.exe"@],
        ] + under(dirs.program_files, seq!["ffmpeg"@, "bin"@, "ffmpeg.exe"@]) + under(
            dirs.program_files_x86,
            seq!["ffmpeg"@, "bin"@, "ffmpeg.exe"@],
        ) + under(dirs.chocolatey_install, seq!["bin"@, "ffmpeg.exe"@]) + under(
            dirs.user_profile,
            seq!["scoop"@, "shims"@, "ffmpeg.exe"@],
        ) + under(dirs.local_app_data, seq!["Microsoft"@, "WinGet"@, "Links"@, "ffmpeg.exe"@]),
        Platform::Other => Seq::empty(),
    }
}

fn one_part(part: &str) -> (r: Vec<String>)
    ensures
        strings_view(r@) == seq![part@],
{
    let mut v: Vec<String> = Vec::new();
    push_arg(&mut v, part);
    assert(strings_view(v@) =~= seq![part@]);
    v
}

fn push_candidate(out: &mut Vec<Vec<String>>, c: Vec<String>)
    ensures
        candidate_parts(final(out)@) == candidate_parts(old(out)@).push(strings_view(c@)),
{
    let ghost parts = strings_view(c@);
    out.push(c);
    assert(candidate_parts(out@) =~= candidate_parts(old(out)@).push(parts));
}

fn with_part(v: Vec<String>, part: &str) -> (r: Vec<String>)
    ensures
        strings_view(r@) == strings_view(v@).push(part@),
{
    let mut v = v;
    push_arg(&mut v, part);
    v
}

fn push_under(out: &mut Vec<Vec<String>>, base: &Option<String>, rest: Vec<String>)
    ensures
        candidate_parts(final(out)@) == candidate_parts(old(out)@) + under(*base, strings_view(rest@)),
{
    match base {
        Some(b) => {
            let mut c: Vec<String> = Vec::new();
            push_arg(&mut c, b.as_str());
            let mut i: usize = 0;
            while i < rest.len()
                invariant
                    i <= rest@.len(),
                    strings_view(c@) == seq![b@] + strings_view(rest@).take(i as int),
                decreases rest@.len() - i,
            {
                push_arg(&mut c, rest[i].as_str());
                i = i + 1;
                assert(seq![b@] + strings_view(rest@).take(i as int) =~= (seq![b@] + strings_view(
                    rest@,
                ).take(i - 1)).push(rest@[i - 1]@));
            }
            assert(strings_view(rest@).take(i as int) =~= strings_view(rest@));
            push_candidate(out, c);
            assert(candidate_parts(out@) =~= candidate_parts(old(out)@) + under(
                *base,
                strings_view(rest@),
            ));
        },
        None => {
            assert(candidate_parts(out@) =~= candidate_parts(old(out)@) + under(
                *base,
                strings_view(rest@),
            ));
        },
    }
}

/// Where FFmpeg is looked for on `platform` when it is neither configured nor on the
/// `PATH` (see `ffmpeg_candidates_spec`).
pub fn fallback_ffmpeg_candidates(platform: Platform, dirs: &WindowsInstallDirs) -> (r: Vec<Vec<String>>)
    ensures
        candidate_parts(r@) == ffmpeg_candidates_spec(platform, *dirs),
{
    let mut out: Vec<Vec<String>> = Vec::new();
    match platform {
        Platform::MacOs => {
            push_candidate(&mut out, one_part("/opt/homebrew/bin/ffmpeg"));
            push_candidate(&mut out, one_part("/usr/local/bin/ffmpeg"));
        },
        Platform::Linux => {
            push_candidate(&mut out, one_part("/usr/bin/ffmpeg"));
            push_candidate(&mut out, one_part("/usr/local/bin/ffmpeg"));
            push_candidate(&mut out, one_part("/snap/bin/ffmpeg"));
        },
        Platform::Windows => {
            push_candidate(&mut out, one_part("C:\\ffmpeg\\bin\\ffmpeg.exe"));
            push_candidate(&mut out, one_part("C:\\ProgramData\\chocolatey\\bin\\ffmpeg.exe"));
            let in_program_files = with_part(with_part(with_part(Vec::new(), "ffmpeg"), "bin"), "ffmpeg.exe");
            push_under(&mut out, &dirs.program_files, in_program_files);
            let in_program_files_x86 = with_part(with_part(with_part(Vec::new(), "ffmpeg"), "bin"), "ffmpeg.exe");
            push_under(&mut out, &dirs.program_files_x86, in_program_files_x86);
            let in_chocolatey = with_part(with_part(Vec::new(), "bin"), "ffmpeg.exe");
            push_under(&mut out, &dirs.chocolatey_install, in_chocolatey);
            let in_scoop = with_part(with_part(with_part(Vec::new(), "scoop"), "shims"), "ffmpeg.exe");
            push_under(&mut out, &dirs.user_profile, in_scoop);
            let in_winget = with_part(
                with_part(with_part(with_part(Vec::new(), "Microsoft"), "WinGet"), "Links"),
                "ffmpeg.exe",
            );
            push_under(&mut out, &dirs.local_app_data, in_winget);
        },
        Platform::Other => {},
    }
    assert(candidate_parts(out@) =~~= ffmpeg_candidates_spec(platform, *dirs));
    out
}

/// A path and whether a file lies there.
pub struct ProbedPath {
    pub path: String,
    pub is_file: bool,
}

/// Why FFmpeg could not be found.
#[derive(Debug, PartialEq)]
pub enum FfmpegLookupError {
    /// `FFMPEG_PATH` is set to this path, which is not a file.
    ConfiguredNotFile(String),
    /// FFmpeg is not configured, not on the `PATH`, and in none of the usual places.
    NotFound,
}

/// The first of `fallbacks` that is a file.
pub open spec fn first_file(fallbacks: Seq<ProbedPath>) -> Option<Seq<char>>
    decreases fallbacks.len(),
{
    if fallbacks.len() == 0 {
        None
    } else if fallbacks[0].is_file {
        Some(fallbacks[0].path@)
    } else {
        first_file(fallbacks.drop_first())
    }
}

/// Which FFmpeg runs: the configured path if one is configured (an error unless it
/// is a file), else the one found on the `PATH`, else the first of the usual places
/// that holds a file.
pub open spec fn ffmpeg_choice(
    configured: Option<ProbedPath>,
    on_path: Option<Seq<char>>,
    fallbacks: Seq<ProbedPath>,
) -> Result<Seq<char>, FfmpegLookupError> {
    match configured {
        Some(c) => if c.is_file {
            Ok(c.path@)
        } else {
            Err(FfmpegLookupError::ConfiguredNotFile(c.path))
        },
        None => match on_path {
            Some(p) => Ok(p),
            None => match first_file(fallbacks) {
                Some(p) => Ok(p),
                None => Err(FfmpegLookupError::NotFound),
            },
        },
    }
}

/// The view of a lookup result.
pub open spec fn lookup_view(r: Result<String, FfmpegLookupError>) -> Result<Seq<char>, FfmpegLookupError> {
    match r {
        Ok(s) => Ok(s@),
        Err(e) => Err(e),
    }
}

/// Picks the FFmpeg to run (see `ffmpeg_choice`), given the configured path and
/// whether it is a file, the one found on the `PATH`, and the usual places probed.
pub fn resolve_ffmpeg_path(
    configured: Option<ProbedPath>,
    on_path: Option<String>,
    fallbacks: Vec<ProbedPath>,
) -> (r: Result<String, FfmpegLookupError>)
    ensures
        lookup_view(r) == ffmpeg_choice(configured, opt_string(on_path), fallbacks@),
{
    if let Some(c) = configured {
        if c.is_file {
            return Ok(c.path);
        }
        return Err(FfmpegLookupError::ConfiguredNotFile(c.path));
    }
    if let Some(p) = on_path {
        return Ok(p);
    }
    let ghost all = fallbacks@;
    let mut rest = fallbacks;
    while rest.len() > 0
        invariant
            configured is None,
            on_path is None,
            all == fallbacks@,
            first_file(rest@) == first_file(all),
        decreases rest@.len(),
    {
        let ghost before = rest@;
        let c = rest.remove(0);
        if c.is_file {
            assert(first_file(before) == Some(c.path@));
            return Ok(c.path);
        }
        assert(rest@ =~= before.drop_first());
    }
    Err(FfmpegLookupError::NotFound)
}

} // verus!
