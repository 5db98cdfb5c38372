//! Bookkeeping of a segment download: which initialisation maps to fetch, which
//! segment files a finished download consists of, the temporary file each download
//! writes first, and how many attempts a segment gets.
use vstd::prelude::*;
use crate::m3u8::{InitMapInfo, MapView, SegmentInfo};
use crate::text::{chars_of, push_str, string_from};

verus! {

/// The distinct values of `names[..n]`, each at its first occurrence, in order.
pub open spec fn first_occurrences(names: Seq<Seq<char>>, n: nat) -> Seq<Seq<char>>
    decreases n,
{
    if n == 0 {
        Seq::empty()
    } else {
        let p = first_occurrences(names, (n - 1) as nat);
        if names.subrange(0, n - 1).contains(names[n - 1]) {
            p
        } else {
            p.push(names[n - 1])
        }
    }
}

/// The strings that a vector of strings holds.
pub open spec fn strings_view(v: Seq<String>) -> Seq<Seq<char>> {
    Seq::new(v.len(), |i: int| v[i]@)
}

/// The file names of segments.
pub open spec fn segment_file_names(segments: Seq<SegmentInfo>) -> Seq<Seq<char>> {
    Seq::new(segments.len(), |i: int| segments[i].file_name@)
}

fn contains_string(v: &Vec<String>, s: &String) -> (r: bool)
    ensures
        r == strings_view(v@).contains(s@),
{
    let mut i: usize = 0;
    while i < v.len()
        invariant
            i <= v@.len(),
            forall|j: int| 0 <= j < i ==> v@[j]@ != s@,
        decreases v@.len() - i,
    {
        if v[i] == *s {
            assert(strings_view(v@)[i as int] == s@);
            return true;
        }
        i = i + 1;
    }
    assert forall|j: int| 0 <= j < strings_view(v@).len() implies strings_view(v@)[j] != s@ by {
        assert(strings_view(v@)[j] == v@[j]@);
    }
    false
}

/// The distinct file names of the segments of a download, in order of first
/// occurrence: the files that the finished download consists of.
pub fn distinct_file_names(segments: &Vec<SegmentInfo>) -> (r: Vec<String>)
    ensures
        strings_view(r@) == first_occurrences(segment_file_names(segments@), segments@.len()),
{
    let ghost names = segment_file_names(segments@);
    let mut out: Vec<String> = Vec::new();
    let mut i: usize = 0;
    while i < segments.len()
        invariant
            i <= segments@.len(),
            names == segment_file_names(segments@),
            strings_view(out@) == first_occurrences(names, i as nat),
            forall|x: Seq<char>| strings_view(out@).contains(x) <==> names.subrange(0, i as int).contains(x),
        decreases segments@.len() - i,
    {
        let name = &segments[i].file_name;
        let ghost prefix = names.subrange(0, i as int);
        let ghost next = names.subrange(0, i + 1);
        assert(next =~= prefix.push(name@));
        let ghost before = strings_view(out@);
        if !contains_string(&out, name) {
            out.push(string_from(chars_of(name.as_str()).as_slice()));
            assert(strings_view(out@) =~= before.push(name@));
            assert forall|x: Seq<char>| strings_view(out@).contains(x) <==> next.contains(x) by {
                if strings_view(out@).contains(x) {
                    let k = choose|k: int| 0 <= k < strings_view(out@).len() && strings_view(out@)[k] == x;
                    if k < before.len() {
                        assert(before.contains(x));
                        let m = choose|m: int| 0 <= m < prefix.len() && prefix[m] == x;
                        assert(next[m] == x);
                    } else {
                        assert(next[i as int] == x);
                    }
                }
                if next.contains(x) {
                    let m = choose|m: int| 0 <= m < next.len() && next[m] == x;
                    if m < i {
                        assert(prefix[m] == x);
                        assert(prefix.contains(x));
                        assert(before.contains(x));
                        let k = choose|k: int| 0 <= k < before.len() && before[k] == x;
                        assert(strings_view(out@)[k] == before.push(name@)[k]);
                        assert(strings_view(out@)[k] == x);
                    } else {
                        assert(strings_view(out@)[before.len() as int] == x);
                    }
                }
            }
        } else {
            assert forall|x: Seq<char>| strings_view(out@).contains(x) <==> next.contains(x) by {
                if next.contains(x) {
                    let m = choose|m: int| 0 <= m < next.len() && next[m] == x;
                    if m < i {
                        assert(prefix[m] == x);
                    }
                }
                if prefix.contains(x) {
                    let m = choose|m: int| 0 <= m < prefix.len() && prefix[m] == x;
                    assert(next[m] == x);
                }
            }
        }
        i = i + 1;
    }
    out
}

/// The maps of segments, keyed by their file names: one entry per segment that has a
/// map.
pub open spec fn map_entries(segments: Seq<SegmentInfo>, n: nat) -> Seq<MapView>
    decreases n,
{
    if n == 0 {
        Seq::empty()
    } else {
        let p = map_entries(segments, (n - 1) as nat);
        match segments[n - 1].init_map {
            Some(m) => p.push(m@),
            None => p,
        }
    }
}

/// The maps of `maps[..n]` whose file name has not occurred before, in order.
pub open spec fn first_maps(maps: Seq<MapView>, n: nat) -> Seq<MapView>
    decreases n,
{
    if n == 0 {
        Seq::empty()
    } else {
        let p = first_maps(maps, (n - 1) as nat);
        if exists|j: int| 0 <= j < n - 1 && #[trigger] maps[j].file_name == maps[n - 1].file_name {
            p
        } else {
            p.push(maps[n - 1])
        }
    }
}

/// The views of maps.
pub open spec fn maps_view(v: Seq<InitMapInfo>) -> Seq<MapView> {
    Seq::new(v.len(), |i: int| v[i]@)
}

/// The initialisation maps that a download fetches before its segments: each map file
/// once, at the first segment that uses it, in segment order.
pub fn init_maps_to_fetch(segments: &Vec<SegmentInfo>) -> (r: Vec<InitMapInfo>)
    ensures
        maps_view(r@) == first_maps(map_entries(segments@, segments@.len()), map_entries(segments@, segments@.len()).len()),
{
    let mut all: Vec<InitMapInfo> = Vec::new();
    let mut i: usize = 0;
    while i < segments.len()
        invariant
            i <= segments@.len(),
            maps_view(all@) == map_entries(segments@, i as nat),
        decreases segments@.len() - i,
    {
        let ghost before = maps_view(all@);
        match &segments[i].init_map {
            Some(m) => {
                all.push(InitMapInfo {
                    url: string_from(chars_of(m.url.as_str()).as_slice()),
                    file_name: string_from(chars_of(m.file_name.as_str()).as_slice()),
                });
                assert(maps_view(all@) =~= before.push(m@));
            },
            None => {},
        }
        i = i + 1;
    }
    let ghost maps = maps_view(all@);
    let mut out: Vec<InitMapInfo> = Vec::new();
    let mut k: usize = 0;
    while k < all.len()
        invariant
            k <= all@.len(),
            maps == maps_view(all@),
            maps_view(out@) == first_maps(maps, k as nat),
        decreases all@.len() - k,
    {
        let mut seen = false;
        let mut j: usize = 0;
        while j < k
            invariant
                j <= k < all@.len(),
                maps == maps_view(all@),
                seen == exists|q: int| 0 <= q < j && #[trigger] maps[q].file_name == maps[k as int].file_name,
            decreases k - j,
        {
            assert(maps[j as int].file_name == all@[j as int].file_name@);
            assert(maps[k as int].file_name == all@[k as int].file_name@);
            if all[j].file_name == all[k].file_name {
                seen = true;
            }
            j = j + 1;
        }
        let ghost before = maps_view(out@);
        if !seen {
            out.push(InitMapInfo {
                url: string_from(chars_of(all[k].url.as_str()).as_slice()),
                file_name: string_from(chars_of(all[k].file_name.as_str()).as_slice()),
            });
            assert(maps_view(out@) =~= before.push(maps[k as int]));
        }
        k = k + 1;
    }
    out
}

/// The temporary file that a download writes before renaming it: `<file>.tmp`.
pub fn temp_file_name(file_name: &str) -> (r: String)
    ensures
        r@ == file_name@ + ".tmp"@,
{
    let mut out = string_from(chars_of(file_name).as_slice());
    push_str(&mut out, ".tmp");
    out
}

/// The number of attempts a segment gets: the configured retry count, at least one.
pub fn segment_attempts(retry_count: usize) -> (r: usize)
    ensures
        r == if retry_count == 0 {
            1
        } else {
            retry_count
        },
{
    if retry_count == 0 {
        1
    } else {
        retry_count
    }
}


/// What a segment download does after an attempt.
#[derive(Debug, Clone, Copy, PartialEq, Eq, Structural)]
pub enum NextStep {
    /// The segment is saved.
    Done,
    /// Wait for the retry delay, then try again with `remaining` attempts left.
    RetryAfterPause { remaining: usize },
    /// The attempts are used up: the download fails.
    GiveUp,
}

/// The step after an attempt made with `remaining` attempts left (counting this one).
pub open spec fn next_step_spec(remaining: nat, succeeded: bool) -> NextStep {
    if succeeded {
        NextStep::Done
    } else if remaining <= 1 {
        NextStep::GiveUp
    } else {
        NextStep::RetryAfterPause { remaining: (remaining - 1) as usize }
    }
}

/// Decides what follows an attempt made with `remaining` attempts left (see
/// `next_step_spec`).
pub fn next_step(remaining: usize, succeeded: bool) -> (r: NextStep)
    requires
        remaining >= 1,
    ensures
        r == next_step_spec(remaining as nat, succeeded),
{
    if succeeded {
        NextStep::Done
    } else if remaining <= 1 {
        NextStep::GiveUp
    } else {
        NextStep::RetryAfterPause { remaining: remaining - 1 }
    }
}

/// How many attempts a segment that keeps failing gets, starting with `remaining`
/// attempts left.
pub open spec fn attempts_while_failing(remaining: nat) -> nat
    decreases remaining,
{
    match next_step_spec(remaining, false) {
        NextStep::RetryAfterPause { remaining: r } => if r < remaining {
            1 + attempts_while_failing(r as nat)
        } else {
            1
        },
        _ => 1,
    }
}

/// A segment that keeps failing is tried as many times as the configured retry count
/// says, at least once, and then the download gives up; a success ends it at once.
pub proof fn law_attempts_are_bounded(retry_count: usize)
    ensures
        attempts_while_failing(
            if retry_count == 0 {
                1
            } else {
                retry_count as nat
            },
        ) == if retry_count == 0 {
            1
        } else {
            retry_count as nat
        },
        forall|remaining: nat| #[trigger] next_step_spec(remaining, true) == NextStep::Done,
{
    lemma_attempts_while_failing(if retry_count == 0 {
        1
    } else {
        retry_count as nat
    });
}

proof fn lemma_attempts_while_failing(remaining: nat)
    requires
        1 <= remaining <= usize::MAX,
    ensures
        attempts_while_failing(remaining) == remaining,
    decreases remaining,
{
    if remaining > 1 {
        lemma_attempts_while_failing((remaining - 1) as nat);
    }
}
} // verus!
