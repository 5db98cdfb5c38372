//! Application settings: the defaults that fill in missing keys, and the download
//! options and download root that the settings give.
use vstd::prelude::*;
use crate::text::{chars_of, parse_unsigned, parse_unsigned_spec, string_from, trim, trim_chars};

verus! {

/// The browser identity that segment requests use unless one is configured.
pub const DEFAULT_USER_AGENT: &'static str = "Mozilla/5.0 (Macintosh; Intel Mac OS X 10_15_7) AppleWebKit/537.36 (KHTML, like Gecko) Chrome/120.0.0.0 Safari/537.36";

/// How segments are downloaded: request identity, optional proxy, number of parallel
/// downloads, attempts per segment and the pause between attempts.
pub struct DownloadOptions {
    pub user_agent: String,
    pub proxy: Option<String>,
    pub concurrency: usize,
    pub retry_count: usize,
    pub retry_delay_ms: u64,
}

impl Default for DownloadOptions {
    /// The default user agent, no proxy, 5 parallel downloads, 3 attempts, 2000 ms.
    fn default() -> (r: Self)
        ensures
            r.user_agent@ == DEFAULT_USER_AGENT@,
            r.proxy is None,
            r.concurrency == 5,
            r.retry_count == 3,
            r.retry_delay_ms == 2000,
    {
        DownloadOptions {
            user_agent: String::from_str(DEFAULT_USER_AGENT),
            proxy: None,
            concurrency: 5,
            retry_count: 3,
            retry_delay_ms: 2000,
        }
    }
}

/// The view of an optional string slice.
pub open spec fn opt_text(o: Option<&str>) -> Option<Seq<char>> {
    match o {
        Some(s) => Some(s@),
        None => None,
    }
}

/// The view of an optional string.
pub open spec fn opt_string(o: Option<String>) -> Option<Seq<char>> {
    match o {
        Some(s) => Some(s@),
        None => None,
    }
}

/// A setting that is present and not blank, as written.
pub open spec fn non_blank(v: Option<Seq<char>>) -> Option<Seq<char>> {
    match v {
        Some(s) => if trim(s).len() > 0 {
            Some(s)
        } else {
            None
        },
        None => None,
    }
}

/// A numeric setting read as `str::parse` reads an unsigned number no larger than
/// `max`, or `default` when it is missing or does not parse.
pub open spec fn number_or(v: Option<Seq<char>>, max: nat, default: nat) -> nat {
    match v {
        Some(s) => match parse_unsigned_spec(s, max) {
            Some(n) => n,
            None => default,
        },
        None => default,
    }
}

fn non_blank_copy(v: Option<&str>) -> (r: Option<String>)
    ensures
        opt_string(r) == non_blank(opt_text(v)),
{
    match v {
        Some(s) => {
            let cs = chars_of(s);
            if trim_chars(cs.as_slice()).len() > 0 {
                Some(string_from(cs.as_slice()))
            } else {
                None
            }
        },
        None => None,
    }
}

fn number_setting(v: Option<&str>, max: u64, default: u64) -> (r: u64)
    requires
        default <= max,
    ensures
        r as nat == number_or(opt_text(v), max as nat, default as nat),
{
    match v {
        Some(s) => match parse_unsigned(chars_of(s).as_slice(), max) {
            Some(n) => n,
            None => default,
        },
        None => default,
    }
}

/// The download options that the `proxy`, `concurrency`, `retryCount`, `retryDelay`
/// and `userAgent` settings give: a blank proxy or user agent counts as missing, and
/// numbers that do not parse fall back to 5, 3 and 2000.
pub fn options_from_settings(
    proxy: Option<&str>,
    concurrency: Option<&str>,
    retry_count: Option<&str>,
    retry_delay: Option<&str>,
    user_agent: Option<&str>,
) -> (r: DownloadOptions)
    ensures
        opt_string(r.proxy) == non_blank(opt_text(proxy)),
        r.concurrency as nat == number_or(opt_text(concurrency), usize::MAX as nat, 5),
        r.retry_count as nat == number_or(opt_text(retry_count), usize::MAX as nat, 3),
        r.retry_delay_ms as nat == number_or(opt_text(retry_delay), u64::MAX as nat, 2000),
        r.user_agent@ == match non_blank(opt_text(user_agent)) {
            Some(u) => u,
            None => DEFAULT_USER_AGENT@,
        },
{
    let ua = match non_blank_copy(user_agent) {
        Some(u) => u,
        None => String::from_str(DEFAULT_USER_AGENT),
    };
    DownloadOptions {
        user_agent: ua,
        proxy: non_blank_copy(proxy),
        concurrency: number_setting(concurrency, usize::MAX as u64, 5) as usize,
        retry_count: number_setting(retry_count, usize::MAX as u64, 3) as usize,
        retry_delay_ms: number_setting(retry_delay, u64::MAX, 2000),
    }
}

/// The proxy that the download client is configured with: the option, unless blank.
pub fn effective_proxy(proxy: Option<&str>) -> (r: Option<String>)
    ensures
        opt_string(r) == non_blank(opt_text(proxy)),
{
    non_blank_copy(proxy)
}

/// The directory that downloads go under: the configured `downloadPath` setting when
/// the application uses it and it is not blank, else the application's default.
pub fn download_root(use_configured: bool, configured: Option<&str>, default_root: &str) -> (r:
    String)
    ensures
        r@ == match (use_configured, non_blank(opt_text(configured))) {
            (true, Some(p)) => p,
            _ => default_root@,
        },
{
    if use_configured {
        match non_blank_copy(configured) {
            Some(p) => {
                return p;
            },
            None => {},
        }
    }
    string_from(chars_of(default_root).as_slice())
}

/// The folder that the desktop application downloads into: the saved `downloadPath`
/// setting when there is one, else the system's download folder when it has one, else
/// the `downloads` folder of the application's own storage.
pub fn desktop_download_root(saved: Option<&str>, system_downloads: Option<&str>, app_downloads: &str) -> (r:
    String)
    ensures
        r@ == match (saved, system_downloads) {
            (Some(p), _) => p@,
            (None, Some(d)) => d@,
            (None, None) => app_downloads@,
        },
{
    match saved {
        Some(p) => string_from(chars_of(p).as_slice()),
        None => match system_downloads {
            Some(d) => string_from(chars_of(d).as_slice()),
            None => string_from(chars_of(app_downloads).as_slice()),
        },
    }
}

// ---------------------------------------------------------------------------
// Stored settings and their defaults
// ---------------------------------------------------------------------------

/// The value of `key` among `pairs` (stored one after another, a later pair
/// replacing an earlier one with the same key).
pub open spec fn setting_value(pairs: Seq<(Seq<char>, Seq<char>)>, key: Seq<char>) -> Option<
    Seq<char>,
>
    decreases pairs.len(),
{
    if pairs.len() == 0 {
        None
    } else if pairs.last().0 == key {
        Some(pairs.last().1)
    } else {
        setting_value(pairs.drop_last(), key)
    }
}

/// The default value of a setting, for the keys that have one.
pub open spec fn default_setting(key: Seq<char>) -> Option<Seq<char>> {
    if key == "concurrency"@ {
        Some("5"@)
    } else if key == "retryCount"@ {
        Some("3"@)
    } else if key == "retryDelay"@ {
        Some("2000"@)
    } else if key == "userAgent"@ {
        Some(DEFAULT_USER_AGENT@)
    } else if key == "proxy"@ {
        Some(""@)
    } else {
        None
    }
}

/// The settings as pairs of values.
pub open spec fn pairs_view(pairs: Seq<(String, String)>) -> Seq<(Seq<char>, Seq<char>)> {
    Seq::new(pairs.len(), |i: int| (pairs[i].0@, pairs[i].1@))
}

fn find_setting(pairs: &Vec<(String, String)>, key: &str) -> (r: bool)
    ensures
        r == setting_value(pairs_view(pairs@), key@) is Some,
{
    let k = chars_of(key);
    let mut j = pairs.len();
    assert(pairs_view(pairs@).subrange(0, pairs@.len() as int) =~= pairs_view(pairs@));
    while j > 0
        invariant
            j <= pairs@.len(),
            k@ == key@,
            setting_value(pairs_view(pairs@), key@) == setting_value(
                pairs_view(pairs@).subrange(0, j as int),
                key@,
            ),
        decreases j,
    {
        let ghost pre = pairs_view(pairs@).subrange(0, j as int);
        assert(pre.last() == (pairs@[j - 1].0@, pairs@[j - 1].1@));
        if crate::text::chars_eq(chars_of(pairs[j - 1].0.as_str()).as_slice(), k.as_slice()) {
            return true;
        }
        assert(pre.drop_last() =~= pairs_view(pairs@).subrange(0, j - 1));
        j = j - 1;
    }
    false
}

fn add_default(pairs: &mut Vec<(String, String)>, key: &str, value: &str)
    ensures
        forall|k: Seq<char>|
            #![trigger setting_value(pairs_view(final(pairs)@), k)]
            setting_value(pairs_view(final(pairs)@), k) == if k == key@ && setting_value(
                pairs_view(old(pairs)@),
                k,
            ) is None {
                Some(value@)
            } else {
                setting_value(pairs_view(old(pairs)@), k)
            },
{
    if !find_setting(pairs, key) {
        let ghost before = pairs_view(pairs@);
        pairs.push((string_from(chars_of(key).as_slice()), string_from(chars_of(value).as_slice())));
        assert(pairs_view(pairs@) =~= before.push((key@, value@)));
        assert forall|k: Seq<char>|
            #![trigger setting_value(pairs_view(pairs@), k)]
            setting_value(pairs_view(pairs@), k) == if k == key@ && setting_value(before, k) is None {
                Some(value@)
            } else {
                setting_value(before, k)
            } by {
            assert(pairs_view(pairs@).drop_last() =~= before);
        }
    }
}

/// The stored settings completed with the defaults of `concurrency`, `retryCount`,
/// `retryDelay`, `userAgent` and `proxy` for those that are not stored.
pub fn with_default_settings(stored: Vec<(String, String)>) -> (r: Vec<(String, String)>)
    ensures
        forall|k: Seq<char>|
            #![trigger setting_value(pairs_view(r@), k)]
            setting_value(pairs_view(r@), k) == match setting_value(pairs_view(stored@), k) {
                Some(v) => Some(v),
                None => default_setting(k),
            },
{
    let mut pairs = stored;
    add_default(&mut pairs, "concurrency", "5");
    add_default(&mut pairs, "retryCount", "3");
    add_default(&mut pairs, "retryDelay", "2000");
    add_default(&mut pairs, "userAgent", DEFAULT_USER_AGENT);
    add_default(&mut pairs, "proxy", "");
    proof {
        reveal_strlit("concurrency");
        reveal_strlit("retryCount");
        reveal_strlit("retryDelay");
        reveal_strlit("userAgent");
        reveal_strlit("proxy");
    }
    pairs
}

} // verus!
