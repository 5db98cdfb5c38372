use m3u8_core::settings::{
    desktop_download_root, download_root, effective_proxy, options_from_settings, with_default_settings, DownloadOptions,
    DEFAULT_USER_AGENT,
};

#[test]
fn default_options() {
    let o = DownloadOptions::default();
    assert_eq!(o.user_agent, DEFAULT_USER_AGENT);
    assert_eq!(o.proxy, None);
    assert_eq!(o.concurrency, 5);
    assert_eq!(o.retry_count, 3);
    assert_eq!(o.retry_delay_ms, 2000);
}

#[test]
fn options_come_from_settings() {
    let o = options_from_settings(Some("http://proxy:8080"), Some("8"), Some("+2"), Some("150"), Some("UA/1"));
    assert_eq!(o.proxy.as_deref(), Some("http://proxy:8080"));
    assert_eq!(o.concurrency, 8);
    assert_eq!(o.retry_count, 2);
    assert_eq!(o.retry_delay_ms, 150);
    assert_eq!(o.user_agent, "UA/1");
}

#[test]
fn blank_and_bad_settings_fall_back() {
    let o = options_from_settings(Some("  "), Some(" 8"), Some("-1"), Some("99999999999999999999"), Some(" "));
    assert_eq!(o.proxy, None);
    assert_eq!(o.concurrency, 5);
    assert_eq!(o.retry_count, 3);
    assert_eq!(o.retry_delay_ms, 2000);
    assert_eq!(o.user_agent, DEFAULT_USER_AGENT);
    let none = options_from_settings(None, None, None, None, None);
    assert_eq!(none.concurrency, 5);
    assert_eq!(none.user_agent, DEFAULT_USER_AGENT);
}

#[test]
fn proxy_is_kept_as_written_unless_blank() {
    assert_eq!(effective_proxy(Some(" socks5://h:1 ")), Some(" socks5://h:1 ".to_string()));
    assert_eq!(effective_proxy(Some("")), None);
    assert_eq!(effective_proxy(None), None);
}

#[test]
fn download_root_prefers_configured_path() {
    assert_eq!(download_root(true, Some("/data/videos"), "/default"), "/data/videos");
    assert_eq!(download_root(true, Some("   "), "/default"), "/default");
    assert_eq!(download_root(true, None, "/default"), "/default");
    assert_eq!(download_root(false, Some("/data/videos"), "/default"), "/default");
}

fn lookup<'a>(pairs: &'a [(String, String)], key: &str) -> Option<&'a str> {
    pairs.iter().rev().find(|(k, _)| k == key).map(|(_, v)| v.as_str())
}

#[test]
fn missing_settings_get_defaults() {
    let stored = vec![
        ("concurrency".to_string(), "9".to_string()),
        ("downloadPath".to_string(), "/x".to_string()),
    ];
    let all = with_default_settings(stored);
    assert_eq!(lookup(&all, "concurrency"), Some("9"));
    assert_eq!(lookup(&all, "downloadPath"), Some("/x"));
    assert_eq!(lookup(&all, "retryCount"), Some("3"));
    assert_eq!(lookup(&all, "retryDelay"), Some("2000"));
    assert_eq!(lookup(&all, "userAgent"), Some(DEFAULT_USER_AGENT));
    assert_eq!(lookup(&all, "proxy"), Some(""));
    assert_eq!(lookup(&all, "tmdbApiKey"), None);
    assert_eq!(all.len(), 6);
}

#[test]
fn desktop_downloads_go_to_saved_then_system_folder() {
    assert_eq!(desktop_download_root(Some("/saved"), Some("/home/me/Downloads"), "/app/downloads"), "/saved");
    assert_eq!(desktop_download_root(None, Some("/home/me/Downloads"), "/app/downloads"), "/home/me/Downloads");
    assert_eq!(desktop_download_root(None, None, "/app/downloads"), "/app/downloads");
}
