use m3u8_core::api::{app_version_info, version_label};

#[test]
fn desktop_version_is_trimmed_and_absent_when_blank() {
    assert_eq!(version_label(Some(" 2.1.0\n")), Some("2.1.0".to_string()));
    assert_eq!(version_label(Some("   ")), None);
    assert_eq!(version_label(Some("")), None);
    assert_eq!(version_label(None), None);
}

#[test]
fn version_info_keeps_build_values() {
    let info = app_version_info("1.2.2", "1.2.2", "ghcr.io/hpyer/m3u8-harvester", "latest", Some(" 2.0 "));
    assert_eq!(info.server_version, "1.2.2");
    assert_eq!(info.web_version, "1.2.2");
    assert_eq!(info.docker_image, "ghcr.io/hpyer/m3u8-harvester");
    assert_eq!(info.docker_version, "latest");
    assert_eq!(info.tauri_version.as_deref(), Some("2.0"));
}
