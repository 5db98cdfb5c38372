use m3u8_core::merger::{
    build_local_playlist, fallback_ffmpeg_candidates, merge_args, merge_inputs,
    resolve_ffmpeg_path, FfmpegLookupError, MergeError, Platform, PlaylistEntry, ProbedPath,
    WindowsInstallDirs,
};

fn no_dirs() -> WindowsInstallDirs {
    WindowsInstallDirs {
        program_files: None,
        program_files_x86: None,
        chocolatey_install: None,
        user_profile: None,
        local_app_data: None,
    }
}

fn parts(v: &[&str]) -> Vec<String> {
    v.iter().map(|s| s.to_string()).collect()
}

#[test]
fn includes_common_homebrew_ffmpeg_locations_on_macos() {
    let candidates = fallback_ffmpeg_candidates(Platform::MacOs, &no_dirs());
    assert!(candidates.contains(&parts(&["/opt/homebrew/bin/ffmpeg"])));
    assert!(candidates.contains(&parts(&["/usr/local/bin/ffmpeg"])));
}

#[test]
fn includes_common_system_locations_on_linux() {
    let candidates = fallback_ffmpeg_candidates(Platform::Linux, &no_dirs());
    assert!(candidates.contains(&parts(&["/usr/bin/ffmpeg"])));
    assert!(candidates.contains(&parts(&["/usr/local/bin/ffmpeg"])));
    assert!(candidates.contains(&parts(&["/snap/bin/ffmpeg"])));
}

#[test]
fn includes_common_install_locations_on_windows() {
    let candidates = fallback_ffmpeg_candidates(Platform::Windows, &no_dirs());
    assert!(candidates.contains(&parts(&[r"C:\ffmpeg\bin\ffmpeg.exe"])));
    assert!(candidates.contains(&parts(&[r"C:\ProgramData\chocolatey\bin\ffmpeg.exe"])));
}

#[test]
fn has_no_platform_fallbacks_for_unknown_targets() {
    assert!(fallback_ffmpeg_candidates(Platform::Other, &no_dirs()).is_empty());
}

#[test]
fn windows_install_folders_add_candidates_in_order() {
    let dirs = WindowsInstallDirs {
        program_files: Some(r"C:\Program Files".to_string()),
        program_files_x86: None,
        chocolatey_install: Some(r"C:\choco".to_string()),
        user_profile: Some(r"C:\Users\me".to_string()),
        local_app_data: Some(r"C:\Users\me\AppData\Local".to_string()),
    };
    let candidates = fallback_ffmpeg_candidates(Platform::Windows, &dirs);
    assert_eq!(
        candidates,
        vec![
            parts(&[r"C:\ffmpeg\bin\ffmpeg.exe"]),
            parts(&[r"C:\ProgramData\chocolatey\bin\ffmpeg.exe"]),
            parts(&[r"C:\Program Files", "ffmpeg", "bin", "ffmpeg.exe"]),
            parts(&[r"C:\choco", "bin", "ffmpeg.exe"]),
            parts(&[r"C:\Users\me", "scoop", "shims", "ffmpeg.exe"]),
            parts(&[r"C:\Users\me\AppData\Local", "Microsoft", "WinGet", "Links", "ffmpeg.exe"]),
        ]
    );
}

fn probed(path: &str, is_file: bool) -> ProbedPath {
    ProbedPath { path: path.to_string(), is_file }
}

#[test]
fn configured_ffmpeg_must_be_a_file() {
    assert_eq!(
        resolve_ffmpeg_path(Some(probed("/opt/ff", true)), Some("/usr/bin/ffmpeg".into()), vec![]),
        Ok("/opt/ff".to_string())
    );
    assert_eq!(
        resolve_ffmpeg_path(Some(probed("/opt/ff", false)), Some("/usr/bin/ffmpeg".into()), vec![]),
        Err(FfmpegLookupError::ConfiguredNotFile("/opt/ff".to_string()))
    );
}

#[test]
fn ffmpeg_on_path_comes_before_fallbacks() {
    assert_eq!(
        resolve_ffmpeg_path(None, Some("/bin/ffmpeg".into()), vec![probed("/a", true)]),
        Ok("/bin/ffmpeg".to_string())
    );
    assert_eq!(
        resolve_ffmpeg_path(None, None, vec![probed("/a", false), probed("/b", true), probed("/c", true)]),
        Ok("/b".to_string())
    );
    assert_eq!(
        resolve_ffmpeg_path(None, None, vec![probed("/a", false)]),
        Err(FfmpegLookupError::NotFound)
    );
}

#[test]
fn merge_needs_video_segments() {
    assert_eq!(merge_inputs(0, Some(3)), Err(MergeError::NoSegments));
    assert_eq!(merge_inputs(2, None), Ok(false));
    assert_eq!(merge_inputs(2, Some(0)), Ok(false));
    assert_eq!(merge_inputs(2, Some(5)), Ok(true));
}

#[test]
fn merge_arguments_copy_streams() {
    assert_eq!(
        merge_args(false),
        vec!["-y", "-allowed_extensions", "ALL", "-i", "video_playlist.m3u8", "-c", "copy"]
    );
    assert_eq!(
        merge_args(true),
        vec![
            "-y", "-allowed_extensions", "ALL", "-i", "video_playlist.m3u8", "-allowed_extensions",
            "ALL", "-i", "audio_playlist.m3u8", "-map", "0:v:0", "-map", "1:a:0", "-c", "copy",
        ]
    );
}

fn entry(duration: f32, file: &str, map: Option<&str>) -> PlaylistEntry {
    PlaylistEntry {
        duration_text: format!("{}", duration),
        duration_ceil: duration.ceil() as u64,
        file_name: file.to_string(),
        map_file: map.map(|m| m.to_string()),
    }
}

#[test]
fn local_playlist_lists_segments_and_map_changes() {
    let entries = vec![
        entry(9.5, "00000.ts", Some("init_000.mp4")),
        entry(10.0, "00001.ts", Some("init_000.mp4")),
        entry(3.25, "00002.ts", Some("init_001.mp4")),
        entry(4.0, "00003.ts", None),
    ];
    assert_eq!(
        build_local_playlist(&entries),
        "#EXTM3U\n#EXT-X-VERSION:7\n#EXT-X-TARGETDURATION:10\n#EXT-X-MEDIA-SEQUENCE:0\n\
#EXT-X-MAP:URI=\"init_000.mp4\"\n#EXTINF:9.5,\n00000.ts\n#EXTINF:10,\n00001.ts\n\
#EXT-X-MAP:URI=\"init_001.mp4\"\n#EXTINF:3.25,\n00002.ts\n#EXTINF:4,\n00003.ts\n#EXT-X-ENDLIST\n"
    );
}

#[test]
fn local_playlist_target_duration_is_at_least_one() {
    assert_eq!(
        build_local_playlist(&vec![entry(0.4, "a.ts", None)]),
        "#EXTM3U\n#EXT-X-VERSION:7\n#EXT-X-TARGETDURATION:1\n#EXT-X-MEDIA-SEQUENCE:0\n#EXTINF:0.4,\na.ts\n#EXT-X-ENDLIST\n"
    );
    assert_eq!(
        build_local_playlist(&Vec::new()),
        "#EXTM3U\n#EXT-X-VERSION:7\n#EXT-X-TARGETDURATION:1\n#EXT-X-MEDIA-SEQUENCE:0\n#EXT-X-ENDLIST\n"
    );
}
