use m3u8_core::m3u8::{
    build_map_file_name, build_segment_file_name, extension_from_url, parse_followed_text,
    parse_m3u8_text, single_media_variant, EncryptionKey, InitMapInfo, M3U8Error, M3U8Info,
    PlaylistListing, PlaylistVariant,
};

/// Reads a playlist that must be a media playlist.
fn listed(url: &str, text: &[u8]) -> Result<M3U8Info, M3U8Error> {
    match parse_m3u8_text(url, text) {
        Ok(PlaylistListing::Segments(info)) => Ok(info),
        Ok(PlaylistListing::FollowVariant(u)) => panic!("unexpected variant to follow: {}", u),
        Err(e) => Err(e),
    }
}

const BASE: &str = "https://example.com/videos/index.m3u8";

fn media(body: &str) -> String {
    format!("#EXTM3U\n#EXT-X-VERSION:4\n#EXT-X-TARGETDURATION:10\n{}#EXT-X-ENDLIST\n", body)
}

#[test]
fn media_playlist_lists_segments_keys_and_maps() {
    let text = media(
        "#EXT-X-MEDIA-SEQUENCE:5\n#EXT-X-KEY:METHOD=AES-128,URI=\"key.bin\",IV=0x00000000000000000000000000000001\n#EXT-X-MAP:URI=\"init.MP4\"\n#EXT-X-BYTERANGE:1000@0\n#EXTINF:9.5,\nseg0.TS\n#EXT-X-BYTERANGE:500@1000\n#EXTINF:10.0,\nseg1.ts?token=1\n#EXT-X-KEY:METHOD=AES-128,URI=\"https://keys.example.com/k2\",KEYFORMAT=\"identity\"\n#EXT-X-MAP:URI=\"init2\"\n#EXTINF:3.25,\nhttps://cdn.example.com/other/seg2\n#EXT-X-MAP:URI=\"init.MP4\"\n#EXTINF:4,\nseg3.ts\n",
    );
    let info = listed(BASE, text.as_bytes()).unwrap();
    assert_eq!(info.base_url, BASE);
    assert_eq!(info.total_size, Some(1500));
    assert_eq!(info.segments.len(), 4);

    let key1 = Some(EncryptionKey {
        url: "https://example.com/videos/key.bin".to_string(),
        iv: Some("0x00000000000000000000000000000001".to_string()),
    });
    let key2 = Some(EncryptionKey { url: "https://keys.example.com/k2".to_string(), iv: None });
    let map0 = Some(InitMapInfo {
        url: "https://example.com/videos/init.MP4".to_string(),
        file_name: "init_000.mp4".to_string(),
    });
    let map1 = Some(InitMapInfo {
        url: "https://example.com/videos/init2".to_string(),
        file_name: "init_001.mp4".to_string(),
    });

    let s = &info.segments;
    assert_eq!(s[0].url, "https://example.com/videos/seg0.TS");
    assert_eq!(s[0].file_name, "00000.ts");
    assert_eq!(f32::from_bits(s[0].duration_bits), 9.5);
    assert_eq!(s[0].media_sequence, 5);
    assert_eq!(s[0].key, key1);
    assert_eq!(s[0].init_map, map0);

    assert_eq!(s[1].url, "https://example.com/videos/seg1.ts?token=1");
    assert_eq!(s[1].file_name, "00001.ts");
    assert_eq!(s[1].media_sequence, 6);
    assert_eq!(s[1].key, key1);
    assert_eq!(s[1].init_map, map0);

    assert_eq!(s[2].url, "https://cdn.example.com/other/seg2");
    assert_eq!(s[2].file_name, "00002.ts");
    assert_eq!(f32::from_bits(s[2].duration_bits), 3.25);
    assert_eq!(s[2].key, key2);
    assert_eq!(s[2].init_map, map1);

    // A map seen before keeps its file name.
    assert_eq!(s[3].init_map, map0);
    assert_eq!(s[3].file_name, "00003.ts");
    assert_eq!(s[3].media_sequence, 8);
}

#[test]
fn playlist_without_byte_ranges_has_no_total_size() {
    let info = listed(BASE, media("#EXTINF:2,\na.ts\n").as_bytes()).unwrap();
    assert_eq!(info.total_size, None);
    assert_eq!(info.segments[0].media_sequence, 0);
    assert_eq!(info.segments[0].key, None);
    assert_eq!(info.segments[0].init_map, None);
}

#[test]
fn master_playlist_with_one_variant_is_followed() {
    let text = "#EXTM3U\n#EXT-X-STREAM-INF:BANDWIDTH=1280000\nlow/index.m3u8\n";
    assert_eq!(
        parse_m3u8_text(BASE, text.as_bytes()),
        Ok(PlaylistListing::FollowVariant("https://example.com/videos/low/index.m3u8".to_string()))
    );
    // I-frame-only streams are not downloadable variants.
    let with_iframes = "#EXTM3U\n#EXT-X-STREAM-INF:BANDWIDTH=1280000\nhttps://cdn.example.com/hd/index.m3u8\n#EXT-X-I-FRAME-STREAM-INF:BANDWIDTH=86000,URI=\"iframe.m3u8\"\n";
    assert_eq!(
        parse_m3u8_text(BASE, with_iframes.as_bytes()),
        Ok(PlaylistListing::FollowVariant("https://cdn.example.com/hd/index.m3u8".to_string()))
    );
}

#[test]
fn master_playlists_with_several_variants_are_refused() {
    let text = "#EXTM3U\n#EXT-X-STREAM-INF:BANDWIDTH=1280000\nlow/index.m3u8\n#EXT-X-STREAM-INF:BANDWIDTH=2560000\nhigh/index.m3u8\n";
    assert_eq!(parse_m3u8_text(BASE, text.as_bytes()), Err(M3U8Error::MasterPlaylist));
}

#[test]
fn a_followed_playlist_is_not_followed_again() {
    let master = "#EXTM3U\n#EXT-X-STREAM-INF:BANDWIDTH=1280000\nlow/index.m3u8\n";
    assert_eq!(parse_followed_text(BASE, master.as_bytes()), Err(M3U8Error::MasterPlaylist));
    let info = parse_followed_text(BASE, media("#EXTINF:2,\na.ts\n").as_bytes()).unwrap();
    assert_eq!(info.segments.len(), 1);
    assert_eq!(info.segments[0].url, "https://example.com/videos/a.ts");
}

#[test]
fn single_media_variant_counts_downloadable_streams() {
    let v = |uri: &str, is_i_frame: bool| PlaylistVariant { uri: uri.to_string(), is_i_frame };
    assert_eq!(single_media_variant(&vec![v("a", false)]), Some("a".to_string()));
    assert_eq!(single_media_variant(&vec![v("i", true), v("a", false), v("j", true)]), Some("a".to_string()));
    assert_eq!(single_media_variant(&vec![v("a", false), v("b", false)]), None);
    assert_eq!(single_media_variant(&vec![v("i", true)]), None);
    assert_eq!(single_media_variant(&Vec::new()), None);
}

#[test]
fn text_that_is_no_playlist_is_refused() {
    assert_eq!(listed(BASE, b"hello"), Err(M3U8Error::Unparseable));
}

#[test]
fn unsupported_keys_are_refused() {
    let sample = media("#EXT-X-KEY:METHOD=SAMPLE-AES,URI=\"k\"\n#EXTINF:2,\na.ts\n");
    assert_eq!(listed(BASE, sample.as_bytes()), Err(M3U8Error::SampleAesUnsupported));

    let format = media("#EXT-X-KEY:METHOD=AES-128,URI=\"k\",KEYFORMAT=\"com.apple.streamingkeydelivery\"\n#EXTINF:2,\na.ts\n");
    assert_eq!(
        listed(BASE, format.as_bytes()),
        Err(M3U8Error::UnsupportedKeyFormat("com.apple.streamingkeydelivery".to_string()))
    );

    let no_uri = media("#EXT-X-KEY:METHOD=AES-128\n#EXTINF:2,\na.ts\n");
    assert_eq!(listed(BASE, no_uri.as_bytes()), Err(M3U8Error::MissingKeyUri));

    let other = media("#EXT-X-KEY:METHOD=AES-256,URI=\"k\"\n#EXTINF:2,\na.ts\n");
    assert_eq!(
        listed(BASE, other.as_bytes()),
        Err(M3U8Error::UnsupportedMethod("AES-256".to_string()))
    );
}

#[test]
fn invalid_playlist_url_is_refused() {
    let text = media("#EXTINF:2,\na.ts\n");
    assert_eq!(listed("not a url", text.as_bytes()), Err(M3U8Error::InvalidUrl));
}

#[test]
fn file_names_take_the_url_extension() {
    assert_eq!(extension_from_url("https://a.b/x/Seg.TS?q=1", "ts"), "ts");
    assert_eq!(extension_from_url("https://a.b/x/archive.tar.GZ", "ts"), "gz");
    assert_eq!(extension_from_url("https://a.b/x/noext", "MP4"), "mp4");
    assert_eq!(extension_from_url("https://a.b/x/trailing.", "ts"), "ts");
    assert_eq!(extension_from_url("https://a.b/", "ts"), "ts");
    assert_eq!(extension_from_url("not a url", "ts"), "ts");
    assert_eq!(build_segment_file_name(7, "https://a.b/s.aac"), "00007.aac");
    assert_eq!(build_segment_file_name(123456, "https://a.b/s"), "123456.ts");
    assert_eq!(build_map_file_name(2, "https://a.b/init.m4s"), "init_002.m4s");
    assert_eq!(build_map_file_name(1000, "https://a.b/init"), "init_1000.mp4");
}

#[test]
fn listed_files_never_clash() {
    let mut body = String::new();
    for i in 0..120 {
        if i % 7 == 0 {
            body.push_str(&format!("#EXT-X-MAP:URI=\"init{}.mp4\"\n", i % 3));
        }
        body.push_str(&format!("#EXTINF:2,\nseg{}.ts\n", i % 5));
    }
    let info = listed(BASE, media(&body).as_bytes()).unwrap();
    let names: std::collections::HashSet<&str> = info.segments.iter().map(|s| s.file_name.as_str()).collect();
    assert_eq!(names.len(), 120);
    let mut by_url = std::collections::HashMap::new();
    for s in &info.segments {
        if let Some(m) = &s.init_map {
            assert!(!names.contains(m.file_name.as_str()));
            let previous = by_url.insert(m.url.clone(), m.file_name.clone());
            assert!(previous.is_none() || previous.as_deref() == Some(m.file_name.as_str()));
        }
    }
    let distinct_map_names: std::collections::HashSet<&String> = by_url.values().collect();
    assert_eq!(distinct_map_names.len(), by_url.len());
    assert_eq!(by_url.len(), 3);
}
