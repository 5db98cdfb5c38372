use m3u8_core::downloads::{
    distinct_file_names, init_maps_to_fetch, next_step, segment_attempts, temp_file_name, NextStep,
};
use m3u8_core::m3u8::{InitMapInfo, SegmentInfo};

fn segment(file: &str, map: Option<(&str, &str)>) -> SegmentInfo {
    SegmentInfo {
        url: format!("https://e.com/{}", file),
        file_name: file.to_string(),
        duration_bits: 0,
        media_sequence: 0,
        key: None,
        init_map: map.map(|(u, f)| InitMapInfo { url: u.to_string(), file_name: f.to_string() }),
    }
}

#[test]
fn distinct_file_names_keep_first_occurrences() {
    let segs = vec![segment("a.ts", None), segment("b.ts", None), segment("a.ts", None), segment("c.ts", None)];
    assert_eq!(distinct_file_names(&segs), vec!["a.ts", "b.ts", "c.ts"]);
    assert!(distinct_file_names(&Vec::new()).is_empty());
}

#[test]
fn each_init_map_is_fetched_once() {
    let segs = vec![
        segment("0.ts", None),
        segment("1.ts", Some(("https://e.com/i0", "init_000.mp4"))),
        segment("2.ts", Some(("https://e.com/i0", "init_000.mp4"))),
        segment("3.ts", Some(("https://e.com/i1", "init_001.mp4"))),
        segment("4.ts", Some(("https://e.com/i0", "init_000.mp4"))),
    ];
    assert_eq!(
        init_maps_to_fetch(&segs),
        vec![
            InitMapInfo { url: "https://e.com/i0".into(), file_name: "init_000.mp4".into() },
            InitMapInfo { url: "https://e.com/i1".into(), file_name: "init_001.mp4".into() },
        ]
    );
}

#[test]
fn downloads_write_a_temporary_file_first() {
    assert_eq!(temp_file_name("00001.ts"), "00001.ts.tmp");
}

#[test]
fn every_segment_gets_at_least_one_attempt() {
    assert_eq!(segment_attempts(0), 1);
    assert_eq!(segment_attempts(1), 1);
    assert_eq!(segment_attempts(3), 3);
}

#[test]
fn failed_attempts_retry_until_used_up() {
    assert_eq!(next_step(3, true), NextStep::Done);
    assert_eq!(next_step(1, true), NextStep::Done);
    assert_eq!(next_step(3, false), NextStep::RetryAfterPause { remaining: 2 });
    assert_eq!(next_step(2, false), NextStep::RetryAfterPause { remaining: 1 });
    assert_eq!(next_step(1, false), NextStep::GiveUp);
}

#[test]
fn a_failing_segment_is_tried_retry_count_times() {
    for retry_count in [0usize, 1, 3, 7] {
        let mut remaining = segment_attempts(retry_count);
        let mut attempts = 0;
        loop {
            attempts += 1;
            match next_step(remaining, false) {
                NextStep::RetryAfterPause { remaining: r } => remaining = r,
                NextStep::GiveUp => break,
                NextStep::Done => unreachable!(),
            }
        }
        assert_eq!(attempts, retry_count.max(1));
    }
}
