use std::collections::BTreeMap;
use std::sync::atomic::{AtomicBool, Ordering};
use std::sync::Arc;

use qliveplayer_lib::streamer::hls::{decode_m3u8, HlsCursor, HlsError, M3u8Error, Pace, HLS};
use qliveplayer_lib::streamer::seqmap::head_sequence;

fn map_of(pairs: &[(u64, &str)]) -> BTreeMap<u64, String> {
    pairs.iter().map(|(k, v)| (*k, v.to_string())).collect()
}

#[test]
fn decode_keys_segments_down_from_the_tag() {
    let text = "#EXTM3U\n#EXT-X-TARGETDURATION:2\n#EXT-X-MEDIA-SEQUENCE:10\n#EXTINF:2.0,\na.ts\n#EXTINF:2.0,\nb.ts\n#EXTINF:2.0,\nc.ts";
    let m = decode_m3u8(text).unwrap();
    assert_eq!(m, map_of(&[(8, "a.ts"), (9, "b.ts"), (10, "c.ts")]));
    assert_eq!(HLS::decode_m3u8(text).unwrap(), m);
}

#[test]
fn decode_counts_a_trailing_empty_line_as_a_segment() {
    let m = decode_m3u8("#EXT-X-MEDIA-SEQUENCE:5\na.ts\n").unwrap();
    assert_eq!(m, map_of(&[(4, "a.ts"), (5, "")]));
}

#[test]
fn decode_saturates_at_zero() {
    let m = decode_m3u8("#EXT-X-MEDIA-SEQUENCE:1\na\nb\nc").unwrap();
    assert_eq!(m, map_of(&[(0, "a"), (1, "c")]));
}

#[test]
fn decode_takes_the_last_tag_and_spaces_after_colon() {
    let m = decode_m3u8("#EXT-X-MEDIA-SEQUENCE:3\nx\n#EXT-X-MEDIA-SEQUENCE:   20\ny").unwrap();
    assert_eq!(m, map_of(&[(19, "x"), (20, "y")]));
}

#[test]
fn decode_errors() {
    assert_eq!(decode_m3u8("#EXT-X-MEDIA-SEQUENCE:abc\nx.ts"), Err(M3u8Error::TagUnreadable));
    assert_eq!(
        decode_m3u8("#EXT-X-MEDIA-SEQUENCE:99999999999999999999\nx.ts"),
        Err(M3u8Error::SequenceInvalid)
    );
    assert_eq!(decode_m3u8("x.ts\ny.ts"), Err(M3u8Error::Incomplete));
    assert_eq!(decode_m3u8("#EXT-X-MEDIA-SEQUENCE:5"), Err(M3u8Error::Incomplete));
    assert_eq!(decode_m3u8(""), Err(M3u8Error::Incomplete));
    // The first bad tag line decides, even after a good one.
    assert_eq!(
        decode_m3u8("#EXT-X-MEDIA-SEQUENCE:1\na\n#EXT-X-MEDIA-SEQUENCE:\nb"),
        Err(M3u8Error::TagUnreadable)
    );
}

#[test]
fn decoded_head_is_the_tag_number() {
    // Law: the highest key is the last tag's number, and keys run down from it.
    for (text, tag, count) in [
        ("#EXT-X-MEDIA-SEQUENCE:100\na\nb\nc\nd", 100u64, 4u64),
        ("#EXT-X-MEDIA-SEQUENCE:7\n#c\nonly", 7, 1),
    ] {
        let m = decode_m3u8(text).unwrap();
        assert_eq!(head_sequence(&m), Some(tag));
        let keys: Vec<u64> = m.keys().copied().collect();
        let expected: Vec<u64> = ((tag + 1 - count)..=tag).collect();
        assert_eq!(keys, expected);
    }
}

#[test]
fn head_sequence_of_maps() {
    assert_eq!(head_sequence(&BTreeMap::new()), None);
    assert_eq!(head_sequence(&map_of(&[(3, "a"), (17, "b"), (5, "c")])), Some(17));
}

#[test]
fn relay_keeps_its_settings() {
    let flag = Arc::new(AtomicBool::new(true));
    let h = HLS::new("http://h/x.m3u8".to_string(), "/tmp/sock".to_string(), flag.clone());
    assert_eq!(h.url(), "http://h/x.m3u8");
    assert_eq!(h.stream_socket(), "/tmp/sock");
    assert!(Arc::ptr_eq(h.loading(), &flag));
    assert!(h.loading().load(Ordering::SeqCst));
}

#[test]
fn first_round_starts_at_the_head() {
    let mut c = HlsCursor::new();
    assert_eq!((c.sq, c.interval), (0, 1000));
    let m = map_of(&[(8, "a.ts"), (9, "b.ts"), (10, "c.ts")]);
    let p = c.pick_segment(&m).unwrap();
    assert_eq!(p.url, "c.ts");
    assert_eq!(p.head, 10);
    assert!(p.first);
    assert_eq!(c.sq, 10);
    assert_eq!(c.pace(10, 300), Ok(Pace::Next { sleep_ms: 700 }));
    assert_eq!((c.sq, c.interval), (11, 1000));
}

#[test]
fn later_rounds_follow_the_cursor() {
    let mut c = HlsCursor { sq: 11, interval: 1000 };
    let m = map_of(&[(10, "a.ts"), (11, "b.ts"), (12, "c.ts")]);
    let p = c.pick_segment(&m).unwrap();
    assert_eq!(p.url, "b.ts");
    assert_eq!(p.head, 12);
    assert!(!p.first);
    // The playlist is ahead: no pause, the interval shrinks.
    assert_eq!(c.pace(12, 5000), Ok(Pace::Next { sleep_ms: 0 }));
    assert_eq!((c.sq, c.interval), (12, 900));
    // The playlist is behind: retry and the interval grows.
    assert_eq!(c.pace(5, 0), Ok(Pace::Retry));
    assert_eq!((c.sq, c.interval), (12, 1000));
    // On time but slower than the interval: no pause.
    assert_eq!(c.pace(12, 1500), Ok(Pace::Next { sleep_ms: 0 }));
    assert_eq!((c.sq, c.interval), (13, 1000));
}

#[test]
fn interval_does_not_go_below_zero() {
    let mut c = HlsCursor { sq: 1, interval: 50 };
    assert_eq!(c.pace(9, 0), Ok(Pace::Next { sleep_ms: 0 }));
    assert_eq!((c.sq, c.interval), (2, 0));
}

#[test]
fn cursor_errors() {
    let mut c = HlsCursor::new();
    assert!(matches!(c.pick_segment(&BTreeMap::new()), Err(HlsError::NoHead)));
    assert_eq!((c.sq, c.interval), (0, 1000));
    let mut c = HlsCursor { sq: 40, interval: 1000 };
    assert!(matches!(c.pick_segment(&map_of(&[(10, "a"), (41, "b")])), Err(HlsError::MissingSegment)));
    let mut c = HlsCursor { sq: 4, interval: 1000 };
    assert_eq!(c.pace(4, u64::MAX as u128 + 1), Err(HlsError::ElapsedTooLarge));
}

#[test]
fn bind_failures_pause_then_give_up_after_fifteen() {
    assert_eq!(HLS::after_bind_failure(1), (500, true));
    assert_eq!(HLS::after_bind_failure(14), (500, true));
    assert_eq!(HLS::after_bind_failure(15), (500, false));
}

#[test]
fn relay_writes_segments_in_order() {
    // Law: the first round takes the head h, the k-th round writes h + k.
    let playlists = [
        map_of(&[(5, "a"), (6, "b"), (7, "c")]),
        map_of(&[(6, "b"), (7, "c"), (8, "d")]),
        map_of(&[(8, "d"), (9, "e"), (10, "f")]),
        map_of(&[(8, "d"), (9, "e"), (10, "f")]),
    ];
    let mut c = HlsCursor::new();
    let mut written = Vec::new();
    for m in playlists.iter() {
        let p = c.pick_segment(m).unwrap();
        written.push((c.sq, p.url.clone()));
        assert!(matches!(c.pace(p.head, 10), Ok(Pace::Next { .. })));
    }
    let expected: Vec<(u64, String)> =
        vec![(7, "c".into()), (8, "d".into()), (9, "e".into()), (10, "f".into())];
    assert_eq!(written, expected);
    // A playlist that lacks the next number ends the relay.
    assert!(matches!(c.pick_segment(&map_of(&[(3, "x")])), Err(HlsError::MissingSegment)));
}
