use audira::metadata::{format_secs, format_secs_remaining, strip_lrc_timestamps, ProbedFile, TagFields, TrackMeta};

/// Milliseconds in the library's time unit (nanoseconds).
fn ms(n: u64) -> u64 {
    n * 1_000_000
}

#[test]
fn format_secs_minutes_and_seconds() {
    assert_eq!(format_secs(ms(0)), "0:00");
    assert_eq!(format_secs(ms(5_999)), "0:05");
    assert_eq!(format_secs(ms(65_000)), "1:05");
    assert_eq!(format_secs(ms(600_000)), "10:00");
    assert_eq!(format_secs(ms(3_725_400)), "62:05");
}

#[test]
fn format_secs_remaining_counts_down() {
    assert_eq!(format_secs_remaining(ms(200_000), ms(65_000)), "-2:15");
    assert_eq!(format_secs_remaining(ms(10_000), ms(10_000)), "-0:00");
    assert_eq!(format_secs_remaining(ms(10_000), ms(20_000)), "-0:00");
}

#[test]
fn strip_lrc_removes_leading_stamps() {
    let raw = "[00:12.34] Hello\n[01:02][01:05] World\n\n  [00:00]  \nplain line\n";
    assert_eq!(strip_lrc_timestamps(raw), "Hello\nWorld\nplain line");
}

#[test]
fn strip_lrc_keeps_non_stamp_tags() {
    assert_eq!(strip_lrc_timestamps("[ar:Someone]\n[00:01]x"), "[ar:Someone]\nx");
    assert_eq!(strip_lrc_timestamps("[12:00] [chorus] la"), "[chorus] la");
    assert_eq!(strip_lrc_timestamps("[] empty tag"), "empty tag");
    assert_eq!(strip_lrc_timestamps("[00:01 unclosed"), "[00:01 unclosed");
    assert_eq!(strip_lrc_timestamps("text [00:01] inside"), "text [00:01] inside");
}

#[test]
fn strip_lrc_handles_crlf_and_blank_input() {
    assert_eq!(strip_lrc_timestamps("[00:01]a\r\n[00:02]b\r\n"), "a\nb");
    assert_eq!(strip_lrc_timestamps(""), "");
    assert_eq!(strip_lrc_timestamps("\n\n   \n"), "");
    assert_eq!(strip_lrc_timestamps("\u{3000}[00:01]\u{a0}wide"), "wide");
}

#[test]
fn strip_lrc_is_idempotent_on_an_example() {
    let once = strip_lrc_timestamps("[00:01] a\n [00:02]b \n\n[x] c");
    assert_eq!(strip_lrc_timestamps(&once), once);
}

#[test]
fn meta_defaults_without_tags() {
    let m = TrackMeta::from_tags(Some("song".to_string()), None);
    assert_eq!(m.title, "song");
    assert_eq!(m.artist, "Unknown Artist");
    assert_eq!(m.album, "");
    assert_eq!(m.duration_ns, 0);
    assert_eq!(m.sample_rate, None);
    assert!(m.lyrics.is_none());
    assert!(m.cover_art.is_none());
    let n = TrackMeta::from_tags(None, None);
    assert_eq!(n.title, "Unknown");
}

#[test]
fn meta_takes_properties_without_tag() {
    let p = ProbedFile { duration_ns: ms(61_500), sample_rate: Some(44_100), primary_tag: None };
    let m = TrackMeta::from_tags(Some("file".to_string()), Some(p));
    assert_eq!(m.title, "file");
    assert_eq!(m.artist, "Unknown Artist");
    assert_eq!(m.duration_ns, ms(61_500));
    assert_eq!(m.sample_rate, Some(44_100));
    assert_eq!(m.format_duration(), "1:01");
}

#[test]
fn meta_takes_tag_values() {
    let tag = TagFields {
        title: Some("Title".to_string()),
        artist: None,
        album: Some("Album".to_string()),
        lyrics: Some("[00:01.00]line one\n[00:02.00]line two".to_string()),
        cover_art: Some(vec![1, 2, 3]),
    };
    let p = ProbedFile { duration_ns: ms(1_000), sample_rate: None, primary_tag: Some(tag) };
    let m = TrackMeta::from_tags(Some("file".to_string()), Some(p));
    assert_eq!(m.title, "Title");
    assert_eq!(m.artist, "Unknown Artist");
    assert_eq!(m.album, "Album");
    assert_eq!(m.lyrics.as_deref(), Some("line one\nline two"));
    assert_eq!(m.cover_art, Some(vec![1, 2, 3]));
}
