use audira::folder::audio_file_order;
use audira::metadata::TrackMeta;
use audira::playlist::{playlists_from_saved, SavedPlaylist, Track};

/// A mono 16-bit PCM WAV file of `secs` seconds of silence at `rate` Hz.
fn wav_bytes(rate: u32, secs: u32) -> Vec<u8> {
    let data_len = rate * 2 * secs;
    let mut b = Vec::new();
    b.extend_from_slice(b"RIFF");
    b.extend_from_slice(&(36 + data_len).to_le_bytes());
    b.extend_from_slice(b"WAVEfmt ");
    b.extend_from_slice(&16u32.to_le_bytes());
    b.extend_from_slice(&1u16.to_le_bytes());
    b.extend_from_slice(&1u16.to_le_bytes());
    b.extend_from_slice(&rate.to_le_bytes());
    b.extend_from_slice(&(rate * 2).to_le_bytes());
    b.extend_from_slice(&2u16.to_le_bytes());
    b.extend_from_slice(&16u16.to_le_bytes());
    b.extend_from_slice(b"data");
    b.extend_from_slice(&data_len.to_le_bytes());
    b.resize(b.len() + data_len as usize, 0);
    b
}

#[test]
fn load_reads_wav_properties() {
    let bytes = wav_bytes(8_000, 2);
    let m = TrackMeta::load(Some("tone".to_string()), "wav", Some(&bytes));
    assert_eq!(m.title, "tone");
    assert_eq!(m.artist, "Unknown Artist");
    assert_eq!(m.duration_ns, 2_000_000_000);
    assert_eq!(m.sample_rate, Some(8_000));
    assert!(m.lyrics.is_none());
    assert!(m.cover_art.is_none());
    assert_eq!(m.format_duration(), "0:02");
}

#[test]
fn load_takes_format_from_extension_in_any_case() {
    let bytes = wav_bytes(16_000, 1);
    let m = TrackMeta::load(Some("tone".to_string()), "WAV", Some(&bytes));
    assert_eq!(m.sample_rate, Some(16_000));
    assert_eq!(m.duration_ns, 1_000_000_000);
}

#[test]
fn load_defaults_on_unknown_format_or_unreadable_file() {
    let bytes = wav_bytes(8_000, 1);
    let unknown = TrackMeta::load(Some("x".to_string()), "xyz", Some(&bytes));
    assert_eq!(unknown.duration_ns, 0);
    assert_eq!(unknown.sample_rate, None);
    let none = TrackMeta::load(None, "", Some(&bytes));
    assert_eq!(none.title, "Unknown");
    assert_eq!(none.duration_ns, 0);
    let garbage = TrackMeta::load(Some("bad".to_string()), "flac", Some(&[1u8, 2, 3, 4][..]));
    assert_eq!(garbage.title, "bad");
    assert_eq!(garbage.duration_ns, 0);
    let unread = TrackMeta::load(Some("gone".to_string()), "wav", None);
    assert_eq!(unread.artist, "Unknown Artist");
    assert_eq!(unread.sample_rate, None);
}

#[test]
fn track_load_keeps_path() {
    let bytes = wav_bytes(8_000, 1);
    let t = Track::load(b"/music/tone.wav".to_vec(), Some("tone".to_string()), "wav", Some(&bytes));
    assert_eq!(t.path, b"/music/tone.wav");
    assert_eq!(t.meta.duration_ns, 1_000_000_000);
}

fn path(parts: &[&str]) -> Vec<String> {
    parts.iter().map(|s| s.to_string()).collect()
}

#[test]
fn folder_keeps_audio_files_in_path_order() {
    let found = vec![
        path(&["/", "music", "b.MP3"]),
        path(&["/", "music", "a.txt"]),
        path(&["/", "music", "A", "z.flac"]),
        path(&["/", "music", ".mp3"]),
        path(&["/", "music", "a.ogg"]),
        path(&["/", "music", "noext"]),
        path(&["/", "music", "x.tar.opus"]),
        path(&["/", "music", "a", "b.wav"]),
    ];
    assert_eq!(audio_file_order(&found), vec![2, 7, 4, 0, 6]);
}

#[test]
fn folder_orders_prefix_first_and_by_code_point() {
    let found = vec![
        path(&["d", "ab.m4a"]),
        path(&["d", "a.m4a"]),
        path(&["d", "é.aac"]),
        path(&["d", "z.wma"]),
        path(&["d", "..."]),
    ];
    assert_eq!(audio_file_order(&found), vec![1, 0, 3, 2]);
    assert_eq!(audio_file_order(&vec![]), Vec::<usize>::new());
}

#[test]
fn whole_list_loads_in_order() {
    let saved = vec![
        SavedPlaylist { name: "one".to_string(), tracks: vec!["/a.wav".to_string(), "/gone.wav".to_string()] },
        SavedPlaylist { name: "two".to_string(), tracks: vec![] },
    ];
    let bytes = wav_bytes(8_000, 1);
    let a = Track::load(b"/a.wav".to_vec(), Some("a".to_string()), "wav", Some(&bytes));
    let r = playlists_from_saved(&saved, vec![vec![Some(a), None], vec![]]);
    assert_eq!(r.len(), 2);
    assert_eq!(r[0].name, "one");
    assert_eq!(r[0].tracks.len(), 1);
    assert_eq!(r[0].tracks[0].path, b"/a.wav");
    assert_eq!(r[1].name, "two");
    assert!(r[1].tracks.is_empty());
}
