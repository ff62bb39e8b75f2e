use audira::metadata::{ProbedFile, TrackMeta};
use audira::playlist::{is_audio_extension, playlists_or_default, saved_playlists, Playlist, SavedPlaylist, Track};

/// Milliseconds in the library's time unit (nanoseconds).
fn ms(n: u64) -> u64 {
    n * 1_000_000
}

fn track(path: &str, len_ms: u64) -> Track {
    let p = ProbedFile { duration_ns: ms(len_ms), sample_rate: None, primary_tag: None };
    Track::new(path.as_bytes().to_vec(), TrackMeta::from_tags(Some(path.to_string()), Some(p)))
}

#[test]
fn new_playlist_is_empty() {
    let p = Playlist::new("Road");
    assert_eq!(p.name, "Road");
    assert!(p.tracks.is_empty());
}

#[test]
fn durations_add_up() {
    let mut p = Playlist::new("x");
    p.add_file(track("a.mp3", 60_000));
    p.add_dir(vec![track("b.mp3", 90_000), track("c.mp3", 30_000)]);
    assert_eq!(p.tracks.len(), 3);
    assert_eq!(p.tracks[1].path, b"b.mp3");
    assert_eq!(p.total_duration(), 180_000 * 1_000_000);
    assert_eq!(p.remaining_duration(0, 0), 180_000 * 1_000_000);
    assert_eq!(p.remaining_duration(1, ms(10_000)), 110_000 * 1_000_000);
    assert_eq!(p.remaining_duration(2, ms(40_000)), 0);
    assert_eq!(p.remaining_duration(3, 0), 0);
}

#[test]
fn saved_form_holds_name_and_paths() {
    let mut p = Playlist::new("Mix");
    p.add_file(track("/m/a.flac", 1));
    p.add_file(track("/m/b.ogg", 2));
    let s = p.to_saved();
    assert_eq!(s.name, "Mix");
    assert_eq!(s.tracks, vec!["/m/a.flac".to_string(), "/m/b.ogg".to_string()]);
    let all = saved_playlists(&vec![p, Playlist::new("Empty")]);
    assert_eq!(all.len(), 2);
    assert_eq!(all[1].name, "Empty");
    assert!(all[1].tracks.is_empty());
}

#[test]
fn loading_skips_missing_files_and_roundtrips() {
    let saved = SavedPlaylist {
        name: "Mix".to_string(),
        tracks: vec!["a.mp3".to_string(), "gone.mp3".to_string(), "c.mp3".to_string()],
    };
    let p = Playlist::from_saved(&saved, vec![Some(track("a.mp3", 1)), None, Some(track("c.mp3", 2))]);
    assert_eq!(p.name, "Mix");
    let paths: Vec<&[u8]> = p.tracks.iter().map(|t| t.path.as_slice()).collect();
    assert_eq!(paths, vec![&b"a.mp3"[..], &b"c.mp3"[..]]);

    let full = SavedPlaylist { name: "All".to_string(), tracks: vec!["x.wav".to_string(), "y.wav".to_string()] };
    let q = Playlist::from_saved(&full, vec![Some(track("x.wav", 1)), Some(track("y.wav", 1))]);
    let back = q.to_saved();
    assert_eq!(back.name, full.name);
    assert_eq!(back.tracks, full.tracks);
}

#[test]
fn default_playlist_when_nothing_loaded() {
    let d = playlists_or_default(None);
    assert_eq!(d.len(), 1);
    assert_eq!(d[0].name, "Playlist");
    assert!(d[0].tracks.is_empty());
    let e = playlists_or_default(Some(Vec::new()));
    assert_eq!(e.len(), 1);
    assert_eq!(e[0].name, "Playlist");
    let k = playlists_or_default(Some(vec![Playlist::new("A"), Playlist::new("B")]));
    assert_eq!(k.len(), 2);
    assert_eq!(k[1].name, "B");
}

#[test]
fn audio_extensions_any_case() {
    for e in ["mp3", "FLAC", "Ogg", "wav", "m4a", "AAC", "wma", "opus"] {
        assert!(is_audio_extension(e), "{e}");
    }
    for e in ["txt", "mp4", "", "mp3 ", "jpg", "OPUS2"] {
        assert!(!is_audio_extension(e), "{e}");
    }
}

#[test]
fn saved_text_of_a_non_utf8_path_is_lossy() {
    let meta = TrackMeta::from_tags(None, None);
    let mut p = Playlist::new("Odd");
    p.add_file(Track::new(vec![b'/', b'm', b'/', 0xff, b'.', b'm', b'p', b'3'], meta.clone()));
    p.add_file(Track::new("/m/caf\u{e9}.mp3".as_bytes().to_vec(), meta));
    let s = p.to_saved();
    assert_eq!(s.tracks, vec!["/m/\u{fffd}.mp3".to_string(), "/m/caf\u{e9}.mp3".to_string()]);
    assert_eq!(p.tracks[0].path.len(), 8);
}
