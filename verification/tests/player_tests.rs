use audira::metadata::{ProbedFile, TagFields, TrackMeta};
use audira::player::{
    Audira, Effect, InputPurpose, Key, Message, Modifiers, NamedKey, RepeatMode, ThemeAction, TrackRef,
};
use audira::playlist::{Playlist, Track};

/// Milliseconds in the library's time unit (nanoseconds).
fn ms(n: u64) -> u64 {
    n * 1_000_000
}

fn track(path: &str, len_ms: u64, cover: bool) -> Track {
    let tag = TagFields {
        title: None,
        artist: None,
        album: None,
        lyrics: None,
        cover_art: if cover { Some(vec![1]) } else { None },
    };
    let p = ProbedFile { duration_ns: ms(len_ms), sample_rate: None, primary_tag: Some(tag) };
    Track::new(path.as_bytes().to_vec(), TrackMeta::from_tags(Some(path.to_string()), Some(p)))
}

fn playlist(name: &str, n: usize) -> Playlist {
    let mut p = Playlist::new(name);
    for i in 0..n {
        p.add_file(track(&format!("{name}{i}.mp3"), 60_000 * (i as u64 + 1), i % 2 == 0));
    }
    p
}

fn player(n: usize) -> Audira {
    Audira::new(vec![playlist("A", n), playlist("B", 2)], true)
}

const NONE: Modifiers = Modifiers { empty: true, command: false };

#[test]
fn fresh_player() {
    let a = player(3);
    assert_eq!(a.active_playlist, 0);
    assert_eq!(a.current_track, None);
    assert_eq!(a.repeat, RepeatMode::Off);
    assert!(a.match_cover_art && a.playlist_visible && !a.shuffle);
    assert_eq!(a.remaining_text(), "");
}

#[test]
fn play_pause_starts_first_track_then_toggles() {
    let mut a = player(3);
    let e = a.update(Message::PlayPause);
    assert_eq!(
        e,
        vec![
            Effect::StartTrack { playlist: 0, track: 0 },
            Effect::Theme(ThemeAction::Derive { cover_of: Some(TrackRef { playlist: 0, track: 0 }), palette: 0 }),
        ]
    );
    assert!(a.is_playing);
    assert_eq!(a.total_ns, ms(60_000));
    assert_eq!(a.update(Message::PlayPause), vec![Effect::Pause]);
    assert!(!a.is_playing);
    assert_eq!(a.update(Message::PlayPause), vec![Effect::Resume]);
    assert!(a.is_playing);
}

#[test]
fn without_engine_play_pause_only_starts() {
    let mut a = Audira::new(vec![playlist("A", 2)], false);
    a.update(Message::PlayPause);
    assert!(a.is_playing);
    assert!(a.update(Message::PlayPause).is_empty());
    assert!(a.is_playing);
}

#[test]
fn next_stops_at_end_without_repeat() {
    let mut a = player(3);
    a.update(Message::PlayIndex { playlist: 0, track: 2 });
    assert!(a.update(Message::Next).is_empty());
    assert_eq!(a.current_track, Some(2));
}

#[test]
fn next_wraps_with_repeat_all() {
    let mut a = player(3);
    a.update(Message::CycleRepeat);
    assert_eq!(a.repeat, RepeatMode::All);
    a.update(Message::PlayIndex { playlist: 0, track: 2 });
    let e = a.update(Message::Next);
    assert_eq!(e[0], Effect::StartTrack { playlist: 0, track: 0 });
    assert_eq!(a.current_track, Some(0));
}

#[test]
fn repeat_one_replays() {
    let mut a = player(3);
    a.update(Message::CycleRepeat);
    a.update(Message::CycleRepeat);
    assert_eq!(a.repeat, RepeatMode::One);
    a.update(Message::PlayIndex { playlist: 0, track: 1 });
    a.update(Message::Tick { position_ns: ms(30_000), finished: false });
    assert_eq!(a.position_ns, ms(30_000));
    let e = a.update(Message::Tick { position_ns: ms(119_900), finished: true });
    assert_eq!(e[0], Effect::StartTrack { playlist: 0, track: 1 });
    assert_eq!(a.position_ns, 0);
    a.update(Message::CycleRepeat);
    assert_eq!(a.repeat, RepeatMode::Off);
}

#[test]
fn shuffle_uses_the_pick() {
    let mut a = player(5);
    a.update(Message::ToggleShuffle);
    a.update(Message::PlayIndex { playlist: 0, track: 0 });
    let e = a.update_with_pick(Message::Next, 3);
    assert_eq!(e[0], Effect::StartTrack { playlist: 0, track: 3 });
    let e = a.update(Message::Next);
    match e[0] {
        Effect::StartTrack { playlist: 0, track } => assert!(track < 5),
        _ => panic!("no track started"),
    }
}

#[test]
fn prev_restarts_or_goes_back() {
    let mut a = player(3);
    a.update(Message::PlayIndex { playlist: 0, track: 0 });
    a.update(Message::Tick { position_ns: ms(5_000), finished: false });
    assert_eq!(a.update(Message::Prev), vec![Effect::Seek(0)]);
    assert_eq!(a.position_ns, 0);
    let e = a.update(Message::Prev);
    assert_eq!(e[0], Effect::StartTrack { playlist: 0, track: 2 });
    let e = a.update(Message::KeyPressed(Key::Named(NamedKey::ArrowLeft), NONE));
    assert_eq!(e[0], Effect::StartTrack { playlist: 0, track: 1 });
}

#[test]
fn keys() {
    let mut a = player(2);
    let e = a.update(Message::KeyPressed(Key::Character(" ".to_string()), NONE));
    assert_eq!(e[0], Effect::StartTrack { playlist: 0, track: 0 });
    assert_eq!(a.update(Message::KeyPressed(Key::Named(NamedKey::Space), NONE)), vec![Effect::Pause]);
    let shift = Modifiers { empty: false, command: false };
    assert!(a.update(Message::KeyPressed(Key::Named(NamedKey::ArrowRight), shift)).is_empty());
    let e = a.update(Message::KeyPressed(Key::Named(NamedKey::ArrowRight), NONE));
    assert_eq!(e[0], Effect::StartTrack { playlist: 0, track: 1 });
    let ctrl = Modifiers { empty: false, command: true };
    assert_eq!(
        a.update(Message::KeyPressed(Key::Character("q".to_string()), ctrl)),
        vec![Effect::Save, Effect::CloseWindow]
    );
    assert!(a.update(Message::KeyPressed(Key::Character("q".to_string()), NONE)).is_empty());
    assert!(a.update(Message::KeyPressed(Key::Unidentified, NONE)).is_empty());
}

#[test]
fn seek_needs_a_length() {
    let mut a = player(2);
    assert!(a.update(Message::SeekTo(ms(1_000))).is_empty());
    a.update(Message::PlayIndex { playlist: 0, track: 0 });
    assert_eq!(a.update(Message::SeekTo(ms(12_000))), vec![Effect::Seek(ms(12_000))]);
    assert_eq!(a.position_ns, ms(12_000));
}

#[test]
fn adding_to_an_empty_playlist_starts_playing() {
    let mut a = Audira::new(vec![Playlist::new("Empty")], true);
    assert!(a.update(Message::FilesAdded(Vec::new())).is_empty());
    let e = a.update(Message::FilesAdded(vec![track("x.mp3", 1_000, false), track("y.mp3", 2_000, false)]));
    assert_eq!(
        e,
        vec![
            Effect::StartTrack { playlist: 0, track: 0 },
            Effect::Theme(ThemeAction::Derive { cover_of: None, palette: 0 }),
            Effect::Save,
        ]
    );
    let e = a.update(Message::FolderAdded(vec![track("z.mp3", 1_000, false)]));
    assert_eq!(e, vec![Effect::Save]);
    assert_eq!(a.playlists[0].tracks.len(), 3);
    assert_eq!(a.update(Message::FolderAdded(Vec::new())), vec![Effect::Save]);
}

#[test]
fn clear_and_delete() {
    let mut a = player(3);
    a.update(Message::PlayIndex { playlist: 0, track: 1 });
    assert_eq!(a.update(Message::ClearPlaylist), vec![Effect::Stop, Effect::ResetVisuals, Effect::Save]);
    assert!(a.playlists[0].tracks.is_empty());
    assert_eq!(a.current_track, None);
    a.update(Message::SelectPlaylist(1));
    assert_eq!(a.active_playlist, 1);
    assert_eq!(a.update(Message::DeletePlaylist), vec![Effect::Stop, Effect::Save]);
    assert_eq!(a.playlists.len(), 1);
    assert_eq!(a.active_playlist, 0);
    a.update(Message::DeletePlaylist);
    assert_eq!(a.playlists.len(), 1);
    assert_eq!(a.playlists[0].name, "A");
}

#[test]
fn new_and_rename_playlists() {
    let mut a = player(1);
    a.update(Message::ShowPlaylistMenu);
    a.update(Message::NewPlaylist);
    assert!(a.input_active && !a.show_playlist_menu);
    assert_eq!(a.input_value, "Playlist 3");
    assert_eq!(a.input_purpose, Some(InputPurpose::NewPlaylist));
    a.update(Message::InputChanged("  Road trip ".to_string()));
    assert_eq!(a.update(Message::InputConfirm), vec![Effect::Save]);
    assert_eq!(a.playlists.len(), 3);
    assert_eq!(a.playlists[2].name, "Road trip");
    assert_eq!(a.active_playlist, 2);
    assert!(!a.input_active);
    a.update(Message::RenamePlaylist);
    assert_eq!(a.input_value, "Road trip");
    a.update(Message::InputChanged("   ".to_string()));
    assert!(a.update(Message::InputConfirm).is_empty());
    assert_eq!(a.playlists[2].name, "Road trip");
    a.update(Message::RenamePlaylist);
    a.update(Message::InputChanged("Drive".to_string()));
    a.update(Message::InputCancel);
    assert_eq!(a.playlists[2].name, "Road trip");
    a.update(Message::RenamePlaylist);
    a.update(Message::InputChanged("Drive".to_string()));
    a.update(Message::InputConfirm);
    assert_eq!(a.playlists[2].name, "Drive");
}

#[test]
fn cover_art_matching() {
    let mut a = player(3);
    a.update(Message::PlayIndex { playlist: 0, track: 1 });
    assert_eq!(a.update(Message::ToggleMatchCoverArt), vec![Effect::Theme(ThemeAction::Reset)]);
    let e = a.update(Message::PlayIndex { playlist: 0, track: 2 });
    assert_eq!(e[1], Effect::Theme(ThemeAction::Reset));
    assert_eq!(
        a.update(Message::ToggleMatchCoverArt),
        vec![Effect::Theme(ThemeAction::Derive { cover_of: Some(TrackRef { playlist: 0, track: 2 }), palette: 2 })]
    );
}

#[test]
fn view_flags() {
    let mut a = player(1);
    a.update(Message::ShowMenu);
    a.update(Message::TogglePlaylistPanel);
    assert!(!a.playlist_visible && !a.show_menu);
    a.update(Message::ShowLyrics);
    assert!(a.show_lyrics);
    a.update(Message::HideLyrics);
    assert!(!a.show_lyrics);
    assert_eq!(a.update(Message::DragWindow), vec![Effect::DragWindow]);
    assert_eq!(a.update(Message::CloseWindow), vec![Effect::Save, Effect::CloseWindow]);
}

#[test]
fn remaining_text_minutes_and_hours() {
    let mut a = player(3);
    a.update(Message::PlayIndex { playlist: 0, track: 1 });
    a.update(Message::Tick { position_ns: ms(30_000), finished: false });
    assert_eq!(a.remaining_text(), "4 min remaining");
    let mut long = Playlist::new("L");
    long.add_file(track("l.mp3", 3 * 3_600_000 + 7 * 60_000 + 59_000, false));
    let mut b = Audira::new(vec![long], true);
    b.update(Message::PlayPause);
    assert_eq!(b.remaining_text(), "3h 7m remaining");
    assert_eq!(b.now_playing().map(|t| t.path.as_slice()), Some(&b"l.mp3"[..]));
}

#[test]
fn remaining_sums_exact_lengths() {
    let len = |ns: u64| {
        let p = ProbedFile { duration_ns: ns, sample_rate: None, primary_tag: None };
        Track::new(b"t.mp3".to_vec(), TrackMeta::from_tags(None, Some(p)))
    };
    let mut pl = Playlist::new("P");
    pl.add_file(len(30_000_900_000));
    pl.add_file(len(29_999_500_000));
    let mut a = Audira::new(vec![pl], true);
    a.update(Message::PlayPause);
    assert_eq!(a.remaining_text(), "1 min remaining");
}

#[test]
fn prev_restarts_only_past_three_seconds() {
    let mut a = player(3);
    a.update(Message::PlayIndex { playlist: 0, track: 1 });
    a.update(Message::Tick { position_ns: 3_000_000_000, finished: false });
    let e = a.update(Message::Prev);
    assert_eq!(e[0], Effect::StartTrack { playlist: 0, track: 0 });
    a.update(Message::Tick { position_ns: 3_000_000_001, finished: false });
    assert_eq!(a.update(Message::Prev), vec![Effect::Seek(0)]);
}
