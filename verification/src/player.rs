//! The player's state and how it answers each message: which track plays,
//! what the repeat and shuffle modes pick next, playlist management and the
//! name dialog. What the state change asks of the outside world (audio,
//! artwork, saving, the window) comes back as a list of effects.

use rand::Rng;
use vstd::prelude::*;
use vstd::string::StringExecFns;

use crate::metadata::{decimal, push_decimal};
use crate::playlist::{remaining_ns, playlists_view, Playlist, PlaylistView, Track, tracks_view};
use crate::text::{chars_of, trim, trimmed};

verus! {

/// What happens at the end of the playlist and of a track.
#[derive(Debug, Clone, Copy, PartialEq, Eq, Structural)]
pub enum RepeatMode {
    Off,
    All,
    One,
}

/// What the name dialog is for.
#[derive(Debug, Clone, Copy, PartialEq, Eq, Structural)]
pub enum InputPurpose {
    NewPlaylist,
    RenamePlaylist,
}

/// Number of fallback colour palettes.
pub const FALLBACK_PALETTES: usize = 5;

/// A track of a playlist, by position.
#[derive(Debug, Clone, Copy, PartialEq, Eq, Structural)]
pub struct TrackRef {
    pub playlist: usize,
    pub track: usize,
}

/// How the window colours are to be set.
#[derive(Debug, Clone, Copy, PartialEq, Eq, Structural)]
pub enum ThemeAction {
    /// Back to the neutral colours.
    Reset,
    /// From the accent of a cover (the cover art of track `cover_of`, or no
    /// image at all), else from fallback palette number `palette`.
    Derive { cover_of: Option<TrackRef>, palette: usize },
}

/// Work that a state change asks of the outside world, in order.
#[derive(Debug, Clone, Copy, PartialEq, Eq, Structural)]
pub enum Effect {
    /// Load and play the given track: waveform, cover art and audio.
    StartTrack { playlist: usize, track: usize },
    /// Set the window colours.
    Theme(ThemeAction),
    Pause,
    Resume,
    /// Stop playback.
    Stop,
    /// Seek to the given position, in nanoseconds.
    Seek(u64),
    /// Drop the cover art, reset the colours and the waveform.
    ResetVisuals,
    /// Save all playlists.
    Save,
    CloseWindow,
    DragWindow,
}

/// The player's state.
pub struct Audira {
    pub playlists: Vec<Playlist>,
    pub active_playlist: usize,
    pub current_track: Option<usize>,
    /// Whether an audio output could be opened.
    pub engine_ready: bool,
    pub is_playing: bool,
    pub position_ns: u64,
    pub total_ns: u64,
    pub repeat: RepeatMode,
    pub shuffle: bool,
    pub match_cover_art: bool,
    pub playlist_visible: bool,
    pub show_lyrics: bool,
    pub show_menu: bool,
    pub show_playlist_menu: bool,
    pub input_active: bool,
    pub input_purpose: Option<InputPurpose>,
    pub input_value: String,
}

#[verifier::ext_equal]
pub struct AudiraView {
    pub playlists: Seq<PlaylistView>,
    pub active_playlist: usize,
    pub current_track: Option<usize>,
    pub engine_ready: bool,
    pub is_playing: bool,
    pub position_ns: u64,
    pub total_ns: u64,
    pub repeat: RepeatMode,
    pub shuffle: bool,
    pub match_cover_art: bool,
    pub playlist_visible: bool,
    pub show_lyrics: bool,
    pub show_menu: bool,
    pub show_playlist_menu: bool,
    pub input_active: bool,
    pub input_purpose: Option<InputPurpose>,
    pub input_value: Seq<char>,
}

impl View for Audira {
    type V = AudiraView;

    open spec fn view(&self) -> AudiraView {
        AudiraView {
            playlists: playlists_view(self.playlists@),
            active_playlist: self.active_playlist,
            current_track: self.current_track,
            engine_ready: self.engine_ready,
            is_playing: self.is_playing,
            position_ns: self.position_ns,
            total_ns: self.total_ns,
            repeat: self.repeat,
            shuffle: self.shuffle,
            match_cover_art: self.match_cover_art,
            playlist_visible: self.playlist_visible,
            show_lyrics: self.show_lyrics,
            show_menu: self.show_menu,
            show_playlist_menu: self.show_playlist_menu,
            input_active: self.input_active,
            input_purpose: self.input_purpose,
            input_value: self.input_value@,
        }
    }
}

/// Number of tracks in the active playlist (0 if there is none).
pub open spec fn active_len(s: AudiraView) -> nat {
    if s.active_playlist < s.playlists.len() {
        s.playlists[s.active_playlist as int].tracks.len()
    } else {
        0
    }
}

/// The colours for a track: neutral unless they follow the cover art.
pub open spec fn theme_for(match_cover_art: bool, cover_of: Option<TrackRef>, idx: usize) -> ThemeAction {
    if match_cover_art {
        ThemeAction::Derive { cover_of, palette: (idx % FALLBACK_PALETTES) as usize }
    } else {
        ThemeAction::Reset
    }
}

/// Starting track `t` of playlist `p`, when there is such a track.
pub open spec fn play_index_spec(s: AudiraView, p: usize, t: usize) -> (AudiraView, Seq<Effect>) {
    if p < s.playlists.len() && t < s.playlists[p as int].tracks.len() {
        let tr = s.playlists[p as int].tracks[t as int];
        let cover_of = if tr.meta.cover_art is Some {
            Some(TrackRef { playlist: p, track: t })
        } else {
            None
        };
        (
            AudiraView {
                active_playlist: p,
                current_track: Some(t),
                total_ns: tr.meta.duration_ns,
                position_ns: 0,
                is_playing: true,
                ..s
            },
            seq![
                Effect::StartTrack { playlist: p, track: t },
                Effect::Theme(theme_for(s.match_cover_art, cover_of, t)),
            ],
        )
    } else {
        (s, Seq::empty())
    }
}

/// The track after the current one: the same one under repeat-one, the
/// drawn index `pick` under shuffle, the next one otherwise, wrapping to the
/// first under repeat-all and stopping at the end without repeat.
pub open spec fn play_next_spec(s: AudiraView, pick: usize) -> (AudiraView, Seq<Effect>) {
    let len = active_len(s);
    let cur: usize = match s.current_track {
        Some(c) => c,
        None => 0,
    };
    if len == 0 {
        (s, Seq::empty())
    } else if s.repeat == RepeatMode::One {
        play_index_spec(s, s.active_playlist, cur)
    } else if s.shuffle {
        play_index_spec(s, s.active_playlist, pick)
    } else if cur + 1 >= len {
        if s.repeat == RepeatMode::All {
            play_index_spec(s, s.active_playlist, 0)
        } else {
            (s, Seq::empty())
        }
    } else {
        play_index_spec(s, s.active_playlist, (cur + 1) as usize)
    }
}

/// Back: past the first three seconds, to the start of the track; otherwise
/// the previous track, wrapping from the first to the last.
pub open spec fn play_prev_spec(s: AudiraView) -> (AudiraView, Seq<Effect>) {
    let len = active_len(s);
    let cur: usize = match s.current_track {
        Some(c) => c,
        None => 0,
    };
    if len == 0 {
        (s, Seq::empty())
    } else if s.position_ns > 3_000_000_000 {
        (
            AudiraView { position_ns: 0, ..s },
            if s.engine_ready {
                seq![Effect::Seek(0)]
            } else {
                Seq::empty()
            },
        )
    } else {
        play_index_spec(
            s,
            s.active_playlist,
            if cur == 0 {
                (len - 1) as usize
            } else {
                (cur - 1) as usize
            },
        )
    }
}

/// Play/pause: the first track when nothing was chosen yet, else toggling
/// playback when there is audio output.
pub open spec fn play_pause_spec(s: AudiraView) -> (AudiraView, Seq<Effect>) {
    if s.current_track is None && active_len(s) > 0 {
        play_index_spec(s, s.active_playlist, 0)
    } else if s.engine_ready {
        if s.is_playing {
            (AudiraView { is_playing: false, ..s }, seq![Effect::Pause])
        } else {
            (AudiraView { is_playing: true, ..s }, seq![Effect::Resume])
        }
    } else {
        (s, Seq::empty())
    }
}

/// A named key, as far as the player tells keys apart.
#[derive(Debug, Clone, Copy, PartialEq, Eq, Structural)]
pub enum NamedKey {
    Space,
    ArrowLeft,
    ArrowRight,
    Other,
}

/// A key press.
#[derive(Debug, Clone)]
pub enum Key {
    Named(NamedKey),
    /// A key that types text, with that text.
    Character(String),
    Unidentified,
}

/// The modifier keys held during a key press.
#[derive(Debug, Clone, Copy, PartialEq, Eq, Structural)]
pub struct Modifiers {
    /// No modifier is held.
    pub empty: bool,
    /// The platform's command modifier (Ctrl, or Cmd on macOS) is held.
    pub command: bool,
}

/// What the player is told: user actions, timer ticks and the results of
/// the file dialogs.
#[derive(Debug)]
pub enum Message {
    PlayPause,
    Prev,
    Next,
    PlayIndex { playlist: usize, track: usize },
    /// Seek to a position (nanoseconds) picked on the waveform.
    SeekTo(u64),
    /// The periodic tick, with the position the audio engine reports and
    /// whether the track has finished.
    Tick { position_ns: u64, finished: bool },
    /// Files picked in the dialog, loaded.
    FilesAdded(Vec<Track>),
    /// The audio files of a picked folder, loaded, in path order.
    FolderAdded(Vec<Track>),
    ClearPlaylist,
    NewPlaylist,
    DeletePlaylist,
    RenamePlaylist,
    SelectPlaylist(usize),
    TogglePlaylistPanel,
    CycleRepeat,
    ToggleShuffle,
    ToggleMatchCoverArt,
    ShowLyrics,
    HideLyrics,
    ShowMenu,
    HideMenu,
    ShowPlaylistMenu,
    HidePlaylistMenu,
    InputChanged(String),
    InputConfirm,
    InputCancel,
    KeyPressed(Key, Modifiers),
    CloseWindow,
    DragWindow,
}

/// Stopping the engine, if there is one.
pub open spec fn stop_effects(s: AudiraView) -> Seq<Effect> {
    if s.engine_ready {
        seq![Effect::Stop]
    } else {
        Seq::empty()
    }
}

/// The state with `new` appended to the active playlist (if there is one).
pub open spec fn with_tracks_added(s: AudiraView, new: Seq<crate::playlist::TrackView>) -> AudiraView {
    if s.active_playlist < s.playlists.len() {
        let pl = s.playlists[s.active_playlist as int];
        AudiraView {
            playlists: s.playlists.update(
                s.active_playlist as int,
                PlaylistView { name: pl.name, tracks: pl.tracks + new },
            ),
            ..s
        }
    } else {
        s
    }
}

/// Adding tracks: appended to the active playlist; if it was empty, the
/// first of them starts; then everything is saved.
pub open spec fn add_tracks_spec(s: AudiraView, new: Seq<crate::playlist::TrackView>) -> (AudiraView, Seq<Effect>) {
    let s1 = with_tracks_added(s, new);
    let r = if active_len(s) == 0 {
        play_index_spec(s1, s.active_playlist, active_len(s) as usize)
    } else {
        (s1, Seq::empty())
    };
    (r.0, r.1.push(Effect::Save))
}

/// The playlists with the tracks of playlist `i` removed.
pub open spec fn cleared(pls: Seq<PlaylistView>, i: int) -> Seq<PlaylistView> {
    pls.update(i, PlaylistView { name: pls[i].name, tracks: Seq::empty() })
}

/// Clearing the active playlist stops playback and resets the visuals.
pub open spec fn clear_spec(s: AudiraView) -> (AudiraView, Seq<Effect>) {
    (
        AudiraView {
            playlists: if s.active_playlist < s.playlists.len() {
                cleared(s.playlists, s.active_playlist as int)
            } else {
                s.playlists
            },
            is_playing: false,
            current_track: None,
            position_ns: 0,
            total_ns: 0,
            ..s
        },
        stop_effects(s) + seq![Effect::ResetVisuals, Effect::Save],
    )
}

/// Deleting the active playlist; the last one left is only emptied.
pub open spec fn delete_spec(s: AudiraView) -> (AudiraView, Seq<Effect>) {
    (
        AudiraView {
            playlists: if s.playlists.len() > 1 {
                s.playlists.remove(s.active_playlist as int)
            } else if s.playlists.len() == 1 {
                cleared(s.playlists, 0)
            } else {
                s.playlists
            },
            active_playlist: if s.active_playlist > 0 {
                (s.active_playlist - 1) as usize
            } else {
                0
            },
            current_track: None,
            is_playing: false,
            show_playlist_menu: false,
            ..s
        },
        stop_effects(s).push(Effect::Save),
    )
}

/// The name proposed for a new playlist: `Playlist <count + 1>`.
pub open spec fn new_playlist_name(count: nat) -> Seq<char> {
    "Playlist "@ + decimal(count + 1)
}

/// Confirming the name dialog: a non-blank (trimmed) name creates or renames
/// a playlist and everything is saved; the dialog closes either way.
pub open spec fn confirm_spec(s: AudiraView) -> (AudiraView, Seq<Effect>) {
    let val = trim(s.input_value);
    let closed = AudiraView { input_active: false, input_purpose: None, ..s };
    if val.len() > 0 {
        let s1 = match s.input_purpose {
            Some(InputPurpose::NewPlaylist) => AudiraView {
                playlists: closed.playlists.push(PlaylistView { name: val, tracks: Seq::empty() }),
                active_playlist: closed.playlists.len() as usize,
                ..closed
            },
            Some(InputPurpose::RenamePlaylist) => if s.active_playlist < s.playlists.len() {
                AudiraView {
                    playlists: closed.playlists.update(
                        s.active_playlist as int,
                        PlaylistView {
                            name: val,
                            tracks: s.playlists[s.active_playlist as int].tracks,
                        },
                    ),
                    ..closed
                }
            } else {
                closed
            },
            None => closed,
        };
        (s1, seq![Effect::Save])
    } else {
        (closed, Seq::empty())
    }
}

/// Toggling whether the colours follow the cover art, and recolouring.
pub open spec fn toggle_match_spec(s: AudiraView) -> (AudiraView, Seq<Effect>) {
    let m = !s.match_cover_art;
    let idx: usize = match s.current_track {
        Some(i) => i,
        None => 0,
    };
    let has_cover = match s.current_track {
        Some(i) => s.active_playlist < s.playlists.len() && i < s.playlists[s.active_playlist as int].tracks.len()
            && s.playlists[s.active_playlist as int].tracks[i as int].meta.cover_art is Some,
        None => false,
    };
    let cover_of = if has_cover {
        Some(TrackRef { playlist: s.active_playlist, track: idx })
    } else {
        None
    };
    (AudiraView { match_cover_art: m, ..s }, seq![Effect::Theme(theme_for(m, cover_of, idx))])
}

/// Keyboard shortcuts: Space plays or pauses, the arrows (alone) go back
/// and forward, Command+Q saves and closes the window.
pub open spec fn key_spec(s: AudiraView, key: Key, mods: Modifiers, pick: usize) -> (AudiraView, Seq<Effect>) {
    match key {
        Key::Named(NamedKey::Space) => play_pause_spec(s),
        Key::Named(NamedKey::ArrowLeft) => if mods.empty {
            play_prev_spec(s)
        } else {
            (s, Seq::empty())
        },
        Key::Named(NamedKey::ArrowRight) => if mods.empty {
            play_next_spec(s, pick)
        } else {
            (s, Seq::empty())
        },
        Key::Character(c) => if c@ == " "@ {
            play_pause_spec(s)
        } else if c@ == "q"@ && mods.command {
            (s, seq![Effect::Save, Effect::CloseWindow])
        } else {
            (s, Seq::empty())
        },
        _ => (s, Seq::empty()),
    }
}

/// The player's answer to `msg`: its next state and the effects it asks
/// for, `pick` being the shuffle draw.
#[verifier::opaque]
pub open spec fn step(s: AudiraView, msg: Message, pick: usize) -> (AudiraView, Seq<Effect>) {
    match msg {
        Message::PlayPause => play_pause_spec(s),
        Message::Prev => play_prev_spec(s),
        Message::Next => play_next_spec(s, pick),
        Message::PlayIndex { playlist, track } => play_index_spec(s, playlist, track),
        Message::SeekTo(ns) => if s.total_ns > 0 {
            (
                AudiraView { position_ns: ns, ..s },
                if s.engine_ready {
                    seq![Effect::Seek(ns)]
                } else {
                    Seq::empty()
                },
            )
        } else {
            (s, Seq::empty())
        },
        Message::Tick { position_ns, finished } => if s.is_playing && s.engine_ready {
            let s1 = AudiraView { position_ns, ..s };
            if finished {
                play_next_spec(s1, pick)
            } else {
                (s1, Seq::empty())
            }
        } else {
            (s, Seq::empty())
        },
        Message::FilesAdded(v) => if v.len() > 0 {
            add_tracks_spec(s, tracks_view(v@))
        } else {
            (s, Seq::empty())
        },
        Message::FolderAdded(v) => add_tracks_spec(s, tracks_view(v@)),
        Message::ClearPlaylist => clear_spec(s),
        Message::NewPlaylist => (
            AudiraView {
                input_purpose: Some(InputPurpose::NewPlaylist),
                input_value: new_playlist_name(s.playlists.len()),
                input_active: true,
                show_playlist_menu: false,
                ..s
            },
            Seq::empty(),
        ),
        Message::RenamePlaylist => (
            AudiraView {
                input_purpose: Some(InputPurpose::RenamePlaylist),
                input_value: if s.active_playlist < s.playlists.len() {
                    s.playlists[s.active_playlist as int].name
                } else {
                    Seq::empty()
                },
                input_active: true,
                show_playlist_menu: false,
                ..s
            },
            Seq::empty(),
        ),
        Message::DeletePlaylist => delete_spec(s),
        Message::SelectPlaylist(i) => (
            AudiraView {
                active_playlist: i,
                current_track: None,
                show_playlist_menu: false,
                is_playing: false,
                ..s
            },
            stop_effects(s),
        ),
        Message::InputChanged(v) => (AudiraView { input_value: v@, ..s }, Seq::empty()),
        Message::InputConfirm => confirm_spec(s),
        Message::InputCancel => (
            AudiraView { input_active: false, input_purpose: None, ..s },
            Seq::empty(),
        ),
        Message::TogglePlaylistPanel => (
            AudiraView { playlist_visible: !s.playlist_visible, show_menu: false, ..s },
            Seq::empty(),
        ),
        Message::CycleRepeat => (AudiraView { repeat: next_repeat(s.repeat), ..s }, Seq::empty()),
        Message::ToggleShuffle => (AudiraView { shuffle: !s.shuffle, ..s }, Seq::empty()),
        Message::ToggleMatchCoverArt => toggle_match_spec(s),
        Message::ShowLyrics => (AudiraView { show_lyrics: true, ..s }, Seq::empty()),
        Message::HideLyrics => (AudiraView { show_lyrics: false, ..s }, Seq::empty()),
        Message::ShowMenu => (AudiraView { show_menu: true, ..s }, Seq::empty()),
        Message::HideMenu => (AudiraView { show_menu: false, ..s }, Seq::empty()),
        Message::ShowPlaylistMenu => (AudiraView { show_playlist_menu: true, ..s }, Seq::empty()),
        Message::HidePlaylistMenu => (AudiraView { show_playlist_menu: false, ..s }, Seq::empty()),
        Message::KeyPressed(key, mods) => key_spec(s, key, mods, pick),
        Message::CloseWindow => (s, seq![Effect::Save, Effect::CloseWindow]),
        Message::DragWindow => (s, seq![Effect::DragWindow]),
    }
}

/// Off, then all, then one, then off again.
pub open spec fn next_repeat(m: RepeatMode) -> RepeatMode {
    match m {
        RepeatMode::Off => RepeatMode::All,
        RepeatMode::All => RepeatMode::One,
        RepeatMode::One => RepeatMode::Off,
    }
}

/// A shuffle draw that the player can make: below the number of tracks.
pub open spec fn pick_ok(s: AudiraView, pick: usize) -> bool {
    active_len(s) == 0 || pick < active_len(s)
}

/// Whether answering `msg` moves to the next track with shuffle in use.
pub open spec fn draws_shuffle(s: AudiraView, msg: Message) -> bool {
    &&& active_len(s) > 0
    &&& s.shuffle
    &&& s.repeat != RepeatMode::One
    &&& match msg {
        Message::Next => true,
        Message::Tick { finished, .. } => finished && s.is_playing && s.engine_ready,
        Message::KeyPressed(Key::Named(NamedKey::ArrowRight), mods) => mods.empty,
        _ => false,
    }
}

/// What the player accepts without failing: deleting a playlist, when there
/// are several, needs the active one to exist.
pub open spec fn msg_ok(s: AudiraView, msg: Message) -> bool {
    msg matches Message::DeletePlaylist ==> (s.playlists.len() > 1 ==> s.active_playlist
        < s.playlists.len())
}

/// Whether `msg` is one of the playback messages.
pub open spec fn is_playback_msg(msg: Message) -> bool {
    match msg {
        Message::PlayPause | Message::Prev | Message::Next | Message::PlayIndex { .. } | Message::SeekTo(..) | Message::Tick { .. } | Message::KeyPressed(..) => true,
        _ => false,
    }
}

/// Whether `msg` is one of the library messages.
pub open spec fn is_library_msg(msg: Message) -> bool {
    match msg {
        Message::FilesAdded(..) | Message::FolderAdded(..) | Message::ClearPlaylist | Message::NewPlaylist | Message::RenamePlaylist | Message::DeletePlaylist | Message::SelectPlaylist(..) | Message::InputChanged(..) | Message::InputConfirm | Message::InputCancel => true,
        _ => false,
    }
}

/// Whether `msg` is one of the view messages.
pub open spec fn is_view_msg(msg: Message) -> bool {
    match msg {
        Message::TogglePlaylistPanel | Message::CycleRepeat | Message::ToggleShuffle | Message::ToggleMatchCoverArt | Message::ShowLyrics | Message::HideLyrics | Message::ShowMenu | Message::HideMenu | Message::ShowPlaylistMenu | Message::HidePlaylistMenu | Message::CloseWindow | Message::DragWindow => true,
        _ => false,
    }
}

/// A uniformly drawn index below `len` (rand's `thread_rng().gen_range(0..len)`).
#[verifier::external_body]
fn random_below(len: usize) -> (r: usize)
    requires
        len > 0,
    ensures
        r < len,
{
    rand::thread_rng().gen_range(0..len)
}

impl Audira {
    /// Number of tracks in the active playlist.
    pub fn active_tracks_len(&self) -> (n: usize)
        ensures
            n == active_len(self@),
    {
        if self.active_playlist < self.playlists.len() {
            self.playlists[self.active_playlist].tracks.len()
        } else {
            0
        }
    }

    /// Starts track `track` of playlist `playlist`; nothing if there is no such track.
    pub fn play_index(&mut self, playlist: usize, track: usize) -> (r: Vec<Effect>)
        ensures
            final(self)@ == play_index_spec(old(self)@, playlist, track).0,
            r@ == play_index_spec(old(self)@, playlist, track).1,
    {
        if playlist >= self.playlists.len() || track >= self.playlists[playlist].tracks.len() {
            return Vec::new();
        }
        let has_cover = self.playlists[playlist].tracks[track].meta.cover_art.is_some();
        let duration = self.playlists[playlist].tracks[track].meta.duration_ns;
        self.active_playlist = playlist;
        self.current_track = Some(track);
        self.total_ns = duration;
        self.position_ns = 0;
        let cover_of = if has_cover {
            Some(TrackRef { playlist, track })
        } else {
            None
        };
        let theme = if self.match_cover_art {
            ThemeAction::Derive { cover_of, palette: track % FALLBACK_PALETTES }
        } else {
            ThemeAction::Reset
        };
        self.is_playing = true;
        let mut r = Vec::new();
        r.push(Effect::StartTrack { playlist, track });
        r.push(Effect::Theme(theme));
        r
    }

    /// The next track, with `pick` as the shuffle draw (used only under shuffle).
    pub fn play_next_with(&mut self, pick: usize) -> (r: Vec<Effect>)
        requires
            active_len(old(self)@) == 0 || pick < active_len(old(self)@),
        ensures
            final(self)@ == play_next_spec(old(self)@, pick).0,
            r@ == play_next_spec(old(self)@, pick).1,
    {
        let len = self.active_tracks_len();
        if len == 0 {
            return Vec::new();
        }
        let cur = match self.current_track {
            Some(c) => c,
            None => 0,
        };
        let pl = self.active_playlist;
        if self.repeat == RepeatMode::One {
            self.play_index(pl, cur)
        } else if self.shuffle {
            self.play_index(pl, pick)
        } else if cur >= len - 1 {
            if self.repeat == RepeatMode::All {
                self.play_index(pl, 0)
            } else {
                Vec::new()
            }
        } else {
            self.play_index(pl, cur + 1)
        }
    }

    /// The next track (a random one under shuffle).
    pub fn play_next(&mut self) -> (r: Vec<Effect>)
        ensures
            exists|pick: usize|
                (active_len(old(self)@) == 0 || pick < active_len(old(self)@)) && final(self)@
                    == play_next_spec(old(self)@, pick).0 && r@ == play_next_spec(
                    old(self)@,
                    pick,
                ).1,
    {
        let len = self.active_tracks_len();
        let pick = if len > 0 && self.shuffle && self.repeat != RepeatMode::One {
            random_below(len)
        } else {
            0
        };
        self.play_next_with(pick)
    }

    /// Back to the start of the track, or to the previous track.
    pub fn play_prev(&mut self) -> (r: Vec<Effect>)
        ensures
            final(self)@ == play_prev_spec(old(self)@).0,
            r@ == play_prev_spec(old(self)@).1,
    {
        let len = self.active_tracks_len();
        if len == 0 {
            return Vec::new();
        }
        if self.position_ns > 3_000_000_000 {
            let mut r = Vec::new();
            if self.engine_ready {
                r.push(Effect::Seek(0));
            }
            self.position_ns = 0;
            r
        } else {
            let cur = match self.current_track {
                Some(c) => c,
                None => 0,
            };
            let prev = if cur == 0 {
                len - 1
            } else {
                cur - 1
            };
            let pl = self.active_playlist;
            self.play_index(pl, prev)
        }
    }

    /// Play or pause.
    pub fn play_pause(&mut self) -> (r: Vec<Effect>)
        ensures
            final(self)@ == play_pause_spec(old(self)@).0,
            r@ == play_pause_spec(old(self)@).1,
    {
        if self.current_track.is_none() && self.active_tracks_len() > 0 {
            let pl = self.active_playlist;
            return self.play_index(pl, 0);
        }
        let mut r = Vec::new();
        if self.engine_ready {
            if self.is_playing {
                r.push(Effect::Pause);
                self.is_playing = false;
            } else {
                r.push(Effect::Resume);
                self.is_playing = true;
            }
        }
        r
    }
}


proof fn lemma_playlists_update(v: Seq<Playlist>, i: int, p: Playlist)
    requires
        0 <= i < v.len(),
    ensures
        playlists_view(v.update(i, p)) == playlists_view(v).update(i, p@),
{
    assert(playlists_view(v.update(i, p)) =~= playlists_view(v).update(i, p@));
}

impl Audira {
    /// A player over `playlists`, with nothing chosen yet; `engine_ready`
    /// tells whether an audio output could be opened.
    pub fn new(playlists: Vec<Playlist>, engine_ready: bool) -> (a: Audira)
        ensures
            a@.playlists == playlists_view(playlists@),
            a@.active_playlist == 0,
            a@.current_track is None,
            a@.engine_ready == engine_ready,
            !a@.is_playing,
            a@.position_ns == 0,
            a@.total_ns == 0,
            a@.repeat == RepeatMode::Off,
            !a@.shuffle,
            a@.match_cover_art,
            a@.playlist_visible,
            !a@.show_lyrics,
            !a@.show_menu,
            !a@.show_playlist_menu,
            !a@.input_active,
            a@.input_purpose is None,
            a@.input_value == Seq::<char>::empty(),
    {
        Audira {
            playlists,
            active_playlist: 0,
            current_track: None,
            engine_ready,
            is_playing: false,
            position_ns: 0,
            total_ns: 0,
            repeat: RepeatMode::Off,
            shuffle: false,
            match_cover_art: true,
            playlist_visible: true,
            show_lyrics: false,
            show_menu: false,
            show_playlist_menu: false,
            input_active: false,
            input_purpose: None,
            input_value: String::new(),
        }
    }

    fn stop_engine(&self, r: &mut Vec<Effect>)
        ensures
            final(r)@ == old(r)@ + stop_effects(self@),
    {
        if self.engine_ready {
            r.push(Effect::Stop);
        }
        assert(final(r)@ =~= old(r)@ + stop_effects(self@));
    }

    fn add_tracks(&mut self, tracks: Vec<Track>) -> (r: Vec<Effect>)
        ensures
            final(self)@ == add_tracks_spec(old(self)@, tracks_view(tracks@)).0,
            r@ == add_tracks_spec(old(self)@, tracks_view(tracks@)).1,
    {
        let ghost s0 = self@;
        let start = self.active_tracks_len();
        let a = self.active_playlist;
        if a < self.playlists.len() {
            let ghost before = self.playlists@;
            self.playlists[a].add_dir(tracks);
            proof {
                lemma_playlists_update(before, a as int, self.playlists@[a as int]);
                assert(self.playlists@ == before.update(a as int, self.playlists@[a as int]));
            }
        }
        assert(self@ =~= with_tracks_added(s0, tracks_view(tracks@)));
        let mut r = if start == 0 {
            self.play_index(a, start)
        } else {
            Vec::new()
        };
        r.push(Effect::Save);
        r
    }

    fn clear_playlist(&mut self) -> (r: Vec<Effect>)
        ensures
            final(self)@ == clear_spec(old(self)@).0,
            r@ == clear_spec(old(self)@).1,
    {
        let ghost s0 = self@;
        let mut r = Vec::new();
        self.stop_engine(&mut r);
        self.is_playing = false;
        self.current_track = None;
        self.position_ns = 0;
        self.total_ns = 0;
        let a = self.active_playlist;
        if a < self.playlists.len() {
            let ghost before = self.playlists@;
            self.playlists[a].tracks.clear();
            proof {
                lemma_playlists_update(before, a as int, self.playlists@[a as int]);
                assert(self.playlists@ == before.update(a as int, self.playlists@[a as int]));
                assert(tracks_view(self.playlists@[a as int].tracks@) =~= Seq::empty());
            }
        }
        r.push(Effect::ResetVisuals);
        r.push(Effect::Save);
        assert(self@ =~= clear_spec(s0).0);
        r
    }

    fn delete_playlist(&mut self) -> (r: Vec<Effect>)
        requires
            old(self).playlists.len() > 1 ==> old(self).active_playlist < old(self).playlists.len(),
        ensures
            final(self)@ == delete_spec(old(self)@).0,
            r@ == delete_spec(old(self)@).1,
    {
        let ghost s0 = self@;
        let ghost before = self.playlists@;
        if self.playlists.len() > 1 {
            let _gone = self.playlists.remove(self.active_playlist);
            assert(playlists_view(self.playlists@) =~= playlists_view(before).remove(
                s0.active_playlist as int,
            ));
        } else if self.playlists.len() == 1 {
            self.playlists[0].tracks.clear();
            proof {
                lemma_playlists_update(before, 0, self.playlists@[0]);
                assert(self.playlists@ == before.update(0, self.playlists@[0]));
                assert(tracks_view(self.playlists@[0].tracks@) =~= Seq::empty());
            }
        }
        self.active_playlist = if self.active_playlist > 0 {
            self.active_playlist - 1
        } else {
            0
        };
        self.current_track = None;
        let mut r = Vec::new();
        self.stop_engine(&mut r);
        self.is_playing = false;
        self.show_playlist_menu = false;
        r.push(Effect::Save);
        assert(self@ =~= delete_spec(s0).0);
        r
    }

    #[verifier::rlimit(60)]
    fn confirm_input(&mut self) -> (r: Vec<Effect>)
        ensures
            final(self)@ == confirm_spec(old(self)@).0,
            r@ == confirm_spec(old(self)@).1,
    {
        let ghost s0 = self@;
        let val = trimmed(self.input_value.as_str());
        let mut r = Vec::new();
        if !val.as_str().is_empty() {
            match self.input_purpose {
                Some(InputPurpose::NewPlaylist) => {
                    let ghost before = self.playlists@;
                    let pl = Playlist::new(val.as_str());
                    self.playlists.push(pl);
                    assert(playlists_view(self.playlists@) =~= playlists_view(before).push(pl@));
                    self.active_playlist = self.playlists.len() - 1;
                },
                Some(InputPurpose::RenamePlaylist) => {
                    let a = self.active_playlist;
                    if a < self.playlists.len() {
                        let ghost before = self.playlists@;
                        self.playlists[a].name = val;
                        proof {
                            lemma_playlists_update(before, a as int, self.playlists@[a as int]);
                            assert(self.playlists@ == before.update(a as int, self.playlists@[a as int]));
                        }
                    }
                },
                None => {},
            }
            r.push(Effect::Save);
        }
        self.input_active = false;
        self.input_purpose = None;
        assert(self@ =~= confirm_spec(s0).0);
        r
    }

    fn toggle_match_cover_art(&mut self) -> (r: Vec<Effect>)
        ensures
            final(self)@ == toggle_match_spec(old(self)@).0,
            r@ == toggle_match_spec(old(self)@).1,
    {
        self.match_cover_art = !self.match_cover_art;
        let a = self.active_playlist;
        let (idx, has_cover) = match self.current_track {
            Some(i) => (
                i,
                a < self.playlists.len() && i < self.playlists[a].tracks.len()
                    && self.playlists[a].tracks[i].meta.cover_art.is_some(),
            ),
            None => (0, false),
        };
        let cover_of = if has_cover {
            Some(TrackRef { playlist: a, track: idx })
        } else {
            None
        };
        let theme = if self.match_cover_art {
            ThemeAction::Derive { cover_of, palette: idx % FALLBACK_PALETTES }
        } else {
            ThemeAction::Reset
        };
        let mut r = Vec::new();
        r.push(Effect::Theme(theme));
        r
    }

    fn key_pressed(&mut self, key: Key, mods: Modifiers, pick: usize) -> (r: Vec<Effect>)
        requires
            pick_ok(old(self)@, pick),
        ensures
            final(self)@ == key_spec(old(self)@, key, mods, pick).0,
            r@ == key_spec(old(self)@, key, mods, pick).1,
    {
        match key {
            Key::Named(NamedKey::Space) => self.play_pause(),
            Key::Named(NamedKey::ArrowLeft) => if mods.empty {
                self.play_prev()
            } else {
                Vec::new()
            },
            Key::Named(NamedKey::ArrowRight) => if mods.empty {
                self.play_next_with(pick)
            } else {
                Vec::new()
            },
            Key::Character(c) => {
                let cv = chars_of(c.as_str());
                if cv.len() == 1 && cv[0] == ' ' {
                    proof {
                        reveal_strlit(" ");
                        assert(c@ =~= " "@);
                    }
                    self.play_pause()
                } else {
                    proof {
                        reveal_strlit(" ");
                        assert(c@ != " "@) by {
                            if c@ == " "@ {
                                assert(cv@[0] == ' ');
                            }
                        }
                    }
                    let is_q = cv.len() == 1 && cv[0] == 'q';
                    proof {
                        reveal_strlit("q");
                        if is_q {
                            assert(c@ =~= "q"@);
                        } else if c@ == "q"@ {
                            assert(cv@.len() == 1 && cv@[0] == 'q');
                        }
                    }
                    if is_q && mods.command {
                        let mut r = Vec::new();
                        r.push(Effect::Save);
                        r.push(Effect::CloseWindow);
                        r
                    } else {
                        Vec::new()
                    }
                }
            },
            _ => Vec::new(),
        }
    }

    /// Playback messages: play, pause, skip, seek, ticks and keys.
    #[verifier::spinoff_prover]
    #[verifier::rlimit(60)]
    fn update_playback(&mut self, msg: Message, pick: usize) -> (r: Vec<Effect>)
        requires
            pick_ok(old(self)@, pick),
            msg_ok(old(self)@, msg),
            is_playback_msg(msg),
        ensures
            final(self)@ == step(old(self)@, msg, pick).0,
            r@ == step(old(self)@, msg, pick).1,
    {
        reveal(step);
        match msg {
            Message::PlayPause => self.play_pause(),
            Message::Prev => self.play_prev(),
            Message::Next => self.play_next_with(pick),
            Message::PlayIndex { playlist, track } => self.play_index(playlist, track),
            Message::SeekTo(ns) => {
                let mut r = Vec::new();
                if self.total_ns > 0 {
                    if self.engine_ready {
                        r.push(Effect::Seek(ns));
                    }
                    self.position_ns = ns;
                }
                r
            },
            Message::Tick { position_ns, finished } => {
                if self.is_playing && self.engine_ready {
                    self.position_ns = position_ns;
                    if finished {
                        return self.play_next_with(pick);
                    }
                }
                Vec::new()
            },
            Message::KeyPressed(key, mods) => self.key_pressed(key, mods, pick),
            _ => Vec::new(),
        }
    }

    /// Playlist messages: adding, clearing, creating, renaming, deleting and choosing playlists, and the name dialog.
    #[verifier::spinoff_prover]
    #[verifier::rlimit(60)]
    fn update_library(&mut self, msg: Message, pick: usize) -> (r: Vec<Effect>)
        requires
            pick_ok(old(self)@, pick),
            msg_ok(old(self)@, msg),
            is_library_msg(msg),
        ensures
            final(self)@ == step(old(self)@, msg, pick).0,
            r@ == step(old(self)@, msg, pick).1,
    {
        reveal(step);
        match msg {
            Message::FilesAdded(v) => {
                if v.len() > 0 {
                    self.add_tracks(v)
                } else {
                    Vec::new()
                }
            },
            Message::FolderAdded(v) => self.add_tracks(v),
            Message::ClearPlaylist => self.clear_playlist(),
            Message::NewPlaylist => {
                self.input_purpose = Some(InputPurpose::NewPlaylist);
                let mut name = String::from_str("Playlist ");
                push_decimal(&mut name, self.playlists.len() as u128 + 1);
                self.input_value = name;
                self.input_active = true;
                self.show_playlist_menu = false;
                Vec::new()
            },
            Message::RenamePlaylist => {
                self.input_purpose = Some(InputPurpose::RenamePlaylist);
                self.input_value = if self.active_playlist < self.playlists.len() {
                    self.playlists[self.active_playlist].name.clone()
                } else {
                    String::new()
                };
                self.input_active = true;
                self.show_playlist_menu = false;
                Vec::new()
            },
            Message::DeletePlaylist => self.delete_playlist(),
            Message::SelectPlaylist(i) => {
                self.active_playlist = i;
                self.current_track = None;
                self.show_playlist_menu = false;
                let mut r = Vec::new();
                self.stop_engine(&mut r);
                self.is_playing = false;
                r
            },
            Message::InputChanged(v) => {
                self.input_value = v;
                Vec::new()
            },
            Message::InputConfirm => self.confirm_input(),
            Message::InputCancel => {
                self.input_active = false;
                self.input_purpose = None;
                Vec::new()
            },
            _ => Vec::new(),
        }
    }

    /// Display messages: panels, menus, modes and the window.
    #[verifier::spinoff_prover]
    #[verifier::rlimit(60)]
    fn update_view(&mut self, msg: Message, pick: usize) -> (r: Vec<Effect>)
        requires
            pick_ok(old(self)@, pick),
            msg_ok(old(self)@, msg),
            is_view_msg(msg),
        ensures
            final(self)@ == step(old(self)@, msg, pick).0,
            r@ == step(old(self)@, msg, pick).1,
    {
        reveal(step);
        match msg {
            Message::TogglePlaylistPanel => {
                self.playlist_visible = !self.playlist_visible;
                self.show_menu = false;
                Vec::new()
            },
            Message::CycleRepeat => {
                self.repeat = match self.repeat {
                    RepeatMode::Off => RepeatMode::All,
                    RepeatMode::All => RepeatMode::One,
                    RepeatMode::One => RepeatMode::Off,
                };
                Vec::new()
            },
            Message::ToggleShuffle => {
                self.shuffle = !self.shuffle;
                Vec::new()
            },
            Message::ToggleMatchCoverArt => self.toggle_match_cover_art(),
            Message::ShowLyrics => {
                self.show_lyrics = true;
                Vec::new()
            },
            Message::HideLyrics => {
                self.show_lyrics = false;
                Vec::new()
            },
            Message::ShowMenu => {
                self.show_menu = true;
                Vec::new()
            },
            Message::HideMenu => {
                self.show_menu = false;
                Vec::new()
            },
            Message::ShowPlaylistMenu => {
                self.show_playlist_menu = true;
                Vec::new()
            },
            Message::HidePlaylistMenu => {
                self.show_playlist_menu = false;
                Vec::new()
            },
            Message::CloseWindow => {
                let mut r = Vec::new();
                r.push(Effect::Save);
                r.push(Effect::CloseWindow);
                r
            },
            Message::DragWindow => {
                let mut r = Vec::new();
                r.push(Effect::DragWindow);
                r
            },

            _ => Vec::new(),
        }
    }

    /// Answers `msg` with `pick` as the shuffle draw: updates the state and
    /// returns the effects to perform, in order.
    pub fn update_with_pick(&mut self, msg: Message, pick: usize) -> (r: Vec<Effect>)
        requires
            pick_ok(old(self)@, pick),
            msg_ok(old(self)@, msg),
        ensures
            final(self)@ == step(old(self)@, msg, pick).0,
            r@ == step(old(self)@, msg, pick).1,
    {
        match &msg {
            Message::PlayPause | Message::Prev | Message::Next | Message::PlayIndex { .. } | Message::SeekTo(..) | Message::Tick { .. } | Message::KeyPressed(..) => self.update_playback(msg, pick),
            Message::FilesAdded(..) | Message::FolderAdded(..) | Message::ClearPlaylist | Message::NewPlaylist | Message::RenamePlaylist | Message::DeletePlaylist | Message::SelectPlaylist(..) | Message::InputChanged(..) | Message::InputConfirm | Message::InputCancel => self.update_library(msg, pick),
            _ => self.update_view(msg, pick),
        }
    }

    /// Answers `msg`: updates the state and returns the effects to perform,
    /// in order. Moving on under shuffle draws the next track at random.
    pub fn update(&mut self, msg: Message) -> (r: Vec<Effect>)
        requires
            msg_ok(old(self)@, msg),
        ensures
            exists|pick: usize|
                pick_ok(old(self)@, pick) && final(self)@ == step(old(self)@, msg, pick).0 && r@
                    == step(old(self)@, msg, pick).1,
    {
        let len = self.active_tracks_len();
        let moves_on = match &msg {
            Message::Next => true,
            Message::Tick { finished, .. } => *finished && self.is_playing && self.engine_ready,
            Message::KeyPressed(Key::Named(NamedKey::ArrowRight), mods) => mods.empty,
            _ => false,
        };
        let pick = if len > 0 && self.shuffle && self.repeat != RepeatMode::One && moves_on {
            random_below(len)
        } else {
            0
        };
        let ghost s0 = self@;
        let ghost m0 = msg;
        let r = self.update_with_pick(msg, pick);
        assert(pick_ok(s0, pick) && self@ == step(s0, m0, pick).0 && r@ == step(s0, m0, pick).1);
        r
    }
}

/// The "time left" label of the playlist panel: whole minutes left from the
/// current position to the end of the active playlist, `N min remaining`
/// below an hour and `Hh Mm remaining` from an hour on; empty when no track
/// is chosen.
pub open spec fn remaining_label(s: AudiraView) -> Seq<char> {
    match s.current_track {
        Some(i) => if s.active_playlist < s.playlists.len() {
            let m = remaining_ns(s.playlists[s.active_playlist as int].tracks, i as int, s.position_ns as nat)
                / 1_000_000_000 / 60;
            if m < 60 {
                decimal(m) + " min remaining"@
            } else {
                decimal(m / 60) + "h "@ + decimal(m % 60) + "m remaining"@
            }
        } else {
            Seq::empty()
        },
        None => Seq::empty(),
    }
}

/// The time left from the current track on can be summed: the current
/// track lies in the active playlist or just past its end (then nothing is
/// left), but no further. It can lie further: making a new, empty playlist
/// while track `i >= 1` plays keeps `i` as the current track.
pub open spec fn current_in_range(s: AudiraView) -> bool {
    match s.current_track {
        Some(i) => s.active_playlist < s.playlists.len() ==> i <= s.playlists[s.active_playlist as int].tracks.len(),
        None => true,
    }
}

impl Audira {
    /// The text telling how much of the active playlist is left.
    pub fn remaining_text(&self) -> (r: String)
        requires
            current_in_range(self@),
        ensures
            r@ == remaining_label(self@),
    {
        match self.current_track {
            Some(idx) => {
                if self.active_playlist < self.playlists.len() {
                    let rem = self.playlists[self.active_playlist].remaining_duration(
                        idx,
                        self.position_ns,
                    );
                    let m = rem / 1_000_000_000 / 60;
                    let mut out = String::new();
                    if m < 60 {
                        push_decimal(&mut out, m);
                        out.append(" min remaining");
                    } else {
                        push_decimal(&mut out, m / 60);
                        out.append("h ");
                        push_decimal(&mut out, m % 60);
                        out.append("m remaining");
                    }
                    out
                } else {
                    String::new()
                }
            },
            None => String::new(),
        }
    }

    /// Whether the current track can be looked up in the active playlist.
    pub fn current_track_in_range(&self) -> (r: bool)
        ensures
            r == current_in_range(self@),
    {
        match self.current_track {
            Some(i) => !(self.active_playlist < self.playlists.len()) || i
                <= self.playlists[self.active_playlist].tracks.len(),
            None => true,
        }
    }

    /// The track being played, if it is one of the active playlist.
    pub fn now_playing(&self) -> (r: Option<&Track>)
        ensures
            match self.current_track {
                Some(i) => if self.active_playlist < self.playlists.len() && i
                    < self.playlists@[self.active_playlist as int].tracks.len() {
                    r == Some(&self.playlists@[self.active_playlist as int].tracks@[i as int])
                } else {
                    r is None
                },
                None => r is None,
            },
    {
        match self.current_track {
            Some(i) => {
                if self.active_playlist < self.playlists.len() && i
                    < self.playlists[self.active_playlist].tracks.len() {
                    Some(&self.playlists[self.active_playlist].tracks[i])
                } else {
                    None
                }
            },
            None => None,
        }
    }
}

// ── Laws ────────────────────────────────────────────────────────────────────

/// The state that the interface keeps: there is always a playlist, and the
/// active one exists.
pub open spec fn wf(s: AudiraView) -> bool {
    s.playlists.len() >= 1 && s.active_playlist < s.playlists.len()
}

/// Messages as the interface sends them: it only selects playlists that exist.
pub open spec fn ui_msg(s: AudiraView, msg: Message) -> bool {
    msg matches Message::SelectPlaylist(i) ==> i < s.playlists.len()
}

proof fn lemma_play_index_keeps(s: AudiraView, p: usize, t: usize)
    ensures
        play_index_spec(s, p, t).0.playlists == s.playlists,
        wf(s) ==> wf(play_index_spec(s, p, t).0),
{
}

proof fn lemma_play_next_keeps(s: AudiraView, pick: usize)
    ensures
        play_next_spec(s, pick).0.playlists == s.playlists,
        wf(s) ==> wf(play_next_spec(s, pick).0),
{
    let cur: usize = match s.current_track {
        Some(c) => c,
        None => 0,
    };
    lemma_play_index_keeps(s, s.active_playlist, cur);
    lemma_play_index_keeps(s, s.active_playlist, pick);
    lemma_play_index_keeps(s, s.active_playlist, 0);
    lemma_play_index_keeps(s, s.active_playlist, (cur + 1) as usize);
}

proof fn lemma_play_prev_keeps(s: AudiraView)
    ensures
        play_prev_spec(s).0.playlists == s.playlists,
        wf(s) ==> wf(play_prev_spec(s).0),
{
    let len = active_len(s);
    let cur: usize = match s.current_track {
        Some(c) => c,
        None => 0,
    };
    lemma_play_index_keeps(
        s,
        s.active_playlist,
        if cur == 0 {
            (len - 1) as usize
        } else {
            (cur - 1) as usize
        },
    );
}

proof fn lemma_play_pause_keeps(s: AudiraView)
    ensures
        play_pause_spec(s).0.playlists == s.playlists,
        wf(s) ==> wf(play_pause_spec(s).0),
{
    lemma_play_index_keeps(s, s.active_playlist, 0);
}

#[verifier::spinoff_prover]
#[verifier::rlimit(100)]
proof fn lemma_wf_playback(s: AudiraView, msg: Message, pick: usize)
    requires
        wf(s),
        is_playback_msg(msg),
    ensures
        wf(step(s, msg, pick).0),
{
    reveal(step);
    lemma_play_pause_keeps(s);
    lemma_play_prev_keeps(s);
    lemma_play_next_keeps(s, pick);
    match msg {
        Message::PlayIndex { playlist, track } => lemma_play_index_keeps(s, playlist, track),
        Message::Tick { position_ns, .. } => lemma_play_next_keeps(
            AudiraView { position_ns, ..s },
            pick,
        ),
        _ => {},
    }
}

#[verifier::spinoff_prover]
#[verifier::rlimit(100)]
proof fn lemma_wf_library(s: AudiraView, msg: Message, pick: usize)
    requires
        wf(s),
        ui_msg(s, msg),
        is_library_msg(msg),
    ensures
        wf(step(s, msg, pick).0),
{
    reveal(step);
    match msg {
        Message::FilesAdded(v) => {
            let s1 = with_tracks_added(s, tracks_view(v@));
            lemma_play_index_keeps(s1, s.active_playlist, active_len(s) as usize);
        },
        Message::FolderAdded(v) => {
            let s1 = with_tracks_added(s, tracks_view(v@));
            lemma_play_index_keeps(s1, s.active_playlist, active_len(s) as usize);
        },
        _ => {},
    }
}

#[verifier::spinoff_prover]
proof fn lemma_wf_view(s: AudiraView, msg: Message, pick: usize)
    requires
        wf(s),
        is_view_msg(msg),
    ensures
        wf(step(s, msg, pick).0),
{
    reveal(step);
}

/// Whatever the interface sends, the player keeps a playlist and an active
/// playlist that exists, and never asks for what would fail.
pub proof fn lemma_wf_preserved(s: AudiraView, msg: Message, pick: usize)
    requires
        wf(s),
        ui_msg(s, msg),
    ensures
        msg_ok(s, msg),
        wf(step(s, msg, pick).0),
{
    if is_playback_msg(msg) {
        lemma_wf_playback(s, msg, pick);
    } else if is_library_msg(msg) {
        lemma_wf_library(s, msg, pick);
    } else {
        lemma_wf_view(s, msg, pick);
    }
}

/// Every change to the playlists is saved: a step that changes them asks
/// for a save.
#[verifier::spinoff_prover]
#[verifier::rlimit(100)]
pub proof fn lemma_changes_saved(s: AudiraView, msg: Message, pick: usize)
    ensures
        step(s, msg, pick).0.playlists != s.playlists ==> step(s, msg, pick).1.contains(
            Effect::Save,
        ),
{
    reveal(step);
    lemma_play_pause_keeps(s);
    lemma_play_prev_keeps(s);
    lemma_play_next_keeps(s, pick);
    match msg {
        Message::PlayIndex { playlist, track } => lemma_play_index_keeps(s, playlist, track),
        Message::Tick { position_ns, .. } => lemma_play_next_keeps(
            AudiraView { position_ns, ..s },
            pick,
        ),
        Message::FilesAdded(v) => {
            let r = add_tracks_spec(s, tracks_view(v@));
            if v.len() > 0 {
                assert(r.1[r.1.len() - 1] == Effect::Save);
            }
        },
        Message::FolderAdded(v) => {
            let r = add_tracks_spec(s, tracks_view(v@));
            assert(r.1[r.1.len() - 1] == Effect::Save);
        },
        Message::ClearPlaylist => {
            let r = clear_spec(s);
            assert(r.1[r.1.len() - 1] == Effect::Save);
        },
        Message::DeletePlaylist => {
            let r = delete_spec(s);
            assert(r.1[r.1.len() - 1] == Effect::Save);
        },
        Message::InputConfirm => {
            let r = confirm_spec(s);
            if trim(s.input_value).len() > 0 {
                assert(r.1[0] == Effect::Save);
            }
        },
        _ => {},
    }
}

/// Pressing the repeat button three times comes back to the same state.
pub proof fn lemma_repeat_cycle(s: AudiraView, pick: usize)
    ensures
        step(step(step(s, Message::CycleRepeat, pick).0, Message::CycleRepeat, pick).0, Message::CycleRepeat, pick).0 == s,
{
    reveal(step);
    let s1 = step(s, Message::CycleRepeat, pick).0;
    let s2 = step(s1, Message::CycleRepeat, pick).0;
    let s3 = step(s2, Message::CycleRepeat, pick).0;
    assert(s3 =~= s);
}

/// Toggling shuffle twice comes back to the same state.
pub proof fn lemma_shuffle_toggle(s: AudiraView, pick: usize)
    ensures
        step(step(s, Message::ToggleShuffle, pick).0, Message::ToggleShuffle, pick).0 == s,
{
    reveal(step);
    assert(step(step(s, Message::ToggleShuffle, pick).0, Message::ToggleShuffle, pick).0 =~= s);
}

/// Under repeat-one, moving on plays the current track again from the start.
pub proof fn lemma_repeat_one_replays(s: AudiraView, pick: usize)
    requires
        s.repeat == RepeatMode::One,
        s.current_track == Some(s.current_track->0),
        s.current_track->0 < active_len(s),
    ensures
        play_next_spec(s, pick).0.current_track == s.current_track,
        play_next_spec(s, pick).0.position_ns == 0,
        play_next_spec(s, pick).1[0] == (Effect::StartTrack {
            playlist: s.active_playlist,
            track: s.current_track->0,
        }),
{
}

/// Under repeat-all and without shuffle, the last track is followed by the first.
pub proof fn lemma_repeat_all_wraps(s: AudiraView, pick: usize, last: usize)
    requires
        s.repeat == RepeatMode::All,
        !s.shuffle,
        last + 1 == active_len(s),
        s.current_track == Some(last),
    ensures
        play_next_spec(s, pick).0.current_track == Some(0usize),
{
}

/// Without repeat and without shuffle, nothing follows the last track.
pub proof fn lemma_no_repeat_stops(s: AudiraView, pick: usize, last: usize)
    requires
        s.repeat == RepeatMode::Off,
        !s.shuffle,
        last + 1 == active_len(s),
        s.current_track == Some(last),
    ensures
        play_next_spec(s, pick).0 == s,
        play_next_spec(s, pick).1.len() == 0,
{
}

/// Within its first three seconds, going back from the first track plays
/// the last one.
pub proof fn lemma_prev_wraps(s: AudiraView, last: usize)
    requires
        last + 1 == active_len(s),
        s.current_track == Some(0usize),
        s.position_ns <= 3_000_000_000,
    ensures
        play_prev_spec(s).0.current_track == Some(last),
{
}

/// Past its first three seconds, going back restarts the track.
pub proof fn lemma_prev_restarts(s: AudiraView)
    requires
        active_len(s) > 0,
        s.position_ns > 3_000_000_000,
    ensures
        play_prev_spec(s).0 == (AudiraView { position_ns: 0, ..s }),
{
}
/// Every colour change in `effects` is a reset exactly when the colours are
/// not to `follow` the cover art.
pub open spec fn themes_follow(effects: Seq<Effect>, follow: bool) -> bool {
    forall|k: int|
        0 <= k < effects.len() ==> match #[trigger] effects[k] {
            Effect::Theme(a) => (a is Reset) == !follow,
            _ => true,
        }
}

proof fn lemma_themes_follow_no_theme(e: Seq<Effect>, follow: bool)
    requires
        forall|k: int| 0 <= k < e.len() ==> !(#[trigger] e[k] is Theme),
    ensures
        themes_follow(e, follow),
{
    assert forall|k: int| 0 <= k < e.len() implies match #[trigger] e[k] {
        Effect::Theme(a) => (a is Reset) == !follow,
        _ => true,
    } by {
        assert(!(e[k] is Theme));
    }
}

proof fn lemma_themes_follow_push(e: Seq<Effect>, x: Effect, follow: bool)
    requires
        themes_follow(e, follow),
        !(x is Theme),
    ensures
        themes_follow(e.push(x), follow),
{
    assert forall|k: int| 0 <= k < e.push(x).len() implies match #[trigger] e.push(x)[k] {
        Effect::Theme(a) => (a is Reset) == !follow,
        _ => true,
    } by {
        if k < e.len() {
            assert(e.push(x)[k] == e[k]);
        }
    }
}

proof fn lemma_play_index_theme(s: AudiraView, p: usize, t: usize)
    ensures
        play_index_spec(s, p, t).0.match_cover_art == s.match_cover_art,
        themes_follow(play_index_spec(s, p, t).1, s.match_cover_art),
{
    let e = play_index_spec(s, p, t).1;
    assert forall|k: int| 0 <= k < e.len() implies match #[trigger] e[k] {
        Effect::Theme(a) => (a is Reset) == !s.match_cover_art,
        _ => true,
    } by {}
}

proof fn lemma_play_next_theme(s: AudiraView, pick: usize)
    ensures
        play_next_spec(s, pick).0.match_cover_art == s.match_cover_art,
        themes_follow(play_next_spec(s, pick).1, s.match_cover_art),
{
    let cur: usize = match s.current_track {
        Some(c) => c,
        None => 0,
    };
    lemma_play_index_theme(s, s.active_playlist, cur);
    lemma_play_index_theme(s, s.active_playlist, pick);
    lemma_play_index_theme(s, s.active_playlist, 0);
    lemma_play_index_theme(s, s.active_playlist, (cur + 1) as usize);
    lemma_themes_follow_no_theme(Seq::<Effect>::empty(), s.match_cover_art);
}

proof fn lemma_play_prev_theme(s: AudiraView)
    ensures
        play_prev_spec(s).0.match_cover_art == s.match_cover_art,
        themes_follow(play_prev_spec(s).1, s.match_cover_art),
{
    let len = active_len(s);
    let cur: usize = match s.current_track {
        Some(c) => c,
        None => 0,
    };
    lemma_play_index_theme(
        s,
        s.active_playlist,
        if cur == 0 {
            (len - 1) as usize
        } else {
            (cur - 1) as usize
        },
    );
    lemma_themes_follow_no_theme(Seq::<Effect>::empty(), s.match_cover_art);
    lemma_themes_follow_no_theme(seq![Effect::Seek(0)], s.match_cover_art);
}

proof fn lemma_play_pause_theme(s: AudiraView)
    ensures
        play_pause_spec(s).0.match_cover_art == s.match_cover_art,
        themes_follow(play_pause_spec(s).1, s.match_cover_art),
{
    lemma_play_index_theme(s, s.active_playlist, 0);
    lemma_themes_follow_no_theme(Seq::<Effect>::empty(), s.match_cover_art);
    lemma_themes_follow_no_theme(seq![Effect::Pause], s.match_cover_art);
    lemma_themes_follow_no_theme(seq![Effect::Resume], s.match_cover_art);
}

#[verifier::spinoff_prover]
#[verifier::rlimit(100)]
proof fn lemma_theme_playback(s: AudiraView, msg: Message, pick: usize)
    requires
        is_playback_msg(msg),
    ensures
        themes_follow(step(s, msg, pick).1, step(s, msg, pick).0.match_cover_art),
{
    reveal(step);
    lemma_play_pause_theme(s);
    lemma_play_prev_theme(s);
    lemma_play_next_theme(s, pick);
    lemma_themes_follow_no_theme(Seq::<Effect>::empty(), s.match_cover_art);
    lemma_themes_follow_no_theme(seq![Effect::Save, Effect::CloseWindow], s.match_cover_art);
    match msg {
        Message::PlayIndex { playlist, track } => lemma_play_index_theme(s, playlist, track),
        Message::SeekTo(ns) => lemma_themes_follow_no_theme(seq![Effect::Seek(ns)], s.match_cover_art),
        Message::Tick { position_ns, .. } => lemma_play_next_theme(AudiraView { position_ns, ..s }, pick),
        _ => {},
    }
}

#[verifier::spinoff_prover]
#[verifier::rlimit(100)]
proof fn lemma_theme_library(s: AudiraView, msg: Message, pick: usize)
    requires
        is_library_msg(msg),
    ensures
        themes_follow(step(s, msg, pick).1, step(s, msg, pick).0.match_cover_art),
{
    reveal(step);
    lemma_themes_follow_no_theme(Seq::<Effect>::empty(), s.match_cover_art);
    lemma_themes_follow_no_theme(stop_effects(s), s.match_cover_art);
    match msg {
        Message::FilesAdded(v) => {
            let s1 = with_tracks_added(s, tracks_view(v@));
            lemma_play_index_theme(s1, s.active_playlist, active_len(s) as usize);
            lemma_themes_follow_push(
                play_index_spec(s1, s.active_playlist, active_len(s) as usize).1,
                Effect::Save,
                s.match_cover_art,
            );
            lemma_themes_follow_push(Seq::<Effect>::empty(), Effect::Save, s.match_cover_art);
        },
        Message::FolderAdded(v) => {
            let s1 = with_tracks_added(s, tracks_view(v@));
            lemma_play_index_theme(s1, s.active_playlist, active_len(s) as usize);
            lemma_themes_follow_push(
                play_index_spec(s1, s.active_playlist, active_len(s) as usize).1,
                Effect::Save,
                s.match_cover_art,
            );
            lemma_themes_follow_push(Seq::<Effect>::empty(), Effect::Save, s.match_cover_art);
        },
        Message::ClearPlaylist => {
            lemma_themes_follow_no_theme(stop_effects(s) + seq![Effect::ResetVisuals, Effect::Save], s.match_cover_art);
        },
        Message::DeletePlaylist => {
            lemma_themes_follow_push(stop_effects(s), Effect::Save, s.match_cover_art);
        },
        Message::InputConfirm => {
            lemma_themes_follow_no_theme(seq![Effect::Save], s.match_cover_art);
        },
        _ => {},
    }
}

#[verifier::spinoff_prover]
proof fn lemma_theme_view(s: AudiraView, msg: Message, pick: usize)
    requires
        is_view_msg(msg),
    ensures
        themes_follow(step(s, msg, pick).1, step(s, msg, pick).0.match_cover_art),
{
    reveal(step);
    lemma_themes_follow_no_theme(Seq::<Effect>::empty(), s.match_cover_art);
    lemma_themes_follow_no_theme(seq![Effect::Save, Effect::CloseWindow], s.match_cover_art);
    lemma_themes_follow_no_theme(seq![Effect::DragWindow], s.match_cover_art);
    if msg is ToggleMatchCoverArt {
        let r = toggle_match_spec(s);
        assert forall|k: int| 0 <= k < r.1.len() implies match #[trigger] r.1[k] {
            Effect::Theme(a) => (a is Reset) == !r.0.match_cover_art,
            _ => true,
        } by {}
    }
}

/// The colours follow the setting: every colour change that a step asks
/// for is a reset to the neutral colours exactly when, after the step, the
/// colours do not follow the cover art. So once following is off, the
/// colours stay neutral whatever comes.
pub proof fn lemma_theme_follows_setting(s: AudiraView, msg: Message, pick: usize)
    ensures
        themes_follow(step(s, msg, pick).1, step(s, msg, pick).0.match_cover_art),
{
    if is_playback_msg(msg) {
        lemma_theme_playback(s, msg, pick);
    } else if is_library_msg(msg) {
        lemma_theme_library(s, msg, pick);
    } else {
        lemma_theme_view(s, msg, pick);
    }
}

/// Without repeat-one and without shuffle, moving on from track `c` of the
/// active playlist, when it is not the last, plays the following track
/// `c + 1` of the same playlist from its start.
pub proof fn lemma_next_plays_following(s: AudiraView, pick: usize, c: usize)
    requires
        s.repeat != RepeatMode::One,
        !s.shuffle,
        s.current_track == Some(c),
        c + 1 < active_len(s),
    ensures
        ({
            let (t, e) = play_next_spec(s, pick);
            &&& t.active_playlist == s.active_playlist
            &&& t.current_track == Some((c + 1) as usize)
            &&& t.position_ns == 0
            &&& t.is_playing
            &&& e.len() > 0
            &&& e[0] == (Effect::StartTrack { playlist: s.active_playlist, track: (c + 1) as usize })
        }),
        ({
            let (t, e) = step(s, Message::Next, pick);
            &&& t.active_playlist == s.active_playlist
            &&& t.current_track == Some((c + 1) as usize)
            &&& t.position_ns == 0
            &&& e.len() > 0
            &&& e[0] == (Effect::StartTrack { playlist: s.active_playlist, track: (c + 1) as usize })
        }),
{
    reveal(step);
}

/// Within the first three seconds of track `c > 0` of the active playlist,
/// going back plays the track before it, `c - 1`, from its start.
pub proof fn lemma_prev_plays_preceding(s: AudiraView, c: usize)
    requires
        s.current_track == Some(c),
        0 < c < active_len(s),
        s.position_ns <= 3_000_000_000,
    ensures
        ({
            let (t, e) = play_prev_spec(s);
            &&& t.active_playlist == s.active_playlist
            &&& t.current_track == Some((c - 1) as usize)
            &&& t.position_ns == 0
            &&& e.len() > 0
            &&& e[0] == (Effect::StartTrack { playlist: s.active_playlist, track: (c - 1) as usize })
        }),
        ({
            let (t, e) = step(s, Message::Prev, 0);
            &&& t.active_playlist == s.active_playlist
            &&& t.current_track == Some((c - 1) as usize)
            &&& t.position_ns == 0
            &&& e.len() > 0
            &&& e[0] == (Effect::StartTrack { playlist: s.active_playlist, track: (c - 1) as usize })
        }),
{
    reveal(step);
}

/// With several playlists, deleting removes exactly the active one: those
/// before it stay where they are, those after it move up by one, in order;
/// the playlist before it becomes active (the first, if it was the first),
/// playback stops and the change is saved.
pub proof fn lemma_delete_removes_active(s: AudiraView, pick: usize)
    requires
        s.playlists.len() > 1,
        s.active_playlist < s.playlists.len(),
    ensures
        ({
            let (t, e) = step(s, Message::DeletePlaylist, pick);
            let a = s.active_playlist as int;
            &&& t.playlists.len() == s.playlists.len() - 1
            &&& forall|i: int| 0 <= i < a ==> #[trigger] t.playlists[i] == s.playlists[i]
            &&& forall|i: int| a <= i < t.playlists.len() ==> #[trigger] t.playlists[i] == s.playlists[i + 1]
            &&& t.active_playlist == (if a > 0 { a - 1 } else { 0 })
            &&& t.current_track is None
            &&& !t.is_playing
            &&& e.contains(Effect::Save)
        }),
        ({
            let (t, e) = delete_spec(s);
            let a = s.active_playlist as int;
            &&& t.playlists.len() == s.playlists.len() - 1
            &&& forall|i: int| 0 <= i < a ==> #[trigger] t.playlists[i] == s.playlists[i]
            &&& forall|i: int| a <= i < t.playlists.len() ==> #[trigger] t.playlists[i] == s.playlists[i + 1]
        }),
{
    reveal(step);
    let r = delete_spec(s);
    assert(r.1[r.1.len() - 1] == Effect::Save);
}

/// The repeat button goes from off to all, from all to one, and from one
/// back to off.
pub proof fn lemma_repeat_order(s: AudiraView, pick: usize)
    ensures
        s.repeat == RepeatMode::Off ==> step(s, Message::CycleRepeat, pick).0.repeat == RepeatMode::All,
        s.repeat == RepeatMode::All ==> step(s, Message::CycleRepeat, pick).0.repeat == RepeatMode::One,
        s.repeat == RepeatMode::One ==> step(s, Message::CycleRepeat, pick).0.repeat == RepeatMode::Off,
        step(s, Message::CycleRepeat, pick).1.len() == 0,
{
    reveal(step);
}

/// Choosing track `t` of playlist `p` plays it from the start: it becomes
/// the current track of the now active playlist `p`, its length is the
/// total, and starting it is the first thing asked. A track that does not
/// exist changes nothing.
pub proof fn lemma_play_index_plays(s: AudiraView, p: usize, t: usize, pick: usize)
    ensures
        ({
            let (u, e) = step(s, Message::PlayIndex { playlist: p, track: t }, pick);
            if p < s.playlists.len() && t < s.playlists[p as int].tracks.len() {
                &&& u.active_playlist == p
                &&& u.current_track == Some(t)
                &&& u.position_ns == 0
                &&& u.total_ns == s.playlists[p as int].tracks[t as int].meta.duration_ns
                &&& u.is_playing
                &&& u.playlists == s.playlists
                &&& e.len() > 0
                &&& e[0] == (Effect::StartTrack { playlist: p, track: t })
            } else {
                u == s && e.len() == 0
            }
        }),
{
    reveal(step);
}

/// Play/pause: with nothing chosen in a non-empty playlist, its first track
/// plays; otherwise, with audio output, playing pauses and paused resumes.
pub proof fn lemma_play_pause_toggles(s: AudiraView, pick: usize)
    ensures
        ({
            let (u, e) = step(s, Message::PlayPause, pick);
            &&& (s.current_track is None && active_len(s) > 0 ==> u.current_track == Some(0usize)
                && u.is_playing && e[0] == (Effect::StartTrack { playlist: s.active_playlist, track: 0 }))
            &&& (s.current_track is Some && s.engine_ready ==> u.is_playing == !s.is_playing
                && e == (if s.is_playing { seq![Effect::Pause] } else { seq![Effect::Resume] }))
            &&& (s.current_track is Some && !s.engine_ready ==> u == s && e.len() == 0)
        }),
{
    reveal(step);
}

/// Seeking moves the position to the target and asks the engine for it,
/// once a track with a length is loaded; otherwise nothing happens.
pub proof fn lemma_seek_moves(s: AudiraView, target: u64, pick: usize)
    ensures
        ({
            let (u, e) = step(s, Message::SeekTo(target), pick);
            &&& (s.total_ns > 0 ==> u.position_ns == target && u.current_track == s.current_track
                && (s.engine_ready ==> e == seq![Effect::Seek(target)]))
            &&& (s.total_ns == 0 ==> u == s && e.len() == 0)
        }),
{
    reveal(step);
}

/// A tick while playing takes the position the engine reports; a tick
/// while paused or stopped changes nothing.
pub proof fn lemma_tick_takes_position(s: AudiraView, pos: u64, pick: usize)
    ensures
        s.is_playing && s.engine_ready ==> step(s, Message::Tick { position_ns: pos, finished: false }, pick).0
            == (AudiraView { position_ns: pos, ..s }),
        !(s.is_playing && s.engine_ready) ==> step(s, Message::Tick { position_ns: pos, finished: true }, pick)
            == (s, Seq::<Effect>::empty()),
{
    reveal(step);
}

/// Clearing empties the active playlist and keeps its name and every other
/// playlist; playback stops, nothing is current and the change is saved.
pub proof fn lemma_clear_empties_active(s: AudiraView, pick: usize)
    requires
        s.active_playlist < s.playlists.len(),
    ensures
        ({
            let (u, e) = step(s, Message::ClearPlaylist, pick);
            let a = s.active_playlist as int;
            &&& u.playlists.len() == s.playlists.len()
            &&& u.playlists[a].tracks.len() == 0
            &&& u.playlists[a].name == s.playlists[a].name
            &&& forall|i: int| 0 <= i < s.playlists.len() && i != a ==> #[trigger] u.playlists[i] == s.playlists[i]
            &&& u.current_track is None
            &&& !u.is_playing
            &&& u.position_ns == 0
            &&& e.contains(Effect::Save)
        }),
{
    reveal(step);
    let r = clear_spec(s);
    assert(r.1[r.1.len() - 1] == Effect::Save);
}

/// Selecting playlist `i` makes it active with nothing current and stops
/// playback; the playlists stay as they are.
pub proof fn lemma_select_switches(s: AudiraView, i: usize, pick: usize)
    ensures
        ({
            let (u, e) = step(s, Message::SelectPlaylist(i), pick);
            &&& u.active_playlist == i
            &&& u.current_track is None
            &&& !u.is_playing
            &&& u.playlists == s.playlists
            &&& (s.engine_ready ==> e == seq![Effect::Stop])
        }),
{
    reveal(step);
}

/// Adding files appends them, in order, to the active playlist, keeping
/// its tracks before them and every other playlist; when it was empty, the
/// first new file plays. The change is saved.
pub proof fn lemma_add_appends(s: AudiraView, v: Vec<crate::playlist::Track>, pick: usize)
    requires
        s.active_playlist < s.playlists.len(),
        v.len() > 0,
    ensures
        ({
            let (u, e) = step(s, Message::FilesAdded(v), pick);
            let a = s.active_playlist as int;
            let old_len = s.playlists[a].tracks.len();
            &&& u.playlists.len() == s.playlists.len()
            &&& u.playlists[a].name == s.playlists[a].name
            &&& u.playlists[a].tracks.len() == old_len + v.len()
            &&& forall|k: int| 0 <= k < old_len ==> #[trigger] u.playlists[a].tracks[k] == s.playlists[a].tracks[k]
            &&& forall|k: int| 0 <= k < v.len() ==> u.playlists[a].tracks[old_len + k] == #[trigger] v@[k]@
            &&& forall|i: int| 0 <= i < s.playlists.len() && i != a ==> #[trigger] u.playlists[i] == s.playlists[i]
            &&& (old_len == 0 ==> u.current_track == Some(0usize) && u.is_playing && e[0]
                == (Effect::StartTrack { playlist: s.active_playlist, track: 0 }))
            &&& (old_len > 0 ==> u.current_track == s.current_track)
            &&& e.last() == Effect::Save
        }),
{
    reveal(step);
    let a = s.active_playlist as int;
    let nv = crate::playlist::tracks_view(v@);
    let s1 = with_tracks_added(s, nv);
    assert(s1.playlists[a].tracks == s.playlists[a].tracks + nv);
    assert forall|k: int| 0 <= k < v.len() implies s1.playlists[a].tracks[s.playlists[a].tracks.len() + k]
        == #[trigger] v@[k]@ by {
        assert(nv[k] == v@[k]@);
    }
}

/// Making a playlist proposes the name `Playlist <n + 1>` for `n`
/// playlists; confirming a name that is not blank adds an empty playlist
/// with that name, trimmed, at the end, makes it active and saves.
pub proof fn lemma_new_playlist(s: AudiraView, pick: usize)
    ensures
        ({
            let u = step(s, Message::NewPlaylist, pick).0;
            &&& u.input_active
            &&& u.input_purpose == Some(InputPurpose::NewPlaylist)
            &&& u.input_value == "Playlist "@ + decimal(s.playlists.len() + 1)
            &&& u.playlists == s.playlists
        }),
        s.input_purpose == Some(InputPurpose::NewPlaylist) && trim(s.input_value).len() > 0
            && s.playlists.len() <= usize::MAX ==> ({
            let (u, e) = step(s, Message::InputConfirm, pick);
            &&& u.playlists.len() == s.playlists.len() + 1
            &&& forall|i: int| 0 <= i < s.playlists.len() ==> #[trigger] u.playlists[i] == s.playlists[i]
            &&& u.playlists.last().name == trim(s.input_value)
            &&& u.playlists.last().tracks.len() == 0
            &&& u.active_playlist == s.playlists.len()
            &&& !u.input_active
            &&& e == seq![Effect::Save]
        }),
        trim(s.input_value).len() == 0 ==> step(s, Message::InputConfirm, pick).0.playlists == s.playlists
            && step(s, Message::InputConfirm, pick).1.len() == 0,
{
    reveal(step);
    if s.input_purpose == Some(InputPurpose::NewPlaylist) && trim(s.input_value).len() > 0 {
        let added = PlaylistView { name: trim(s.input_value), tracks: Seq::empty() };
        let r = confirm_spec(s);
        assert(r.0.playlists == s.playlists.push(added));
        assert(r.0.playlists.last() == added);
        assert forall|i: int| 0 <= i < s.playlists.len() implies #[trigger] r.0.playlists[i] == s.playlists[i] by {
            assert(s.playlists.push(added)[i] == s.playlists[i]);
        }
    }
}

/// Renaming proposes the active playlist's name; confirming a name that is
/// not blank gives the active playlist that name, trimmed, keeping its
/// tracks and every other playlist, and saves.
pub proof fn lemma_rename_playlist(s: AudiraView, pick: usize)
    requires
        s.active_playlist < s.playlists.len(),
    ensures
        step(s, Message::RenamePlaylist, pick).0.input_value == s.playlists[s.active_playlist as int].name,
        step(s, Message::RenamePlaylist, pick).0.input_purpose == Some(InputPurpose::RenamePlaylist),
        s.input_purpose == Some(InputPurpose::RenamePlaylist) && trim(s.input_value).len() > 0 ==> ({
            let (u, e) = step(s, Message::InputConfirm, pick);
            let a = s.active_playlist as int;
            &&& u.playlists.len() == s.playlists.len()
            &&& u.playlists[a].name == trim(s.input_value)
            &&& u.playlists[a].tracks == s.playlists[a].tracks
            &&& forall|i: int| 0 <= i < s.playlists.len() && i != a ==> #[trigger] u.playlists[i] == s.playlists[i]
            &&& e == seq![Effect::Save]
        }),
{
    reveal(step);
}

/// The keyboard: Space plays or pauses, the arrows alone go back and
/// forward as the buttons do, and Command+Q saves and closes the window.
pub proof fn lemma_keys(s: AudiraView, mods: Modifiers, pick: usize)
    ensures
        step(s, Message::KeyPressed(Key::Named(NamedKey::Space), mods), pick) == step(s, Message::PlayPause, pick),
        mods.empty ==> step(s, Message::KeyPressed(Key::Named(NamedKey::ArrowLeft), mods), pick) == step(
            s,
            Message::Prev,
            pick,
        ),
        mods.empty ==> step(s, Message::KeyPressed(Key::Named(NamedKey::ArrowRight), mods), pick) == step(
            s,
            Message::Next,
            pick,
        ),
        !mods.empty ==> step(s, Message::KeyPressed(Key::Named(NamedKey::ArrowRight), mods), pick) == (
        s,
        Seq::<Effect>::empty(),
        ),
        step(s, Message::KeyPressed(Key::Named(NamedKey::Other), mods), pick) == (s, Seq::<Effect>::empty()),
{
    reveal(step);
}

/// Toggling whether the colours follow the cover art flips that setting
/// alone and asks for exactly one colour change.
pub proof fn lemma_toggle_match(s: AudiraView, pick: usize)
    ensures
        step(s, Message::ToggleMatchCoverArt, pick).0 == (AudiraView { match_cover_art: !s.match_cover_art, ..s }),
        step(s, Message::ToggleMatchCoverArt, pick).1.len() == 1,
        step(s, Message::ToggleMatchCoverArt, pick).1[0] is Theme,
{
    reveal(step);
}

/// A key that types a space plays or pauses; `q` with the command modifier
/// saves and closes the window, and without it does nothing.
pub proof fn lemma_character_keys(s: AudiraView, c: String, mods: Modifiers, pick: usize)
    ensures
        c@ == seq![' '] ==> step(s, Message::KeyPressed(Key::Character(c), mods), pick) == step(
            s,
            Message::PlayPause,
            pick,
        ),
        c@ == seq!['q'] && mods.command ==> step(s, Message::KeyPressed(Key::Character(c), mods), pick) == (
        s,
        seq![Effect::Save, Effect::CloseWindow],
        ),
        c@ == seq!['q'] && !mods.command ==> step(s, Message::KeyPressed(Key::Character(c), mods), pick) == (
        s,
        Seq::<Effect>::empty(),
        ),
{
    reveal(step);
    reveal_strlit(" ");
    reveal_strlit("q");
    assert(" "@ =~= seq![' ']);
    assert("q"@ =~= seq!['q']);
    if c@ == seq!['q'] {
        assert(c@[0] != " "@[0]);
        assert(c@ != " "@);
        assert(c@ == "q"@);
    }
}

} // verus!
