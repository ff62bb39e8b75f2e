//! Playlists, their tracks, and the form in which they are saved.

use vstd::prelude::*;
use vstd::string::StringExecFns;

use crate::metadata::{meta_from_tags, probed_tags, TrackMeta, TrackMetaView};
use crate::text::{chars_eq, chars_of};
use vstd::utf8::{decode_utf8, encode_utf8, valid_utf8};

verus! {

/// A file in a playlist with what its tags say.
#[derive(Debug, Clone)]
pub struct Track {
    /// The file's path, as the operating system's bytes for it
    /// (`OsStr::as_encoded_bytes`): UTF-8 where the path is valid text.
    pub path: Vec<u8>,
    pub meta: TrackMeta,
}

pub struct TrackView {
    pub path: Seq<u8>,
    pub meta: TrackMetaView,
}

impl View for Track {
    type V = TrackView;

    open spec fn view(&self) -> TrackView {
        TrackView { path: self.path@, meta: self.meta@ }
    }
}

impl Track {
    /// The track for the file at `path`, whose tags gave `meta`.
    pub fn new(path: Vec<u8>, meta: TrackMeta) -> (t: Track)
        ensures
            t.path@ == path@,
            t.meta == meta,
    {
        Track { path, meta }
    }

    /// The track for the file at `path`, whose name has stem `stem` (`None`
    /// where it has none) and extension `ext` (empty where it has none),
    /// given the file's content (`None` where it could not be read): its
    /// metadata as [`TrackMeta::load`] reads it.
    pub fn load(path: Vec<u8>, stem: Option<String>, ext: &str, bytes: Option<&[u8]>) -> (t: Track)
        ensures
            t.path@ == path@,
            t.meta@ == meta_from_tags(
                stem.deep_view(),
                match bytes {
                    Some(b) => probed_tags(ext@, b@),
                    None => None,
                },
            ),
    {
        let meta = TrackMeta::load(stem, ext, bytes);
        Track { path, meta }
    }
}

/// A playlist as it is saved: its name and the paths of its tracks.
#[derive(Debug, Clone)]
pub struct SavedPlaylist {
    pub name: String,
    pub tracks: Vec<String>,
}

pub struct SavedPlaylistView {
    pub name: Seq<char>,
    pub tracks: Seq<Seq<char>>,
}

impl View for SavedPlaylist {
    type V = SavedPlaylistView;

    open spec fn view(&self) -> SavedPlaylistView {
        SavedPlaylistView { name: self.name@, tracks: self.tracks.deep_view() }
    }
}

/// A named, ordered list of tracks.
#[derive(Debug, Clone)]
pub struct Playlist {
    pub name: String,
    pub tracks: Vec<Track>,
}

pub struct PlaylistView {
    pub name: Seq<char>,
    pub tracks: Seq<TrackView>,
}

pub open spec fn tracks_view(tracks: Seq<Track>) -> Seq<TrackView> {
    tracks.map_values(|t: Track| t@)
}

impl View for Playlist {
    type V = PlaylistView;

    open spec fn view(&self) -> PlaylistView {
        PlaylistView { name: self.name@, tracks: tracks_view(self.tracks@) }
    }
}

pub open spec fn playlists_view(playlists: Seq<Playlist>) -> Seq<PlaylistView> {
    playlists.map_values(|p: Playlist| p@)
}

/// Sum of the lengths of `tracks`, in nanoseconds.
pub open spec fn total_ns(tracks: Seq<TrackView>) -> nat
    decreases tracks.len(),
{
    if tracks.len() == 0 {
        0
    } else {
        total_ns(tracks.drop_last()) + (tracks.last().meta.duration_ns as nat)
    }
}

/// What std's `String::from_utf8_lossy` makes of `bytes`: their text, with
/// each sequence that is not UTF-8 replaced by U+FFFD.
pub uninterp spec fn utf8_lossy(bytes: Seq<u8>) -> Seq<char>;

/// The text of a path's bytes (std's `String::from_utf8_lossy`, which is
/// what `OsStr::to_string_lossy` does with them). Claimed: the result is the
/// one named by [`utf8_lossy`], and it is the decoded text where the bytes
/// are valid UTF-8, as std documents.
#[verifier::external_body]
fn lossy_text(bytes: &[u8]) -> (r: String)
    ensures
        r@ == utf8_lossy(bytes@),
        valid_utf8(bytes@) ==> r@ == decode_utf8(bytes@),
{
    String::from_utf8_lossy(bytes).into_owned()
}

/// The paths of `tracks` as text, the way they are saved.
pub open spec fn paths_of(tracks: Seq<TrackView>) -> Seq<Seq<char>> {
    tracks.map_values(|t: TrackView| utf8_lossy(t.path))
}

/// The paths of `tracks`, as bytes.
pub open spec fn path_bytes_of(tracks: Seq<TrackView>) -> Seq<Seq<u8>> {
    tracks.map_values(|t: TrackView| t.path)
}

/// The tracks that were loaded, in order.
pub open spec fn loaded_tracks(loaded: Seq<Option<Track>>) -> Seq<TrackView>
    decreases loaded.len(),
{
    if loaded.len() == 0 {
        Seq::empty()
    } else {
        let rest = loaded_tracks(loaded.drop_last());
        match loaded.last() {
            Some(t) => rest.push(t@),
            None => rest,
        }
    }
}

/// ASCII lowercase of one character.
pub open spec fn ascii_lower(c: char) -> char {
    if 'A' <= c && c <= 'Z' {
        ((c as u32) + 32) as char
    } else {
        c
    }
}

/// The file extensions that are taken for audio, in lowercase.
pub open spec fn audio_extensions() -> Seq<Seq<char>> {
    seq!["mp3"@, "flac"@, "ogg"@, "wav"@, "m4a"@, "aac"@, "wma"@, "opus"@]
}

/// ASCII lowercase of a text.
pub open spec fn lowercase(s: Seq<char>) -> Seq<char> {
    s.map_values(|c: char| ascii_lower(c))
}

/// An extension names an audio file, whatever its case.
pub open spec fn is_audio_ext(ext: Seq<char>) -> bool {
    audio_extensions().contains(lowercase(ext))
}

fn lower(c: char) -> (r: char)
    ensures
        r == ascii_lower(c),
{
    if 'A' <= c && c <= 'Z' {
        let u: u32 = (c as u32) + 32;
        let b: u8 = u as u8;
        b as char
    } else {
        c
    }
}

/// Whether a file with extension `ext` is taken into a playlist when a
/// folder is added (`mp3`, `flac`, `ogg`, `wav`, `m4a`, `aac`, `wma`, `opus`,
/// in any case).
pub fn is_audio_extension(ext: &str) -> (r: bool)
    ensures
        r == is_audio_ext(ext@),
{
    let v = chars_of(ext);
    audio_ext_chars(&v)
}

/// Whether the extension whose characters are `v` names an audio file.
pub(crate) fn audio_ext_chars(v: &Vec<char>) -> (r: bool)
    ensures
        r == is_audio_ext(v@),
{
    let mut low: Vec<char> = Vec::new();
    let mut i: usize = 0;
    while i < v.len()
        invariant
            i <= v.len(),
            low@ == lowercase(v@.take(i as int)),
        decreases v.len() - i,
    {
        let c = lower(v[i]);
        low.push(c);
        i = i + 1;
        assert(low@ =~= lowercase(v@.take(i as int)));
    }
    assert(v@.take(v.len() as int) =~= v@);
    let ghost key = lowercase(v@);
    assert(low@ == key);
    let names: [&str; 8] = ["mp3", "flac", "ogg", "wav", "m4a", "aac", "wma", "opus"];
    assert forall|j: int| 0 <= j < 8 implies names@[j]@ == audio_extensions()[j] by {
        assert(names@ == seq!["mp3", "flac", "ogg", "wav", "m4a", "aac", "wma", "opus"]);
    }
    let mut k: usize = 0;
    while k < 8
        invariant
            k <= 8,
            low@ == key,
            key == lowercase(v@),
            forall|j: int| 0 <= j < 8 ==> names@[j]@ == audio_extensions()[j],
            forall|j: int| 0 <= j < k ==> audio_extensions()[j] != key,
        decreases 8 - k,
    {
        let name = chars_of(names[k]);
        if chars_eq(&low, &name) {
            assert(audio_extensions()[k as int] == key);
            return true;
        }
        k = k + 1;
    }
    assert(!audio_extensions().contains(key));
    false
}


/// What is left to play from track `from` on, once `pos_ns` of it has played
/// (nothing if more than that has played).
pub open spec fn remaining_ns(tracks: Seq<TrackView>, from: int, pos_ns: nat) -> nat {
    let total = total_ns(tracks.skip(from));
    if total > pos_ns {
        (total - pos_ns) as nat
    } else {
        0
    }
}

proof fn lemma_tracks_view_push(v: Seq<Track>, t: Track)
    ensures
        tracks_view(v.push(t)) == tracks_view(v).push(t@),
{
    assert(tracks_view(v.push(t)) =~= tracks_view(v).push(t@));
}

/// The sum of the lengths of the tracks `from..to` of `v`, in nanoseconds.
fn sum_durations(v: &Vec<Track>, from: usize) -> (r: u128)
    requires
        from <= v.len(),
    ensures
        r == total_ns(tracks_view(v@).subrange(from as int, v@.len() as int)),
{
    let mut acc: u128 = 0;
    let mut i = from;
    let ghost tv = tracks_view(v@);
    assert(tv.subrange(from as int, from as int) =~= Seq::<TrackView>::empty());
    while i < v.len()
        invariant
            from <= i <= v.len(),
            tv == tracks_view(v@),
            acc == total_ns(tv.subrange(from as int, i as int)),
            acc <= (i - from) * 0xffff_ffff_ffff_ffff,
        decreases v.len() - i,
    {
        assert(tv.subrange(from as int, i + 1).drop_last() =~= tv.subrange(from as int, i as int));
        let d = v[i].meta.duration_ns;
        let ghost k: int = (i - from) as int;
        assert(k * 0xffff_ffff_ffff_ffff + 0xffff_ffff_ffff_ffff == (k + 1) * 0xffff_ffff_ffff_ffff)
            by (nonlinear_arith);
        assert((k + 1) * 0xffff_ffff_ffff_ffff <= 0x1_0000_0000_0000_0000 * 0xffff_ffff_ffff_ffff)
            by (nonlinear_arith)
            requires
                k + 1 <= 0x1_0000_0000_0000_0000,
        ;
        acc = acc + d as u128;
        i = i + 1;
    }
    acc
}

impl Playlist {
    /// An empty playlist called `name`.
    pub fn new(name: &str) -> (p: Playlist)
        ensures
            p@.name == name@,
            p@.tracks == Seq::<TrackView>::empty(),
    {
        let p = Playlist { name: String::from_str(name), tracks: Vec::new() };
        assert(p@.tracks =~= Seq::<TrackView>::empty());
        p
    }

    /// Appends a track.
    pub fn add_file(&mut self, track: Track)
        ensures
            final(self)@.name == old(self)@.name,
            final(self)@.tracks == old(self)@.tracks.push(track@),
    {
        proof {
            lemma_tracks_view_push(self.tracks@, track);
        }
        self.tracks.push(track);
    }

    /// Appends the tracks found in a folder, in the order given.
    pub fn add_dir(&mut self, tracks: Vec<Track>)
        ensures
            final(self)@.name == old(self)@.name,
            final(self)@.tracks == old(self)@.tracks + tracks_view(tracks@),
    {
        let mut more = tracks;
        self.tracks.append(&mut more);
        assert(tracks_view(self.tracks@) =~= old(self)@.tracks + tracks_view(tracks@));
    }

    /// The length of the whole playlist, in nanoseconds.
    pub fn total_duration(&self) -> (r: u128)
        ensures
            r == total_ns(self@.tracks),
    {
        assert(self@.tracks.subrange(0, self@.tracks.len() as int) =~= self@.tracks);
        sum_durations(&self.tracks, 0)
    }

    /// What is left to play from track `from_index` on, once `pos_ns` of it
    /// has played, in nanoseconds (0 once more than that has played).
    pub fn remaining_duration(&self, from_index: usize, pos_ns: u64) -> (r: u128)
        requires
            from_index <= self.tracks.len(),
        ensures
            r == remaining_ns(self@.tracks, from_index as int, pos_ns as nat),
    {
        assert(self@.tracks.skip(from_index as int) =~= self@.tracks.subrange(
            from_index as int,
            self@.tracks.len() as int,
        ));
        let total = sum_durations(&self.tracks, from_index);
        if total > pos_ns as u128 {
            total - pos_ns as u128
        } else {
            0
        }
    }

    /// The playlist as it is saved: its name and the paths of its tracks.
    pub fn to_saved(&self) -> (s: SavedPlaylist)
        ensures
            s@.name == self@.name,
            s@.tracks == paths_of(self@.tracks),
            forall|j: int|
                0 <= j < self@.tracks.len() && valid_utf8(#[trigger] self@.tracks[j].path) ==> s@.tracks[j]
                    == decode_utf8(self@.tracks[j].path),
    {
        let mut paths: Vec<String> = Vec::new();
        let mut i: usize = 0;
        while i < self.tracks.len()
            invariant
                i <= self.tracks.len(),
                paths.len() == i,
                forall|j: int| 0 <= j < i ==> #[trigger] paths@[j]@ == utf8_lossy(self.tracks@[j].path@),
                forall|j: int|
                    0 <= j < i && valid_utf8(self.tracks@[j].path@) ==> #[trigger] paths@[j]@ == decode_utf8(
                        self.tracks@[j].path@,
                    ),
            decreases self.tracks.len() - i,
        {
            paths.push(lossy_text(self.tracks[i].path.as_slice()));
            i = i + 1;
        }
        let s = SavedPlaylist { name: self.name.clone(), tracks: paths };
        assert(s@.tracks =~= paths_of(self@.tracks));
        s
    }

    /// The playlist saved as `saved`, given for each of its paths the track
    /// loaded from it, or `None` where the file no longer exists: those are
    /// left out.
    pub fn from_saved(saved: &SavedPlaylist, loaded: Vec<Option<Track>>) -> (p: Playlist)
        ensures
            p@.name == saved@.name,
            p@.tracks == loaded_tracks(loaded@),
    {
        let mut p = Playlist::new(saved.name.as_str());
        let mut rest = loaded;
        let ghost all = rest@;
        // walk the loaded tracks in order
        let mut reversed: Vec<Option<Track>> = Vec::new();
        while rest.len() > 0
            invariant
                reversed@.len() + rest@.len() == all.len(),
                rest@ == all.take(rest@.len() as int),
                forall|j: int|
                    0 <= j < reversed@.len() ==> #[trigger] reversed@[j] == all[all.len() - 1 - j],
            decreases rest.len(),
        {
            let x = rest.pop().unwrap();
            reversed.push(x);
            assert(rest@ =~= all.take(rest@.len() as int));
        }
        let ghost n = all.len();
        while reversed.len() > 0
            invariant
                reversed@.len() <= n,
                n == all.len(),
                forall|j: int|
                    0 <= j < reversed@.len() ==> #[trigger] reversed@[j] == all[n - 1 - j],
                p@.name == saved@.name,
                p@.tracks == loaded_tracks(all.take(n - reversed@.len())),
            decreases reversed.len(),
        {
            let ghost k: int = n - reversed@.len();
            let x = reversed.pop().unwrap();
            assert(x == all[k]);
            assert(all.take(k + 1).drop_last() =~= all.take(k));
            match x {
                Some(t) => {
                    p.add_file(t);
                },
                None => {},
            }
        }
        assert(all.take(n as int) =~= all);
        p
    }
}


/// Loading a saved playlist back, with every file still there and opened
/// by its saved text, gives tracks whose paths are those texts' bytes, in
/// the same order.
pub proof fn lemma_saved_roundtrip(saved: SavedPlaylistView, loaded: Seq<Option<Track>>)
    requires
        loaded.len() == saved.tracks.len(),
        forall|i: int|
            0 <= i < loaded.len() ==> (#[trigger] loaded[i]) is Some && loaded[i]->0.path@
                == encode_utf8(saved.tracks[i]),
    ensures
        path_bytes_of(loaded_tracks(loaded)) == saved.tracks.map_values(|t: Seq<char>| encode_utf8(t)),
    decreases loaded.len(),
{
    if loaded.len() > 0 {
        let shorter = SavedPlaylistView { name: saved.name, tracks: saved.tracks.drop_last() };
        assert forall|i: int|
            0 <= i < loaded.drop_last().len() implies (#[trigger] loaded.drop_last()[i]) is Some
            && loaded.drop_last()[i]->0.path@ == encode_utf8(shorter.tracks[i]) by {
            assert(loaded.drop_last()[i] == loaded[i]);
        }
        lemma_saved_roundtrip(shorter, loaded.drop_last());
        assert(loaded[loaded.len() - 1] is Some);
        let t = loaded.last()->0;
        let prev = loaded_tracks(loaded.drop_last());
        assert(loaded_tracks(loaded) == prev.push(t@));
        assert(path_bytes_of(prev.push(t@)) =~= path_bytes_of(prev).push(t.path@));
        assert(saved.tracks.map_values(|t: Seq<char>| encode_utf8(t)) =~= shorter.tracks.map_values(
            |t: Seq<char>| encode_utf8(t),
        ).push(encode_utf8(saved.tracks.last())));
    } else {
        assert(path_bytes_of(loaded_tracks(loaded)) =~= saved.tracks.map_values(
            |t: Seq<char>| encode_utf8(t),
        ));
    }
}

/// The saved form of every playlist, in order.
pub fn saved_playlists(playlists: &Vec<Playlist>) -> (r: Vec<SavedPlaylist>)
    ensures
        r.len() == playlists.len(),
        forall|i: int|
            0 <= i < r.len() ==> (#[trigger] r@[i])@.name == playlists@[i]@.name && r@[i]@.tracks
                == paths_of(playlists@[i]@.tracks),
{
    let mut r: Vec<SavedPlaylist> = Vec::new();
    let mut i: usize = 0;
    while i < playlists.len()
        invariant
            i <= playlists.len(),
            r.len() == i,
            forall|j: int|
                0 <= j < i ==> (#[trigger] r@[j])@.name == playlists@[j]@.name && r@[j]@.tracks
                    == paths_of(playlists@[j]@.tracks),
        decreases playlists.len() - i,
    {
        r.push(playlists[i].to_saved());
        i = i + 1;
    }
    r
}

/// The playlists saved as `saved`, given for each of them the tracks loaded
/// from its paths (`None` where a file no longer exists), in order.
pub fn playlists_from_saved(saved: &Vec<SavedPlaylist>, loaded: Vec<Vec<Option<Track>>>) -> (r: Vec<Playlist>)
    requires
        loaded.len() == saved.len(),
    ensures
        r.len() == saved.len(),
        forall|i: int|
            0 <= i < r.len() ==> (#[trigger] r@[i])@.name == saved@[i]@.name && r@[i]@.tracks
                == loaded_tracks(loaded@[i]@),
{
    let ghost all = loaded@;
    let mut rest = loaded;
    let mut rev: Vec<Playlist> = Vec::new();
    let mut i: usize = saved.len();
    while i > 0
        invariant
            i <= saved.len(),
            rest@ == all.take(i as int),
            all.len() == saved.len(),
            rev.len() == saved.len() - i,
            forall|k: int|
                0 <= k < rev.len() ==> (#[trigger] rev@[k])@.name == saved@[saved.len() - 1 - k]@.name
                    && rev@[k]@.tracks == loaded_tracks(all[saved.len() - 1 - k]@),
        decreases i,
    {
        let tracks = rest.pop().unwrap();
        assert(tracks == all[i - 1]);
        assert(rest@ =~= all.take(i - 1));
        rev.push(Playlist::from_saved(&saved[i - 1], tracks));
        i = i - 1;
    }
    let mut r: Vec<Playlist> = Vec::new();
    while rev.len() > 0
        invariant
            rev.len() + r.len() == saved.len(),
            forall|k: int|
                0 <= k < rev.len() ==> (#[trigger] rev@[k])@.name == saved@[saved.len() - 1 - k]@.name
                    && rev@[k]@.tracks == loaded_tracks(all[saved.len() - 1 - k]@),
            forall|k: int|
                0 <= k < r.len() ==> (#[trigger] r@[k])@.name == saved@[k]@.name && r@[k]@.tracks
                    == loaded_tracks(all[k]@),
        decreases rev.len(),
    {
        let p = rev.pop().unwrap();
        r.push(p);
    }
    r
}

/// Saving playlists and loading them back, with every file still there,
/// gives each playlist its tracks in the same order, and every path that is
/// valid UTF-8 comes back as the very same bytes. `saved[i]` holds the
/// texts that saving gave for the paths of `ps[i]` (as
/// [`Playlist::to_saved`] states them), and `loaded[i]` the tracks loaded
/// from those texts.
pub proof fn lemma_load_after_save(
    ps: Seq<PlaylistView>,
    saved: Seq<Seq<Seq<char>>>,
    loaded: Seq<Seq<Option<Track>>>,
)
    requires
        saved.len() == ps.len(),
        loaded.len() == ps.len(),
        forall|i: int|
            0 <= i < ps.len() ==> (#[trigger] saved[i]).len() == ps[i].tracks.len() && forall|j: int|
                0 <= j < saved[i].len() && valid_utf8(#[trigger] ps[i].tracks[j].path) ==> saved[i][j]
                    == decode_utf8(ps[i].tracks[j].path),
        forall|i: int|
            0 <= i < ps.len() ==> (#[trigger] loaded[i]).len() == saved[i].len() && forall|j: int|
                0 <= j < loaded[i].len() ==> (#[trigger] loaded[i][j]) is Some && loaded[i][j]->0.path@
                    == encode_utf8(saved[i][j]),
    ensures
        forall|i: int|
            0 <= i < ps.len() ==> (#[trigger] path_bytes_of(loaded_tracks(loaded[i]))).len()
                == ps[i].tracks.len(),
        forall|i: int, j: int|
            0 <= i < ps.len() && 0 <= j < ps[i].tracks.len() && valid_utf8(ps[i].tracks[j].path)
                ==> #[trigger] path_bytes_of(loaded_tracks(loaded[i]))[j] == ps[i].tracks[j].path,
{
    broadcast use vstd::utf8::decode_utf8_encode_utf8;

    assert forall|i: int| 0 <= i < ps.len() implies (#[trigger] path_bytes_of(
        loaded_tracks(loaded[i]),
    )).len() == ps[i].tracks.len() && forall|j: int|
        0 <= j < ps[i].tracks.len() && valid_utf8(ps[i].tracks[j].path) ==> #[trigger] path_bytes_of(
            loaded_tracks(loaded[i]),
        )[j] == ps[i].tracks[j].path by {
        let sv = SavedPlaylistView { name: ps[i].name, tracks: saved[i] };
        assert forall|j: int| 0 <= j < loaded[i].len() implies (#[trigger] loaded[i][j]) is Some
            && loaded[i][j]->0.path@ == encode_utf8(sv.tracks[j]) by {}
        lemma_saved_roundtrip(sv, loaded[i]);
        assert forall|j: int|
            0 <= j < ps[i].tracks.len() && valid_utf8(ps[i].tracks[j].path) implies #[trigger] path_bytes_of(
            loaded_tracks(loaded[i]),
        )[j] == ps[i].tracks[j].path by {
            assert(saved[i][j] == decode_utf8(ps[i].tracks[j].path));
            assert(encode_utf8(decode_utf8(ps[i].tracks[j].path)) == ps[i].tracks[j].path);
        }
    }
}

/// The name of the playlist that stands in when none could be loaded.
pub open spec fn default_playlist_name() -> Seq<char> {
    "Playlist"@
}

/// The playlists to start with: those loaded, or a single empty playlist
/// called `Playlist` when none could be read or none were saved.
pub fn playlists_or_default(loaded: Option<Vec<Playlist>>) -> (r: Vec<Playlist>)
    ensures
        r.len() >= 1,
        match loaded {
            Some(v) if v.len() > 0 => r@ == v@,
            _ => r.len() == 1 && r@[0]@.name == default_playlist_name() && r@[0]@.tracks.len()
                == 0,
        },
{
    match loaded {
        Some(v) => {
            if v.len() > 0 {
                return v;
            }
        },
        None => {},
    }
    let mut r: Vec<Playlist> = Vec::new();
    r.push(Playlist::new("Playlist"));
    r
}

/// Lengths add up: the total of two runs of tracks, one after the other,
/// is the sum of their totals; one track's total is its length.
pub proof fn lemma_total_additive(a: Seq<TrackView>, b: Seq<TrackView>)
    ensures
        total_ns(a + b) == total_ns(a) + total_ns(b),
        b.len() == 1 ==> total_ns(b) == b[0].meta.duration_ns,
    decreases b.len(),
{
    if b.len() > 0 {
        lemma_total_additive(a, b.drop_last());
        assert((a + b).drop_last() =~= a + b.drop_last());
        assert((a + b).last() == b.last());
    } else {
        assert(a + b =~= a);
    }
    if b.len() == 1 {
        assert(b.drop_last() =~= Seq::<TrackView>::empty());
    }
}

/// What is left from track `from` on, once `pos` of it has played, and
/// `pos` together make up the tracks from `from` on; nothing is left once
/// `pos` reaches their total.
pub proof fn lemma_remaining_left(tracks: Seq<TrackView>, from: int, pos: nat)
    ensures
        pos <= total_ns(tracks.skip(from)) ==> remaining_ns(tracks, from, pos) + pos == total_ns(tracks.skip(from)),
        pos >= total_ns(tracks.skip(from)) ==> remaining_ns(tracks, from, pos) == 0,
{
}

/// Character `c` is `w`, or the uppercase form of `w` where `w` is a
/// lowercase ASCII letter.
pub open spec fn same_letter(c: char, w: char) -> bool {
    c == w || ('a' <= w && w <= 'z' && (c as u32) + 32 == (w as u32))
}

/// `e` spells `w`, whatever the case of its ASCII letters.
pub open spec fn same_word(e: Seq<char>, w: Seq<char>) -> bool {
    e.len() == w.len() && forall|i: int| 0 <= i < e.len() ==> same_letter(#[trigger] e[i], w[i])
}

proof fn lemma_word(e: Seq<char>, w: Seq<char>)
    requires
        forall|i: int| 0 <= i < w.len() ==> ('a' <= #[trigger] w[i] && w[i] <= 'z') || ('0' <= w[i] && w[i] <= '9'),
    ensures
        (lowercase(e) == w) <==> same_word(e, w),
{
    if lowercase(e) == w {
        assert forall|i: int| 0 <= i < e.len() implies same_letter(#[trigger] e[i], w[i]) by {
            assert(lowercase(e)[i] == ascii_lower(e[i]));
        }
    }
    if same_word(e, w) {
        assert forall|i: int| 0 <= i < e.len() implies #[trigger] lowercase(e)[i] == w[i] by {
            assert(same_letter(e[i], w[i]));
        }
        assert(lowercase(e) =~= w);
    }
}

/// Exactly eight formats count as audio, whatever the case of the
/// extension: mp3, flac, ogg, wav, m4a, aac, wma and opus.
pub proof fn lemma_audio_exts(e: Seq<char>)
    ensures
        is_audio_ext(e) <==> {
            ||| same_word(e, seq!['m', 'p', '3'])
            ||| same_word(e, seq!['f', 'l', 'a', 'c'])
            ||| same_word(e, seq!['o', 'g', 'g'])
            ||| same_word(e, seq!['w', 'a', 'v'])
            ||| same_word(e, seq!['m', '4', 'a'])
            ||| same_word(e, seq!['a', 'a', 'c'])
            ||| same_word(e, seq!['w', 'm', 'a'])
            ||| same_word(e, seq!['o', 'p', 'u', 's'])
        },
{
    reveal_strlit("mp3");
    reveal_strlit("flac");
    reveal_strlit("ogg");
    reveal_strlit("wav");
    reveal_strlit("m4a");
    reveal_strlit("aac");
    reveal_strlit("wma");
    reveal_strlit("opus");
    let ws = audio_extensions();
    assert(ws[0] =~= seq!['m', 'p', '3']);
    assert(ws[1] =~= seq!['f', 'l', 'a', 'c']);
    assert(ws[2] =~= seq!['o', 'g', 'g']);
    assert(ws[3] =~= seq!['w', 'a', 'v']);
    assert(ws[4] =~= seq!['m', '4', 'a']);
    assert(ws[5] =~= seq!['a', 'a', 'c']);
    assert(ws[6] =~= seq!['w', 'm', 'a']);
    assert(ws[7] =~= seq!['o', 'p', 'u', 's']);
    assert forall|k: int| 0 <= k < 8 implies (lowercase(e) == #[trigger] ws[k]) <==> same_word(e, ws[k]) by {
        lemma_word(e, ws[k]);
    }
    if is_audio_ext(e) {
        let k = choose|k: int| 0 <= k < ws.len() && ws[k] == lowercase(e);
        assert((lowercase(e) == ws[k]) <==> same_word(e, ws[k]));
    }
    if same_word(e, ws[0]) || same_word(e, ws[1]) || same_word(e, ws[2]) || same_word(e, ws[3])
        || same_word(e, ws[4]) || same_word(e, ws[5]) || same_word(e, ws[6]) || same_word(e, ws[7]) {
        assert(ws.contains(lowercase(e)));
    }
}

} // verus!
