use audira::icons::{svg_bytes, Icon, ICON_NOTE, ICON_PLAY, ICON_VOLHI};

#[test]
fn known_names_give_their_icon() {
    assert_eq!(svg_bytes("play"), ICON_PLAY.as_bytes());
    assert_eq!(svg_bytes("volume-high"), ICON_VOLHI.as_bytes());
    assert_eq!(Icon::from_name("skip-fwd"), Icon::SkipForward);
    assert_eq!(Icon::from_name("hamburger"), Icon::Hamburger);
}

#[test]
fn unknown_name_gives_music_note() {
    assert_eq!(svg_bytes("nope"), ICON_NOTE.as_bytes());
    assert_eq!(svg_bytes(""), svg_bytes("music-note"));
    assert_eq!(Icon::from_name("Play"), Icon::MusicNote);
}

#[test]
fn every_icon_is_svg() {
    for name in ["play", "pause", "skip-back", "skip-fwd", "repeat", "repeat-one", "shuffle", "list",
        "hamburger", "plus", "close", "folder", "music-note", "volume-low", "volume-high", "dots"] {
        let b = svg_bytes(name);
        assert!(b.starts_with(b"<svg"));
        assert!(b.ends_with(b"</svg>"));
    }
}
