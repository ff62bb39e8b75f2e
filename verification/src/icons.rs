//! The interface's icons (Phosphor Icons, MIT licence, phosphoricons.com)
//! as SVG text, and their lookup by name.

use vstd::prelude::*;

use vstd::string::StringSliceAdditionalSpecFns;

use crate::text::str_eq;

verus! {

pub const ICON_PLAY: &'static str = r#"<svg xmlns="http://www.w3.org/2000/svg" viewBox="0 0 256 256"><path fill="currentColor" d="M240 128a15.74 15.74 0 0 1-7.6 13.51L88.32 229.65a16 16 0 0 1-16.2.3A15.86 15.86 0 0 1 64 216.13V39.87a15.86 15.86 0 0 1 8.12-13.82 16 16 0 0 1 16.2.3l144.08 88.14A15.74 15.74 0 0 1 240 128Z"/></svg>"#;

pub const ICON_PAUSE: &'static str = r#"<svg xmlns="http://www.w3.org/2000/svg" viewBox="0 0 256 256"><path fill="currentColor" d="M216 48v160a16 16 0 0 1-16 16h-40a16 16 0 0 1-16-16V48a16 16 0 0 1 16-16h40a16 16 0 0 1 16 16ZM96 32H56a16 16 0 0 0-16 16v160a16 16 0 0 0 16 16h40a16 16 0 0 0 16-16V48a16 16 0 0 0-16-16Z"/></svg>"#;

pub const ICON_PREV: &'static str = r#"<svg xmlns="http://www.w3.org/2000/svg" viewBox="0 0 256 256"><path fill="currentColor" d="M208 47.88v160.24a16 16 0 0 1-24.43 13.43L64 149.83V208a8 8 0 0 1-16 0V48a8 8 0 0 1 16 0v58.17l119.57-71.72A16 16 0 0 1 208 47.88Z"/></svg>"#;

pub const ICON_NEXT: &'static str = r#"<svg xmlns="http://www.w3.org/2000/svg" viewBox="0 0 256 256"><path fill="currentColor" d="M208 48v160a8 8 0 0 1-16 0v-58.17l-119.57 71.72A16 16 0 0 1 48 208.12V47.88a16 16 0 0 1 24.43-13.43L192 106.17V48a8 8 0 0 1 16 0Z"/></svg>"#;

pub const ICON_REPEAT: &'static str = r#"<svg xmlns="http://www.w3.org/2000/svg" viewBox="0 0 256 256"><path fill="currentColor" d="M200 176H64v-24a8 8 0 0 0-13.66-5.66l-32 32a8 8 0 0 0 0 11.32l32 32A8 8 0 0 0 64 216v-24h136a16 16 0 0 0 16-16V80a8 8 0 0 0-16 0ZM56 80h136V56a8 8 0 0 1 13.66-5.66l32 32a8 8 0 0 1 0 11.32l-32 32A8 8 0 0 1 192 120V96H56a16 16 0 0 1-16-16 8 8 0 0 1 16 0Z"/></svg>"#;

pub const ICON_REPEAT1: &'static str = r#"<svg xmlns="http://www.w3.org/2000/svg" viewBox="0 0 256 256"><path fill="currentColor" d="M200 176H64v-24a8 8 0 0 0-13.66-5.66l-32 32a8 8 0 0 0 0 11.32l32 32A8 8 0 0 0 64 216v-24h136a16 16 0 0 0 16-16V80a8 8 0 0 0-16 0ZM120 168v-48a8 8 0 0 0-11.58-7.16l-16 8a8 8 0 0 0 7.16 14.32L104 133v35a8 8 0 0 0 16 0ZM56 80h136V56a8 8 0 0 1 13.66-5.66l32 32a8 8 0 0 1 0 11.32l-32 32A8 8 0 0 1 192 120V96H56a16 16 0 0 1-16-16 8 8 0 0 1 16 0Z"/></svg>"#;

pub const ICON_SHUFFLE: &'static str = r#"<svg xmlns="http://www.w3.org/2000/svg" viewBox="0 0 256 256"><path fill="currentColor" d="m237.66 178.34-32 32a8 8 0 0 1-11.32-11.32L210.69 183H192c-25.85 0-43.82-16.18-60.42-31.07C117.07 138.78 103.35 127 88 127c-13.33 0-25.61 7.29-36 21.09L33.33 164H48a8 8 0 0 1 0 16H16a8 8 0 0 1-8-8v-32a8 8 0 0 1 16 0v11.45C35.28 138.59 51.41 111 88 111c25.85 0 43.82 16.18 60.42 31.07C163.93 155.22 177.65 167 192 167h18.69l-16.35-16.34a8 8 0 0 1 11.32-11.32l32 32a8 8 0 0 1 0 11.66ZM48 89H16a8 8 0 0 1 0-16h32a8 8 0 0 1 0 16Zm162.69-16H192c-14.35 0-28.07 11.78-43.58 24.93C131.82 112.82 113.85 129 88 129H48a8 8 0 0 1 0-16h40c15.35 0 29.07-11.78 44.58-24.93C149.18 75.18 167.15 57 192 57h18.69l-16.35-16.34a8 8 0 0 1 11.32-11.32l32 32a8 8 0 0 1-11.32 11.32Z"/></svg>"#;

pub const ICON_LIST: &'static str = r#"<svg xmlns="http://www.w3.org/2000/svg" viewBox="0 0 256 256"><path fill="currentColor" d="M224 128a8 8 0 0 1-8 8H40a8 8 0 0 1 0-16h176a8 8 0 0 1 8 8ZM40 72h176a8 8 0 0 0 0-16H40a8 8 0 0 0 0 16Zm176 112H40a8 8 0 0 0 0 16h176a8 8 0 0 0 0-16Z"/></svg>"#;

pub const ICON_MENU: &'static str = r#"<svg xmlns="http://www.w3.org/2000/svg" viewBox="0 0 256 256"><path fill="currentColor" d="M224 128a8 8 0 0 1-8 8H40a8 8 0 0 1 0-16h176a8 8 0 0 1 8 8ZM40 72h176a8 8 0 0 0 0-16H40a8 8 0 0 0 0 16Zm176 112H40a8 8 0 0 0 0 16h176a8 8 0 0 0 0-16Z"/></svg>"#;

pub const ICON_PLUS: &'static str = r#"<svg xmlns="http://www.w3.org/2000/svg" viewBox="0 0 256 256"><path fill="currentColor" d="M224 128a8 8 0 0 1-8 8h-80v80a8 8 0 0 1-16 0v-80H40a8 8 0 0 1 0-16h80V40a8 8 0 0 1 16 0v80h80a8 8 0 0 1 8 8Z"/></svg>"#;

pub const ICON_CLOSE: &'static str = r#"<svg xmlns="http://www.w3.org/2000/svg" viewBox="0 0 256 256"><path fill="currentColor" d="M205.66 194.34a8 8 0 0 1-11.32 11.32L128 139.31l-66.34 66.35a8 8 0 0 1-11.32-11.32L116.69 128 50.34 61.66a8 8 0 0 1 11.32-11.32L128 116.69l66.34-66.35a8 8 0 0 1 11.32 11.32L139.31 128Z"/></svg>"#;

pub const ICON_FOLDER: &'static str = r#"<svg xmlns="http://www.w3.org/2000/svg" viewBox="0 0 256 256"><path fill="currentColor" d="M216 72h-84.69L104 44.69A15.86 15.86 0 0 0 92.69 40H40a16 16 0 0 0-16 16v144.62A15.4 15.4 0 0 0 39.38 216h177.51A15.13 15.13 0 0 0 232 200.89V88a16 16 0 0 0-16-16ZM40 56h52.69l16 16H40Zm176 144H40V88h176Z"/></svg>"#;

pub const ICON_NOTE: &'static str = r#"<svg xmlns="http://www.w3.org/2000/svg" viewBox="0 0 256 256"><path fill="currentColor" d="M212.92 10.1a8 8 0 0 0-6.86-.1l-128 48A8 8 0 0 0 72 65.82v109.76a36 36 0 1 0 16 29.92V111.43l112-42v82.15a36 36 0 1 0 16 29.92V16a8 8 0 0 0-3.08-5.9Z"/></svg>"#;

pub const ICON_VOLLOW: &'static str = r#"<svg xmlns="http://www.w3.org/2000/svg" viewBox="0 0 256 256"><path fill="currentColor" d="M155.51 24.81a8 8 0 0 0-8.42.88L77.25 80H32a16 16 0 0 0-16 16v64a16 16 0 0 0 16 16h45.25l69.84 54.31A8 8 0 0 0 160 224V32a8 8 0 0 0-4.49-7.19ZM32 96h40v64H32Zm112 111.64-48-37.33V85.69l48-37.33Zm54-61.64a40 40 0 0 0 0-36 8 8 0 0 0-14.24 7.28 24 24 0 0 1 0 21.44 8 8 0 1 0 14.24 7.28Z"/></svg>"#;

pub const ICON_VOLHI: &'static str = r#"<svg xmlns="http://www.w3.org/2000/svg" viewBox="0 0 256 256"><path fill="currentColor" d="M155.51 24.81a8 8 0 0 0-8.42.88L77.25 80H32a16 16 0 0 0-16 16v64a16 16 0 0 0 16 16h45.25l69.84 54.31A8 8 0 0 0 160 224V32a8 8 0 0 0-4.49-7.19ZM32 96h40v64H32Zm112 111.64-48-37.33V85.69l48-37.33Zm54-61.64a40 40 0 0 0 0-36 8 8 0 0 0-14.24 7.28 24 24 0 0 1 0 21.44 8 8 0 1 0 14.24 7.28Zm22.56 18.1A72 72 0 0 0 224 128a72 72 0 0 0-7.38-32.2 8 8 0 0 0-14.44 6.9A56 56 0 0 1 208 128a56 56 0 0 1-5.84 25.3 8 8 0 1 0 14.46 6.87Z"/></svg>"#;

pub const ICON_DOTS: &'static str = r#"<svg xmlns="http://www.w3.org/2000/svg" viewBox="0 0 256 256"><path fill="currentColor" d="M112 60a16 16 0 1 1 16 16 16 16 0 0 1-16-16Zm16 52a16 16 0 1 0 16 16 16 16 0 0 0-16-16Zm0 68a16 16 0 1 0 16 16 16 16 0 0 0-16-16Z"/></svg>"#;

pub const ICON_SIDEBAR: &'static str = r#"<svg xmlns="http://www.w3.org/2000/svg" viewBox="0 0 256 256"><rect x="24" y="40" width="208" height="176" rx="16" fill="none" stroke="currentColor" stroke-linecap="round" stroke-linejoin="round" stroke-width="20"/><line x1="88" y1="40" x2="88" y2="216" stroke="currentColor" stroke-linecap="round" stroke-linejoin="round" stroke-width="20"/></svg>"#;

pub const ICON_CHECK: &'static str = r#"<svg xmlns="http://www.w3.org/2000/svg" viewBox="0 0 256 256"><path fill="currentColor" d="M229.66 77.66l-128 128a8 8 0 0 1-11.32 0l-56-56a8 8 0 0 1 11.32-11.32L96 188.69 218.34 66.34a8 8 0 0 1 11.32 11.32Z"/></svg>"#;

/// An icon of the interface.
#[derive(Debug, Clone, Copy, PartialEq, Eq, Structural)]
pub enum Icon {
    Play,
    Pause,
    SkipBack,
    SkipForward,
    Repeat,
    RepeatOne,
    Shuffle,
    List,
    Hamburger,
    Plus,
    Close,
    Folder,
    MusicNote,
    VolumeLow,
    VolumeHigh,
    Dots,
    Sidebar,
    Check,
}

/// The SVG text of an icon.
pub open spec fn icon_svg(i: Icon) -> &'static str {
    match i {
        Icon::Play => ICON_PLAY,
        Icon::Pause => ICON_PAUSE,
        Icon::SkipBack => ICON_PREV,
        Icon::SkipForward => ICON_NEXT,
        Icon::Repeat => ICON_REPEAT,
        Icon::RepeatOne => ICON_REPEAT1,
        Icon::Shuffle => ICON_SHUFFLE,
        Icon::List => ICON_LIST,
        Icon::Hamburger => ICON_MENU,
        Icon::Plus => ICON_PLUS,
        Icon::Close => ICON_CLOSE,
        Icon::Folder => ICON_FOLDER,
        Icon::MusicNote => ICON_NOTE,
        Icon::VolumeLow => ICON_VOLLOW,
        Icon::VolumeHigh => ICON_VOLHI,
        Icon::Dots => ICON_DOTS,
        Icon::Sidebar => ICON_SIDEBAR,
        Icon::Check => ICON_CHECK,
    }
}

/// The icon that a name stands for; any other name gives the music note.
pub open spec fn icon_named(name: Seq<char>) -> Icon {
    if name == "play"@ {
        Icon::Play
    } else if name == "pause"@ {
        Icon::Pause
    } else if name == "skip-back"@ {
        Icon::SkipBack
    } else if name == "skip-fwd"@ {
        Icon::SkipForward
    } else if name == "repeat"@ {
        Icon::Repeat
    } else if name == "repeat-one"@ {
        Icon::RepeatOne
    } else if name == "shuffle"@ {
        Icon::Shuffle
    } else if name == "list"@ {
        Icon::List
    } else if name == "hamburger"@ {
        Icon::Hamburger
    } else if name == "plus"@ {
        Icon::Plus
    } else if name == "close"@ {
        Icon::Close
    } else if name == "folder"@ {
        Icon::Folder
    } else if name == "music-note"@ {
        Icon::MusicNote
    } else if name == "volume-low"@ {
        Icon::VolumeLow
    } else if name == "volume-high"@ {
        Icon::VolumeHigh
    } else if name == "dots"@ {
        Icon::Dots
    } else {
        Icon::MusicNote
    }
}

impl Icon {
    /// The icon's SVG text.
    pub fn svg(self) -> (r: &'static str)
        ensures
            r == icon_svg(self),
    {
        match self {
            Icon::Play => ICON_PLAY,
            Icon::Pause => ICON_PAUSE,
            Icon::SkipBack => ICON_PREV,
            Icon::SkipForward => ICON_NEXT,
            Icon::Repeat => ICON_REPEAT,
            Icon::RepeatOne => ICON_REPEAT1,
            Icon::Shuffle => ICON_SHUFFLE,
            Icon::List => ICON_LIST,
            Icon::Hamburger => ICON_MENU,
            Icon::Plus => ICON_PLUS,
            Icon::Close => ICON_CLOSE,
            Icon::Folder => ICON_FOLDER,
            Icon::MusicNote => ICON_NOTE,
            Icon::VolumeLow => ICON_VOLLOW,
            Icon::VolumeHigh => ICON_VOLHI,
            Icon::Dots => ICON_DOTS,
            Icon::Sidebar => ICON_SIDEBAR,
            Icon::Check => ICON_CHECK,
        }
    }

    /// The icon that `name` stands for (the music note for an unknown name).
    pub fn from_name(name: &str) -> (r: Icon)
        ensures
            r == icon_named(name@),
    {
        if str_eq(name, "play") {
            return Icon::Play;
        }
        if str_eq(name, "pause") {
            return Icon::Pause;
        }
        if str_eq(name, "skip-back") {
            return Icon::SkipBack;
        }
        if str_eq(name, "skip-fwd") {
            return Icon::SkipForward;
        }
        if str_eq(name, "repeat") {
            return Icon::Repeat;
        }
        if str_eq(name, "repeat-one") {
            return Icon::RepeatOne;
        }
        if str_eq(name, "shuffle") {
            return Icon::Shuffle;
        }
        if str_eq(name, "list") {
            return Icon::List;
        }
        if str_eq(name, "hamburger") {
            return Icon::Hamburger;
        }
        if str_eq(name, "plus") {
            return Icon::Plus;
        }
        if str_eq(name, "close") {
            return Icon::Close;
        }
        if str_eq(name, "folder") {
            return Icon::Folder;
        }
        if str_eq(name, "music-note") {
            return Icon::MusicNote;
        }
        if str_eq(name, "volume-low") {
            return Icon::VolumeLow;
        }
        if str_eq(name, "volume-high") {
            return Icon::VolumeHigh;
        }
        if str_eq(name, "dots") {
            return Icon::Dots;
        }
        Icon::MusicNote
    }
}

/// The SVG data of the icon called `name` (the music note for an unknown name).
pub fn svg_bytes(name: &str) -> (r: &'static [u8])
    ensures
        r@ == icon_svg(icon_named(name@)).spec_bytes(),
{
    Icon::from_name(name).svg().as_bytes()
}

} // verus!
