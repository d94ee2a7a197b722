//! The palette, for a light or a dark window.
use vstd::prelude::*;

verus! {

/// How the window is drawn.
#[derive(Clone, Copy, Debug, PartialEq, Eq, Structural)]
pub enum Appearance {
    Light,
    VibrantLight,
    Dark,
    VibrantDark,
}

/// The colors of the interface, as `0xRRGGBB`.
#[derive(Clone, Copy, Debug, PartialEq, Eq, Structural)]
pub struct Theme {
    pub background: u32,
    pub chrome: u32,
    pub sidebar: u32,
    pub line: u32,
    pub text: u32,
    pub muted: u32,
    pub faint: u32,
    pub selection: u32,
    pub stale: u32,
    pub failure: u32,
}

/// The light palette.
pub open spec fn light() -> Theme {
    Theme {
        background: 0xF4F4F4,
        chrome: 0xE9E9E9,
        sidebar: 0xEEEEEE,
        line: 0xD0D0D0,
        text: 0x202020,
        muted: 0x606060,
        faint: 0x8A8A8A,
        selection: 0x3478D4,
        stale: 0xA85A00,
        failure: 0xB42318,
    }
}

/// The dark palette.
pub open spec fn dark() -> Theme {
    Theme {
        background: 0x1E1E1E,
        chrome: 0x2A2A2A,
        sidebar: 0x252525,
        line: 0x383838,
        text: 0xE4E4E4,
        muted: 0x9A9A9A,
        faint: 0x686868,
        selection: 0x2C5FA8,
        stale: 0xD9903A,
        failure: 0xD4726A,
    }
}

impl Theme {
    /// The palette for a window's appearance.
    pub fn for_appearance(appearance: Appearance) -> (r: Theme)
        ensures
            (appearance == Appearance::Light || appearance == Appearance::VibrantLight) ==> r
                == light(),
            (appearance == Appearance::Dark || appearance == Appearance::VibrantDark) ==> r
                == dark(),
    {
        match appearance {
            Appearance::Light | Appearance::VibrantLight => Theme {
                background: 0xF4F4F4,
                chrome: 0xE9E9E9,
                sidebar: 0xEEEEEE,
                line: 0xD0D0D0,
                text: 0x202020,
                muted: 0x606060,
                faint: 0x8A8A8A,
                selection: 0x3478D4,
                stale: 0xA85A00,
                failure: 0xB42318,
            },
            Appearance::Dark | Appearance::VibrantDark => Theme {
                background: 0x1E1E1E,
                chrome: 0x2A2A2A,
                sidebar: 0x252525,
                line: 0x383838,
                text: 0xE4E4E4,
                muted: 0x9A9A9A,
                faint: 0x686868,
                selection: 0x2C5FA8,
                stale: 0xD9903A,
                failure: 0xD4726A,
            },
        }
    }
}

} // verus!
