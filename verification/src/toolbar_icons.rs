//! Toolbar icons: simple stroke SVGs, the URI each is registered under and
//! its hover text. Drawing the buttons stays with the application.

use vstd::prelude::*;

verus! {

/// The icons of the toolbar.
#[derive(Clone, Copy, Debug, PartialEq, Eq, Structural)]
pub enum ToolbarIcon {
    Back,
    Forward,
    Up,
    Refresh,
    Home,
}

/// A chevron pointing left.
pub const CHEVRON_LEFT_SVG: &'static str = "<svg xmlns=\"http://www.w3.org/2000/svg\" viewBox=\"0 0 24 24\" fill=\"none\" stroke=\"currentColor\" stroke-width=\"2\"><path d=\"M15 6l-6 6 6 6\"/></svg>";

/// A chevron pointing right.
pub const CHEVRON_RIGHT_SVG: &'static str = "<svg xmlns=\"http://www.w3.org/2000/svg\" viewBox=\"0 0 24 24\" fill=\"none\" stroke=\"currentColor\" stroke-width=\"2\"><path d=\"M9 6l6 6-6 6\"/></svg>";

/// An arrow pointing up.
pub const ARROW_UP_SVG: &'static str = "<svg xmlns=\"http://www.w3.org/2000/svg\" viewBox=\"0 0 24 24\" fill=\"none\" stroke=\"currentColor\" stroke-width=\"2\"><path d=\"M12 19V5M6 11l6-6 6 6\"/></svg>";

/// A circular arrow.
pub const REFRESH_SVG: &'static str = "<svg xmlns=\"http://www.w3.org/2000/svg\" viewBox=\"0 0 24 24\" fill=\"none\" stroke=\"currentColor\" stroke-width=\"2\"><path d=\"M20 12a8 8 0 1 1-2.3-5.7M20 4v5h-5\"/></svg>";

/// A house.
pub const HOME_SVG: &'static str = "<svg xmlns=\"http://www.w3.org/2000/svg\" viewBox=\"0 0 24 24\" fill=\"none\" stroke=\"currentColor\" stroke-width=\"2\"><path d=\"M3 11l9-8 9 8M5 9v12h14V9\"/></svg>";

/// The SVG source of an icon.
pub open spec fn svg_source(icon: ToolbarIcon) -> Seq<char> {
    match icon {
        ToolbarIcon::Back => CHEVRON_LEFT_SVG@,
        ToolbarIcon::Forward => CHEVRON_RIGHT_SVG@,
        ToolbarIcon::Up => ARROW_UP_SVG@,
        ToolbarIcon::Refresh => REFRESH_SVG@,
        ToolbarIcon::Home => HOME_SVG@,
    }
}

/// The URI an icon's image is registered under.
pub open spec fn uri_text(icon: ToolbarIcon) -> Seq<char> {
    match icon {
        ToolbarIcon::Back => "bytes://toolbar/chevron_left.svg"@,
        ToolbarIcon::Forward => "bytes://toolbar/chevron_right.svg"@,
        ToolbarIcon::Up => "bytes://toolbar/arrow_up.svg"@,
        ToolbarIcon::Refresh => "bytes://toolbar/refresh.svg"@,
        ToolbarIcon::Home => "bytes://toolbar/home.svg"@,
    }
}

/// The hover text of an icon's button, with its shortcut where it has one.
pub open spec fn hover_text(icon: ToolbarIcon) -> Seq<char> {
    match icon {
        ToolbarIcon::Back => "戻る"@,
        ToolbarIcon::Forward => "進む"@,
        ToolbarIcon::Up => "上へ Alt+↑"@,
        ToolbarIcon::Refresh => "更新 F5"@,
        ToolbarIcon::Home => "ホーム Alt+Home"@,
    }
}

impl ToolbarIcon {
    /// The SVG source of the icon (see [`svg_source`]).
    pub fn svg(self) -> (r: &'static str)
        ensures
            r@ == svg_source(self),
    {
        match self {
            ToolbarIcon::Back => CHEVRON_LEFT_SVG,
            ToolbarIcon::Forward => CHEVRON_RIGHT_SVG,
            ToolbarIcon::Up => ARROW_UP_SVG,
            ToolbarIcon::Refresh => REFRESH_SVG,
            ToolbarIcon::Home => HOME_SVG,
        }
    }

    /// The icon's SVG source as UTF-8 bytes.
    pub fn bytes(self) -> (r: &'static [u8])
        ensures
            r@ == vstd::utf8::encode_utf8(svg_source(self)),
    {
        self.svg().as_bytes()
    }

    /// The URI the icon's image is registered under (see [`uri_text`]).
    pub fn uri(self) -> (r: &'static str)
        ensures
            r@ == uri_text(self),
    {
        match self {
            ToolbarIcon::Back => "bytes://toolbar/chevron_left.svg",
            ToolbarIcon::Forward => "bytes://toolbar/chevron_right.svg",
            ToolbarIcon::Up => "bytes://toolbar/arrow_up.svg",
            ToolbarIcon::Refresh => "bytes://toolbar/refresh.svg",
            ToolbarIcon::Home => "bytes://toolbar/home.svg",
        }
    }

    /// The hover text of the icon's button (see [`hover_text`]).
    pub fn hover(self) -> (r: &'static str)
        ensures
            r@ == hover_text(self),
    {
        match self {
            ToolbarIcon::Back => "戻る",
            ToolbarIcon::Forward => "進む",
            ToolbarIcon::Up => "上へ Alt+↑",
            ToolbarIcon::Refresh => "更新 F5",
            ToolbarIcon::Home => "ホーム Alt+Home",
        }
    }

    /// The size of the icon in a toolbar button, in points: 14 when the
    /// toolbar is compact, else 16.
    pub fn button_size(compact: bool) -> (r: u32)
        ensures
            r == if compact { 14u32 } else { 16u32 },
    {
        if compact {
            14
        } else {
            16
        }
    }
}

} // verus!
