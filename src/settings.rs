//! Display preferences of the reader. The core computes excerpts and images
//! whatever they say; they only decide what the interface shows.
use vstd::prelude::*;

verus! {

/// The colour themes the reader offers.
#[derive(Debug, Clone, Copy, PartialEq, Eq, Structural)]
pub enum AppTheme {
    CatppuccinMocha,
    CatppuccinMacchiato,
    CatppuccinFrappe,
    CatppuccinLatte,
    TokyoNight,
    TokyoNightStorm,
    TokyoNightLight,
    Dracula,
    Nord,
    SolarizedLight,
    SolarizedDark,
    GruvboxLight,
    GruvboxDark,
    KanagawaWave,
    KanagawaDragon,
    KanagawaLotus,
    Moonfly,
    Nightfly,
    Oxocarbon,
}

/// Every theme, in the order the settings screen lists them.
pub open spec fn all_themes() -> Seq<AppTheme> {
    seq![
        AppTheme::CatppuccinMocha,
        AppTheme::CatppuccinMacchiato,
        AppTheme::CatppuccinFrappe,
        AppTheme::CatppuccinLatte,
        AppTheme::TokyoNight,
        AppTheme::TokyoNightStorm,
        AppTheme::TokyoNightLight,
        AppTheme::Dracula,
        AppTheme::Nord,
        AppTheme::SolarizedLight,
        AppTheme::SolarizedDark,
        AppTheme::GruvboxLight,
        AppTheme::GruvboxDark,
        AppTheme::KanagawaWave,
        AppTheme::KanagawaDragon,
        AppTheme::KanagawaLotus,
        AppTheme::Moonfly,
        AppTheme::Nightfly,
        AppTheme::Oxocarbon,
    ]
}

/// The name a theme is shown under.
pub open spec fn theme_name(t: AppTheme) -> Seq<char> {
    match t {
        AppTheme::CatppuccinMocha => "Catppuccin Mocha"@,
        AppTheme::CatppuccinMacchiato => "Catppuccin Macchiato"@,
        AppTheme::CatppuccinFrappe => "Catppuccin Frapp\u{e9}"@,
        AppTheme::CatppuccinLatte => "Catppuccin Latte"@,
        AppTheme::TokyoNight => "Tokyo Night"@,
        AppTheme::TokyoNightStorm => "Tokyo Night Storm"@,
        AppTheme::TokyoNightLight => "Tokyo Night Light"@,
        AppTheme::Dracula => "Dracula"@,
        AppTheme::Nord => "Nord"@,
        AppTheme::SolarizedLight => "Solarized Light"@,
        AppTheme::SolarizedDark => "Solarized Dark"@,
        AppTheme::GruvboxLight => "Gruvbox Light"@,
        AppTheme::GruvboxDark => "Gruvbox Dark"@,
        AppTheme::KanagawaWave => "Kanagawa Wave"@,
        AppTheme::KanagawaDragon => "Kanagawa Dragon"@,
        AppTheme::KanagawaLotus => "Kanagawa Lotus"@,
        AppTheme::Moonfly => "Moonfly"@,
        AppTheme::Nightfly => "Nightfly"@,
        AppTheme::Oxocarbon => "Oxocarbon"@,
    }
}

impl AppTheme {
    /// Every theme, in the order the settings screen lists them.
    pub fn all() -> (r: Vec<AppTheme>)
        ensures
            r@ == all_themes(),
    {
        let r = vec![
            AppTheme::CatppuccinMocha,
            AppTheme::CatppuccinMacchiato,
            AppTheme::CatppuccinFrappe,
            AppTheme::CatppuccinLatte,
            AppTheme::TokyoNight,
            AppTheme::TokyoNightStorm,
            AppTheme::TokyoNightLight,
            AppTheme::Dracula,
            AppTheme::Nord,
            AppTheme::SolarizedLight,
            AppTheme::SolarizedDark,
            AppTheme::GruvboxLight,
            AppTheme::GruvboxDark,
            AppTheme::KanagawaWave,
            AppTheme::KanagawaDragon,
            AppTheme::KanagawaLotus,
            AppTheme::Moonfly,
            AppTheme::Nightfly,
            AppTheme::Oxocarbon,
        ];
        assert(r@ =~= all_themes());
        r
    }

    /// The name the theme is shown under.
    pub fn name(&self) -> (r: &'static str)
        ensures
            r@ == theme_name(*self),
    {
        match self {
            AppTheme::CatppuccinMocha => "Catppuccin Mocha",
            AppTheme::CatppuccinMacchiato => "Catppuccin Macchiato",
            AppTheme::CatppuccinFrappe => "Catppuccin Frapp\u{e9}",
            AppTheme::CatppuccinLatte => "Catppuccin Latte",
            AppTheme::TokyoNight => "Tokyo Night",
            AppTheme::TokyoNightStorm => "Tokyo Night Storm",
            AppTheme::TokyoNightLight => "Tokyo Night Light",
            AppTheme::Dracula => "Dracula",
            AppTheme::Nord => "Nord",
            AppTheme::SolarizedLight => "Solarized Light",
            AppTheme::SolarizedDark => "Solarized Dark",
            AppTheme::GruvboxLight => "Gruvbox Light",
            AppTheme::GruvboxDark => "Gruvbox Dark",
            AppTheme::KanagawaWave => "Kanagawa Wave",
            AppTheme::KanagawaDragon => "Kanagawa Dragon",
            AppTheme::KanagawaLotus => "Kanagawa Lotus",
            AppTheme::Moonfly => "Moonfly",
            AppTheme::Nightfly => "Nightfly",
            AppTheme::Oxocarbon => "Oxocarbon",
        }
    }
}

/// What the interface shows.
#[derive(Debug, Clone, Copy, PartialEq, Eq, Structural)]
pub struct AppSettings {
    pub theme: AppTheme,
    pub show_images: bool,
    pub show_excerpts: bool,
}

impl Default for AppSettings {
    /// The first theme, with images and excerpts shown.
    fn default() -> (r: Self)
        ensures
            r == (AppSettings { theme: AppTheme::CatppuccinMocha, show_images: true, show_excerpts: true }),
    {
        AppSettings { theme: AppTheme::CatppuccinMocha, show_images: true, show_excerpts: true }
    }
}

} // verus!
