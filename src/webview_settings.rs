//! Display preferences of the web-view front end, which offers a light and a
//! dark theme.
use vstd::prelude::*;

verus! {

#[derive(Debug, Clone, Copy, PartialEq, Eq, Structural)]
pub enum AppTheme {
    Light,
    Dark,
}

impl AppTheme {
    /// Both themes, light first.
    pub fn all() -> (r: Vec<AppTheme>)
        ensures
            r@ == seq![AppTheme::Light, AppTheme::Dark],
    {
        let r = vec![AppTheme::Light, AppTheme::Dark];
        assert(r@ =~= seq![AppTheme::Light, AppTheme::Dark]);
        r
    }

    /// The name the theme is shown under.
    pub fn name(&self) -> (r: &'static str)
        ensures
            r@ == match self {
                AppTheme::Light => "Light"@,
                AppTheme::Dark => "Dark"@,
            },
    {
        match self {
            AppTheme::Light => "Light",
            AppTheme::Dark => "Dark",
        }
    }

    pub fn is_dark(&self) -> (r: bool)
        ensures
            r == (*self == AppTheme::Dark),
    {
        match self {
            AppTheme::Light => false,
            AppTheme::Dark => true,
        }
    }
}

/// What the web-view front end shows.
#[derive(Debug, Clone, Copy, PartialEq, Eq, Structural)]
pub struct AppSettings {
    pub theme: AppTheme,
    pub show_images: bool,
    pub show_excerpts: bool,
}

impl Default for AppSettings {
    /// The light theme, with images and excerpts shown.
    fn default() -> (r: Self)
        ensures
            r == (AppSettings { theme: AppTheme::Light, show_images: true, show_excerpts: true }),
    {
        AppSettings { theme: AppTheme::Light, show_images: true, show_excerpts: true }
    }
}

} // verus!
