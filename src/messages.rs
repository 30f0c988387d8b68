//! The events the reader's screens send to the application.
use vstd::prelude::*;
use crate::article::Article;
use crate::settings::AppTheme;

verus! {

/// From the article page.
#[derive(Debug, Clone)]
pub enum ArticleDetailMessage {
    BackToList,
}

/// From the article list.
#[derive(Debug, Clone)]
pub enum ContentMessage {
    ArticleClicked(Article),
}

/// From the settings page.
#[derive(Debug, Clone)]
pub enum SettingsMessage {
    ThemeSelected(AppTheme),
    ToggleImages,
    ToggleExcerpts,
    CloseSettings,
}

/// From the sidebar of feeds.
#[derive(Debug, Clone)]
pub enum SidebarMessage {
    FeedInputChanged(String),
    AddFeed,
    RefreshFeed(String),
    OpenSettings,
}

} // verus!
