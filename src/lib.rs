//! Feed ingestion for a small RSS/Atom reader: sanitising untrusted markup
//! into plain-text excerpts, normalising parsed feeds into articles, and
//! the ledger of articles the reader has opened.

pub mod article;
pub mod feed;
pub mod feed_engine;
pub mod feed_text;
pub mod markup;
pub mod markup_laws;
pub mod messages;
pub mod sanitizer;
pub mod settings;
pub mod text;
pub mod viewed;
pub mod webview_settings;

pub use article::Article;
pub use feed::{Feed, FeedData};
pub use feed_engine::{
    extract_first_image_from_html, extract_image_url, parse_feed, summarize_feed, EntryRecord,
    FeedDocument, FeedError, MediaRecord,
};
pub use messages::{ArticleDetailMessage, ContentMessage, SettingsMessage, SidebarMessage};
pub use sanitizer::sanitize_html;
pub use settings::{AppSettings, AppTheme};
pub use viewed::{ViewedLedger, ViewedRecord};
