use czytaj::webview_settings::{AppSettings as WebSettings, AppTheme as WebTheme};
use czytaj::{AppSettings, AppTheme, Article, Feed};

#[test]
fn article_builders_set_optional_fields() {
    let a = Article::new("T".to_string(), "L".to_string());
    assert_eq!(a.excerpt, None);
    assert_eq!(a.image_url, None);
    let a = a.with_excerpt(Some("E".to_string())).with_image(Some("I".to_string()));
    assert_eq!(a.title, "T");
    assert_eq!(a.link, "L");
    assert_eq!(a.excerpt, Some("E".to_string()));
    assert_eq!(a.image_url, Some("I".to_string()));
}

#[test]
fn feed_new_keeps_fields() {
    let f = Feed::new("u".to_string(), "t".to_string());
    assert_eq!(f.url, "u");
    assert_eq!(f.title, "t");
}

#[test]
fn themes_are_listed_with_names() {
    let all = AppTheme::all();
    assert_eq!(all.len(), 19);
    assert_eq!(all[0], AppTheme::CatppuccinMocha);
    assert_eq!(all[18], AppTheme::Oxocarbon);
    assert_eq!(AppTheme::CatppuccinFrappe.name(), "Catppuccin Frappé");
    assert_eq!(AppTheme::TokyoNightStorm.name(), "Tokyo Night Storm");
}

#[test]
fn default_settings_show_everything() {
    let s = AppSettings::default();
    assert_eq!(s.theme, AppTheme::CatppuccinMocha);
    assert!(s.show_images && s.show_excerpts);
}

#[test]
fn webview_themes() {
    assert_eq!(WebTheme::all(), vec![WebTheme::Light, WebTheme::Dark]);
    assert_eq!(WebTheme::Dark.name(), "Dark");
    assert!(WebTheme::Dark.is_dark());
    assert!(!WebTheme::Light.is_dark());
    let s = WebSettings::default();
    assert_eq!(s.theme, WebTheme::Light);
    assert!(s.show_images && s.show_excerpts);
}
