use vstd::prelude::*;

verus! {

/// What an article is, as plain sequences of characters.
pub struct ArticleModel {
    pub title: Seq<char>,
    pub link: Seq<char>,
    pub excerpt: Option<Seq<char>>,
    pub image_url: Option<Seq<char>>,
}

pub open spec fn opt_view(o: Option<String>) -> Option<Seq<char>> {
    match o {
        Some(s) => Some(s@),
        None => None,
    }
}

/// One syndicated entry.
#[derive(Debug, Clone)]
pub struct Article {
    pub title: String,
    pub link: String,
    pub excerpt: Option<String>,
    pub image_url: Option<String>,
}

impl View for Article {
    type V = ArticleModel;

    open spec fn view(&self) -> ArticleModel {
        ArticleModel {
            title: self.title@,
            link: self.link@,
            excerpt: opt_view(self.excerpt),
            image_url: opt_view(self.image_url),
        }
    }
}

impl Article {
    /// An article with a title and a link and no optional fields.
    pub fn new(title: String, link: String) -> (r: Self)
        ensures
            r@ == (ArticleModel { title: title@, link: link@, excerpt: None, image_url: None }),
    {
        Self { title, link, excerpt: None, image_url: None }
    }

    /// The same article with its excerpt replaced.
    pub fn with_excerpt(self, excerpt: Option<String>) -> (r: Self)
        ensures
            r@ == (ArticleModel { excerpt: opt_view(excerpt), ..self@ }),
    {
        Self { excerpt, ..self }
    }

    /// The same article with its image replaced.
    pub fn with_image(self, image_url: Option<String>) -> (r: Self)
        ensures
            r@ == (ArticleModel { image_url: opt_view(image_url), ..self@ }),
    {
        Self { image_url, ..self }
    }
}

} // verus!
