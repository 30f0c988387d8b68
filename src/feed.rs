use vstd::prelude::*;
use crate::article::{Article, ArticleModel};

verus! {

/// A subscribed feed: where it is fetched from and what it is called.
#[derive(Debug, Clone)]
pub struct Feed {
    pub url: String,
    pub title: String,
}

impl Feed {
    pub fn new(url: String, title: String) -> (r: Self)
        ensures
            r.url@ == url@,
            r.title@ == title@,
    {
        Self { url, title }
    }
}

/// The result of reading one feed: its title and its articles in document order.
#[derive(Debug, Clone)]
pub struct FeedData {
    pub title: String,
    pub articles: Vec<Article>,
}

/// A feed summary as plain values.
pub struct FeedDataModel {
    pub title: Seq<char>,
    pub articles: Seq<ArticleModel>,
}

impl View for FeedData {
    type V = FeedDataModel;

    open spec fn view(&self) -> FeedDataModel {
        FeedDataModel { title: self.title@, articles: self.articles@.map_values(|a: Article| a@) }
    }
}

} // verus!
