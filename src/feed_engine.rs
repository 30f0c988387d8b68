//! Turns a parsed syndication document into the reader's articles.
use vstd::prelude::*;
use vstd::string::StringExecFns;
use crate::article::{Article, ArticleModel};
use crate::feed::{FeedData, FeedDataModel};
use crate::markup::{
    folds_to, lemma_run_end_bounds, lemma_run_end_skip, not_gt, not_quote, occurs, occurs_at, run_end,
    skip_not_gt, skip_not_quote,
};
use crate::feed_text::{parser_safe, parser_safe_text};
use crate::text::{chars_of, string_of};
use crate::sanitizer::{sanitize_html, sanitized};

verus! {

/// One media attachment of an entry: the URLs of its content items (an item
/// may have none) and the image URIs of its thumbnails.
#[derive(Debug, Clone)]
pub struct MediaRecord {
    pub content_urls: Vec<Option<String>>,
    pub thumbnails: Vec<String>,
}

/// The fields of a parsed entry that an article is made from.
#[derive(Debug, Clone)]
pub struct EntryRecord {
    pub title: Option<String>,
    pub links: Vec<String>,
    pub summary: Option<String>,
    pub content_body: Option<String>,
    pub media: Vec<MediaRecord>,
}

/// A parsed feed: its declared title and its entries in document order.
#[derive(Debug, Clone)]
pub struct FeedDocument {
    pub title: Option<String>,
    pub entries: Vec<EntryRecord>,
}

pub open spec fn untitled() -> Seq<char> {
    "Untitled"@
}

pub open spec fn no_link() -> Seq<char> {
    "No link"@
}

pub open spec fn img_open() -> Seq<char> {
    seq!['<', 'i', 'm', 'g']
}

pub open spec fn src_attr() -> Seq<char> {
    seq!['s', 'r', 'c', '=']
}

/// At `k` stands `src=` and a quoted, non-empty value.
pub open spec fn src_value_at(s: Seq<char>, k: int) -> bool {
    &&& occurs_at(s, k, src_attr())
    &&& k + 4 < s.len()
    &&& s[k + 4] == '"' || s[k + 4] == '\''
    &&& run_end(s, k + 5, not_quote()) > k + 5
    &&& run_end(s, k + 5, not_quote()) < s.len()
}

/// The last position in `(lo, k]` where a quoted `src=` value stands.
pub open spec fn last_src(s: Seq<char>, lo: int, k: int) -> Option<int>
    decreases k - lo,
{
    if k <= lo {
        None
    } else if src_value_at(s, k) {
        Some(k)
    } else {
        last_src(s, lo, k - 1)
    }
}

/// The source of an `<img ...>` starting at `i`: the attribute text runs
/// from after `<img` up to the last `src=` before the tag's `>`.
pub open spec fn img_src_at(s: Seq<char>, i: int) -> Option<Seq<char>> {
    if occurs_at(s, i, img_open()) {
        match last_src(s, i + 4, run_end(s, i + 4, not_gt())) {
            Some(k) => Some(s.subrange(k + 5, run_end(s, k + 5, not_quote()))),
            None => None,
        }
    } else {
        None
    }
}

/// The source of the first image found in `s` from position `i` on.
pub open spec fn first_image_from(s: Seq<char>, i: int) -> Option<Seq<char>>
    decreases s.len() - i,
{
    if i < 0 || i >= s.len() {
        None
    } else {
        match img_src_at(s, i) {
            Some(v) => Some(v),
            None => first_image_from(s, i + 1),
        }
    }
}

/// The source of the first `<img ... src="...">` in an HTML body, tags and
/// attribute names compared case-insensitively.
pub open spec fn first_image(s: Seq<char>) -> Option<Seq<char>> {
    first_image_from(s, 0)
}

/// The lead image of an entry: the first media attachment's first content
/// URL, else its first thumbnail, else the first image in the content body.
pub open spec fn entry_image(e: EntryRecord) -> Option<Seq<char>> {
    if e.media@.len() > 0 && e.media@[0].content_urls@.len() > 0
        && e.media@[0].content_urls@[0] is Some {
        Some(e.media@[0].content_urls@[0]->Some_0@)
    } else if e.media@.len() > 0 && e.media@[0].thumbnails@.len() > 0 {
        Some(e.media@[0].thumbnails@[0]@)
    } else {
        match e.content_body {
            Some(b) => first_image(b@),
            None => None,
        }
    }
}

/// The excerpt of an entry: its summary, else its content body, sanitised.
pub open spec fn entry_excerpt(e: EntryRecord) -> Option<Seq<char>> {
    match e.summary {
        Some(t) => Some(sanitized(t@)),
        None => match e.content_body {
            Some(b) => Some(sanitized(b@)),
            None => None,
        },
    }
}

/// The article made of an entry.
pub open spec fn entry_article(e: EntryRecord) -> ArticleModel {
    ArticleModel {
        title: match e.title {
            Some(t) => t@,
            None => untitled(),
        },
        link: if e.links@.len() > 0 {
            e.links@[0]@
        } else {
            no_link()
        },
        excerpt: entry_excerpt(e),
        image_url: entry_image(e),
    }
}

/// The summary of a parsed feed fetched from `source_url`.
pub open spec fn feed_summary(doc: FeedDocument, source_url: Seq<char>) -> FeedDataModel {
    FeedDataModel {
        title: match doc.title {
            Some(t) => t@,
            None => source_url,
        },
        articles: doc.entries@.map_values(|e: EntryRecord| entry_article(e)),
    }
}

fn src_value_end(s: &Vec<char>, k: usize, src: &Vec<char>) -> (r: Option<usize>)
    requires
        src@ == src_attr(),
    ensures
        r matches Some(e) ==> src_value_at(s@, k as int) && e == run_end(s@, k + 5, not_quote()),
        r is None ==> !src_value_at(s@, k as int),
{
    if k >= s.len() || s.len() - k <= 4 || !occurs(s, k, src) {
        return None;
    }
    if !(s[k + 4] == '"' || s[k + 4] == '\'') {
        return None;
    }
    let e = skip_not_quote(s, k + 5);
    if e > k + 5 && e < s.len() {
        Some(e)
    } else {
        None
    }
}

proof fn lemma_last_src_narrower(s: Seq<char>, lo: int, lo2: int, k: int)
    requires
        lo <= lo2,
        last_src(s, lo, k) is None,
    ensures
        last_src(s, lo2, k) is None,
    decreases k - lo,
{
    if k > lo2 {
        lemma_last_src_narrower(s, lo, lo2, k - 1);
    }
}

/// An `<img` whose tag holds no usable `src` rules out every later start
/// before that tag's `>`: they share its end and see less of it.
proof fn lemma_no_img_before_gt(s: Seq<char>, i: int, x: int)
    requires
        0 <= i < x,
        occurs_at(s, i, img_open()),
        img_src_at(s, i) is None,
        x < run_end(s, i + 4, not_gt()),
    ensures
        img_src_at(s, x) is None,
{
    let g = run_end(s, i + 4, not_gt());
    lemma_run_end_bounds(s, i + 4, not_gt());
    if occurs_at(s, x, img_open()) {
        assert forall|k: int| 0 <= k < 4 implies #[trigger] s[x + k] != '>' by {
            assert(folds_to(s[x + k], img_open()[k]));
        }
        if x + 4 > g {
            if g < s.len() {
                assert(s[x + (g - x)] != '>');
            }
        }
        assert(x + 4 <= g);
        assert forall|k: int| i + 4 <= k < x + 4 implies not_gt()(#[trigger] s[k]) by {
            if k >= x {
                assert(s[x + (k - x)] != '>');
            }
        }
        lemma_run_end_skip(s, i + 4, x + 4, not_gt());
        lemma_last_src_narrower(s, i + 4, x + 4, g);
    }
}

proof fn lemma_first_image_skip(s: Seq<char>, i: int, n: int)
    requires
        0 <= i <= n <= s.len(),
        forall|x: int| i <= x < n ==> #[trigger] img_src_at(s, x) is None,
    ensures
        first_image_from(s, i) == first_image_from(s, n),
    decreases n - i,
{
    if i < n {
        assert(img_src_at(s, i) is None);
        lemma_first_image_skip(s, i + 1, n);
    }
}

/// The image at `i`, or else a position up to which no start finds one.
fn find_img_src(s: &Vec<char>, i: usize, img: &Vec<char>, src: &Vec<char>) -> (r: Result<
    Vec<char>,
    usize,
>)
    requires
        i < s.len(),
        img@ == img_open(),
        src@ == src_attr(),
    ensures
        match r {
            Ok(v) => img_src_at(s@, i as int) == Some(v@),
            Err(next) => i < next <= s.len() && forall|x: int|
                i <= x < next ==> #[trigger] img_src_at(s@, x) is None,
        },
{
    if !occurs(s, i, img) {
        return Err(i + 1);
    }
    let g = skip_not_gt(s, i + 4);
    proof { lemma_run_end_bounds(s@, i + 4, not_gt()); }
    let mut k = g;
    while k > i + 4
        invariant
            i + 4 <= k <= g <= s.len(),
            src@ == src_attr(),
            occurs_at(s@, i as int, img_open()),
            g == run_end(s@, i + 4, not_gt()),
            last_src(s@, i + 4, g as int) == last_src(s@, i + 4, k as int),
        decreases k,
    {
        match src_value_end(s, k, src) {
            Some(e) => {
                let mut v: Vec<char> = Vec::new();
                let mut j = k + 5;
                while j < e
                    invariant
                        k + 5 <= j <= e < s.len(),
                        v@ == s@.subrange(k + 5, j as int),
                    decreases e - j,
                {
                    v.push(s[j]);
                    assert(v@ =~= s@.subrange(k + 5, j + 1));
                    j = j + 1;
                }
                assert(last_src(s@, i + 4, k as int) == Some(k as int));
                assert(v@ =~= s@.subrange(k + 5, run_end(s@, k + 5, not_quote())));
                return Ok(v);
            },
            None => {
                k = k - 1;
            },
        }
    }
    assert(img_src_at(s@, i as int) is None);
    proof {
        assert forall|x: int| i <= x < g implies #[trigger] img_src_at(s@, x) is None by {
            if x > i {
                lemma_no_img_before_gt(s@, i as int, x);
            }
        }
    }
    if g > i + 1 {
        Err(g)
    } else {
        Err(i + 1)
    }
}

/// The source of the first `<img ... src="...">` in an HTML body.
pub fn extract_first_image_from_html(html: &str) -> (r: Option<String>)
    ensures
        match r {
            Some(v) => first_image(html@) == Some(v@),
            None => first_image(html@) is None,
        },
{
    let s = chars_of(html);
    let img = vec!['<', 'i', 'm', 'g'];
    let src = vec!['s', 'r', 'c', '='];
    assert(img@ =~= img_open());
    assert(src@ =~= src_attr());
    let mut i: usize = 0;
    while i < s.len()
        invariant
            i <= s.len(),
            s@ == html@,
            img@ == img_open(),
            src@ == src_attr(),
            first_image(html@) == first_image_from(s@, i as int),
        decreases s.len() - i,
    {
        match find_img_src(&s, i, &img, &src) {
            Ok(v) => {
                return Some(string_of(&v));
            },
            Err(next) => {
                proof {
                    lemma_first_image_skip(s@, i as int, next as int);
                }
                i = next;
            },
        }
    }
    None
}

/// The lead image of an entry, by the priority of `entry_image`.
pub fn extract_image_url(entry: &EntryRecord) -> (r: Option<String>)
    ensures
        crate::article::opt_view(r) == entry_image(*entry),
{
    if entry.media.len() > 0 {
        let media = &entry.media[0];
        if media.content_urls.len() > 0 {
            match &media.content_urls[0] {
                Some(url) => {
                    return Some(url.clone());
                },
                None => {},
            }
        }
        if media.thumbnails.len() > 0 {
            return Some(media.thumbnails[0].clone());
        }
    }
    match &entry.content_body {
        Some(body) => extract_first_image_from_html(body.as_str()),
        None => None,
    }
}

/// The article made of one entry, with the documented defaults.
pub fn article_from_entry(entry: &EntryRecord) -> (r: Article)
    ensures
        r@ == entry_article(*entry),
{
    let title = match &entry.title {
        Some(t) => t.clone(),
        None => "Untitled".to_string(),
    };
    let link = if entry.links.len() > 0 {
        entry.links[0].clone()
    } else {
        "No link".to_string()
    };
    let excerpt = match &entry.summary {
        Some(t) => Some(sanitize_html(t.as_str())),
        None => match &entry.content_body {
            Some(b) => Some(sanitize_html(b.as_str())),
            None => None,
        },
    };
    let image_url = extract_image_url(entry);
    Article::new(title, link).with_excerpt(excerpt).with_image(image_url)
}

/// The summary of a parsed feed fetched from `source_url`: the feed's title
/// (the URL when it declares none) and one article per entry, in order.
pub fn summarize_feed(doc: &FeedDocument, source_url: &str) -> (r: FeedData)
    ensures
        r@ == feed_summary(*doc, source_url@),
{
    let title = match &doc.title {
        Some(t) => t.clone(),
        None => source_url.to_string(),
    };
    let mut articles: Vec<Article> = Vec::new();
    let mut i: usize = 0;
    while i < doc.entries.len()
        invariant
            i <= doc.entries.len(),
            articles@.map_values(|a: Article| a@) =~= doc.entries@.take(i as int).map_values(
                |e: EntryRecord| entry_article(e),
            ),
        decreases doc.entries.len() - i,
    {
        let a = article_from_entry(&doc.entries[i]);
        let ghost before = articles@;
        articles.push(a);
        assert(articles@.map_values(|a: Article| a@) =~= before.map_values(|a: Article| a@).push(
            a@,
        ));
        assert(doc.entries@.take(i + 1) =~= doc.entries@.take(i as int).push(doc.entries@[i as int]));
        i = i + 1;
    }
    assert(doc.entries@.take(i as int) =~= doc.entries@);
    FeedData { title, articles }
}

/// A feed that declares no title is named by the URL it was fetched from.
pub proof fn lemma_untitled_feed_named_by_url(doc: FeedDocument, source_url: Seq<char>)
    requires
        doc.title is None,
    ensures
        feed_summary(doc, source_url).title == source_url,
{
}

/// Every entry yields an article, in document order: none is dropped.
pub proof fn lemma_one_article_per_entry(doc: FeedDocument, source_url: Seq<char>)
    ensures
        feed_summary(doc, source_url).articles.len() == doc.entries@.len(),
        forall|k: int|
            0 <= k < doc.entries@.len() ==> #[trigger] feed_summary(doc, source_url).articles[k]
                == entry_article(doc.entries@[k]),
{
}

/// An entry with neither summary nor content has no excerpt (not an empty one).
pub proof fn lemma_no_text_no_excerpt(e: EntryRecord)
    requires
        e.summary is None,
        e.content_body is None,
    ensures
        entry_article(e).excerpt is None,
{
}

/// An entry with neither title nor link is kept, as "Untitled" with "No link".
pub proof fn lemma_entry_defaults(e: EntryRecord)
    requires
        e.title is None,
        e.links@.len() == 0,
    ensures
        entry_article(e).title == untitled(),
        entry_article(e).link == no_link(),
{
}

/// Why reading a feed failed.
#[derive(Debug, Clone)]
pub enum FeedError {
    /// The network request failed or was not answered with success.
    Fetch(String),
    /// The response body could not be read as text.
    Decode(String),
    /// The text is not a recognisable RSS, Atom or JSON feed.
    Parse(String),
}

impl FeedError {
    /// A human-readable description, with the underlying cause.
    pub fn message(&self) -> (r: String)
        ensures
            r@ == match self {
                FeedError::Fetch(c) => "Failed to fetch feed: "@ + c@,
                FeedError::Decode(c) => "Failed to read feed content: "@ + c@,
                FeedError::Parse(c) => "Failed to parse feed: "@ + c@,
            },
    {
        let (prefix, cause) = match self {
            FeedError::Fetch(c) => ("Failed to fetch feed: ", c),
            FeedError::Decode(c) => ("Failed to read feed content: ", c),
            FeedError::Parse(c) => ("Failed to parse feed: ", c),
        };
        prefix.to_string().concat(cause.as_str())
    }
}

/// What feed-rs reads from a feed text: `None` when it is no RSS, Atom or
/// JSON feed, otherwise the fields of the feed and its entries that the
/// reader keeps. It depends on the text alone.
pub uninterp spec fn feed_read(text: Seq<char>) -> Option<FeedDocument>;

/// Relies on `feed_rs::parser::parse`: reads an RSS, Atom or JSON feed and
/// copies out the title text, link targets, summary text, content body and
/// media URLs, or gives the parser's reason for refusing the text. The parser
/// aborts on play-time attributes and `itunes:duration` texts whose digits do
/// not fit in `u64` or are not ASCII, and can read a text as UTF-16 when it
/// holds NUL or declares such an encoding; `parser_safe` keeps those away.
#[verifier::external_body]
fn read_document(text: &str) -> (r: Result<FeedDocument, String>)
    requires
        parser_safe(text@),
    ensures
        r is Ok <==> feed_read(text@) is Some,
        r matches Ok(d) ==> feed_read(text@) == Some(d),
{
    let feed = feed_rs::parser::parse(text.as_bytes()).map_err(|e| e.to_string())?;
    let entries = feed.entries.iter().map(entry_record).collect();
    Ok(FeedDocument { title: feed.title.map(|t| t.content), entries })
}

#[verifier::external_type_specification]
#[verifier::external_body]
pub struct ExParsedEntry(feed_rs::model::Entry);

/// Relies on `feed_rs::model::Entry`'s public fields: copies the title text,
/// link targets, summary text, content body and media URLs of an entry, for
/// `read_document`, whose contract covers the result.
#[verifier::external_body]
fn entry_record(e: &feed_rs::model::Entry) -> EntryRecord {
    EntryRecord {
        title: e.title.as_ref().map(|t| t.content.clone()),
        links: e.links.iter().map(|l| l.href.clone()).collect(),
        summary: e.summary.as_ref().map(|t| t.content.clone()),
        content_body: e.content.as_ref().and_then(|c| c.body.clone()),
        media: e.media.iter().map(|m| MediaRecord {
            content_urls: m.content.iter().map(|c| c.url.as_ref().map(|u| u.to_string())).collect(),
            thumbnails: m.thumbnails.iter().map(|t| t.image.uri.clone()).collect(),
        }).collect(),
    }
}

/// Parses feed text into a document. Texts that are no feed, and the texts
/// `parser_safe` refuses (over-long or non-ASCII play times, NUL, a UTF-16
/// encoding declaration), fail with `FeedError::Parse`; otherwise the
/// document is what the parser reads.
pub fn parse_document_text(raw_text: &str) -> (r: Result<FeedDocument, FeedError>)
    ensures
        r matches Err(e) ==> e is Parse,
        r is Ok <==> parser_safe(raw_text@) && feed_read(raw_text@) is Some,
        r matches Ok(d) ==> feed_read(raw_text@) == Some(d),
{
    let chars = chars_of(raw_text);
    if !parser_safe_text(&chars) {
        return Err(FeedError::Parse("unsupported play time, character or encoding".to_string()));
    }
    match read_document(raw_text) {
        Ok(doc) => Ok(doc),
        Err(cause) => Err(FeedError::Parse(cause)),
    }
}

/// Reads fetched feed text into a summary: fails with `FeedError::Parse`
/// exactly when the text is refused by `parser_safe` or is no feed;
/// otherwise the summary is `summarize_feed` of the parsed document, so
/// entries with missing fields still yield articles.
pub fn parse_feed(raw_text: &str, source_url: &str) -> (r: Result<FeedData, FeedError>)
    ensures
        r matches Err(e) ==> e is Parse,
        r is Ok <==> parser_safe(raw_text@) && feed_read(raw_text@) is Some,
        r matches Ok(d) ==> d@ == feed_summary(feed_read(raw_text@)->Some_0, source_url@),
{
    match parse_document_text(raw_text) {
        Ok(doc) => Ok(summarize_feed(&doc, source_url)),
        Err(e) => Err(e),
    }
}

} // verus!
