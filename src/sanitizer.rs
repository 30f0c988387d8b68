//! Turns feed-supplied HTML fragments into bounded plain-text excerpts.
//!
//! This is a best-effort textual defence, not an HTML sanitiser: the result
//! is meant to be shown as plain text and is unsuitable for rendering as HTML.
use vstd::prelude::*;
use crate::markup::{markup_stripped, run_end, skip_space, space_class, strip_markup};
use crate::text::{chars_of, is_space, space, string_of};

verus! {

/// The most characters (Unicode scalar values) an excerpt holds.
pub const EXCERPT_LIMIT: usize = 500;

/// What `html_escape::decode_html_entities` makes of a text.
pub uninterp spec fn entities_decoded(s: Seq<char>) -> Seq<char>;

/// Relies on `html_escape::decode_html_entities`: the text with its
/// character references decoded; a text without `&` is returned as it is.
#[verifier::external_body]
fn decode_entities(s: &str) -> (r: String)
    ensures
        r@ == entities_decoded(s@),
        !s@.contains('&') ==> r@ == s@,
{
    html_escape::decode_html_entities(s).into_owned()
}

/// The position just after the last character of `s[..q]` that is not whitespace
/// (0 if there is none).
pub open spec fn trim_end_index(s: Seq<char>, q: int) -> int
    decreases q,
{
    if q <= 0 || !is_space(s[q - 1]) {
        q
    } else {
        trim_end_index(s, q - 1)
    }
}

/// `s` without leading and trailing whitespace.
pub open spec fn trimmed(s: Seq<char>) -> Seq<char> {
    let a = run_end(s, 0, space_class());
    let b = trim_end_index(s, s.len() as int);
    if a < b {
        s.subrange(a, b)
    } else {
        Seq::empty()
    }
}

/// The first `EXCERPT_LIMIT` characters of `s`.
pub open spec fn capped(s: Seq<char>) -> Seq<char> {
    if s.len() <= EXCERPT_LIMIT {
        s
    } else {
        s.take(EXCERPT_LIMIT as int)
    }
}

/// The excerpt made of a feed-supplied fragment: markup removed, entities
/// decoded, whitespace trimmed, at most `EXCERPT_LIMIT` characters.
pub open spec fn sanitized(s: Seq<char>) -> Seq<char> {
    capped(trimmed(entities_decoded(markup_stripped(s))))
}

proof fn lemma_trim_end_bounds(s: Seq<char>, q: int)
    requires
        0 <= q <= s.len(),
    ensures
        0 <= trim_end_index(s, q) <= q,
        forall|k: int| trim_end_index(s, q) <= k < q ==> is_space(#[trigger] s[k]),
    decreases q,
{
    if q > 0 && is_space(s[q - 1]) {
        lemma_trim_end_bounds(s, q - 1);
    }
}

/// `s` trimmed and cut to `EXCERPT_LIMIT` characters.
pub fn trim_and_cap(s: &Vec<char>) -> (r: Vec<char>)
    ensures
        r@ == capped(trimmed(s@)),
{
    let a = skip_space(s, 0);
    proof {
        crate::markup::lemma_run_end_bounds(s@, 0, space_class());
    }
    let mut b = s.len();
    while b > a && space(s[b - 1])
        invariant
            a <= b <= s.len(),
            trim_end_index(s@, s.len() as int) == trim_end_index(s@, b as int),
        decreases b,
    {
        b = b - 1;
    }
    proof {
        lemma_trim_end_bounds(s@, b as int);
        if b == a && a > 0 {
            // everything before `a` is whitespace, so the trailing scan reaches 0
            lemma_all_space_trims_to(s@, b as int);
        }
    }
    let end = if b - a > EXCERPT_LIMIT { a + EXCERPT_LIMIT } else { b };
    let mut out: Vec<char> = Vec::new();
    let mut k = a;
    while k < end
        invariant
            a <= k <= end <= b <= s.len(),
            out@ == s@.subrange(a as int, k as int),
        decreases end - k,
    {
        out.push(s[k]);
        assert(out@ =~= s@.subrange(a as int, k + 1));
        k = k + 1;
    }
    assert(out@ =~= capped(trimmed(s@)));
    out
}

proof fn lemma_all_space_trims_to(s: Seq<char>, q: int)
    requires
        0 <= q <= s.len(),
        forall|k: int| 0 <= k < q ==> is_space(#[trigger] s[k]),
    ensures
        trim_end_index(s, q) == 0,
    decreases q,
{
    if q > 0 {
        lemma_all_space_trims_to(s, q - 1);
    }
}

/// Sanitises a feed-supplied HTML fragment into a plain-text excerpt: removes
/// script, style and iframe blocks, event-handler attributes, the
/// `javascript:` scheme and all remaining tags, decodes entities, trims, and
/// keeps at most `EXCERPT_LIMIT` characters. Never fails.
pub fn sanitize_html(content: &str) -> (r: String)
    ensures
        r@ == sanitized(content@),
        r@.len() <= EXCERPT_LIMIT,
        !markup_stripped(content@).contains('&') ==> r@ == capped(trimmed(markup_stripped(content@))),
{
    let cs = chars_of(content);
    let stripped = string_of(&strip_markup(&cs));
    let decoded = decode_entities(stripped.as_str());
    let excerpt = trim_and_cap(&chars_of(decoded.as_str()));
    string_of(&excerpt)
}

} // verus!
