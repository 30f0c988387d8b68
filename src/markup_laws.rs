//! Properties of the markup rules: how their scans depend only on the text
//! ahead, and what the sanitiser guarantees as a result.
use vstd::prelude::*;
use crate::markup::{
    block_name, close_end, close_tag, folds_to, handler_end, is_ascii_word_char, is_quote,
    is_word_char, lemma_no_match_span, lemma_rule_end_bounds, lemma_run_end_bounds,
    lemma_run_end_skip, markup_stripped, not_char, not_gt, not_quote, occurs_at, on_prefix,
    open_tag, removed, removed_from, rule_end, run_end, scheme_token, script_name, space_class,
    word_class, Rule,
};
use crate::sanitizer::sanitized;
use crate::text::is_space;

verus! {

/// `s1` from `i1` on and `s2` from `i2` on are the same text.
pub open spec fn same_from(s1: Seq<char>, i1: int, s2: Seq<char>, i2: int) -> bool {
    &&& 0 <= i1 <= s1.len()
    &&& 0 <= i2 <= s2.len()
    &&& s1.len() - i1 == s2.len() - i2
    &&& forall|k: int| 0 <= k < s1.len() - i1 ==> #[trigger] s1[i1 + k] == s2[i2 + k]
}

/// A match end found at `i1` in `s1`, seen from `s2` at `i2`.
pub open spec fn shifted(o: Option<int>, i1: int, i2: int) -> Option<int> {
    match o {
        Some(e) => Some(e - i1 + i2),
        None => None,
    }
}

proof fn lemma_same_from_advance(s1: Seq<char>, i1: int, s2: Seq<char>, i2: int, d: int)
    requires
        same_from(s1, i1, s2, i2),
        0 <= d <= s1.len() - i1,
    ensures
        same_from(s1, i1 + d, s2, i2 + d),
{
    assert forall|k: int| 0 <= k < s1.len() - (i1 + d) implies #[trigger] s1[i1 + d + k] == s2[i2
        + d + k] by {
        assert(s1[i1 + (d + k)] == s2[i2 + (d + k)]);
    }
}

proof fn lemma_occurs_shift(s1: Seq<char>, i1: int, s2: Seq<char>, i2: int, pat: Seq<char>)
    requires
        same_from(s1, i1, s2, i2),
    ensures
        occurs_at(s1, i1, pat) == occurs_at(s2, i2, pat),
{
    if occurs_at(s1, i1, pat) {
        assert forall|k: int| 0 <= k < pat.len() implies folds_to(#[trigger] s2[i2 + k], pat[k]) by {
            assert(s1[i1 + k] == s2[i2 + k]);
        }
    }
    if occurs_at(s2, i2, pat) {
        assert forall|k: int| 0 <= k < pat.len() implies folds_to(#[trigger] s1[i1 + k], pat[k]) by {
            assert(s1[i1 + k] == s2[i2 + k]);
        }
    }
}

proof fn lemma_run_end_shift(s1: Seq<char>, i1: int, s2: Seq<char>, i2: int, f: spec_fn(char) -> bool)
    requires
        same_from(s1, i1, s2, i2),
    ensures
        run_end(s1, i1, f) - i1 == run_end(s2, i2, f) - i2,
    decreases s1.len() - i1,
{
    if i1 < s1.len() {
        assert(s1[i1 + 0] == s2[i2 + 0]);
        if f(s1[i1]) {
            lemma_same_from_advance(s1, i1, s2, i2, 1);
            lemma_run_end_shift(s1, i1 + 1, s2, i2 + 1, f);
        }
    }
}

proof fn lemma_close_end_shift(s1: Seq<char>, i1: int, s2: Seq<char>, i2: int, close: Seq<char>)
    requires
        same_from(s1, i1, s2, i2),
    ensures
        shifted(close_end(s1, i1, close), i1, i2) == close_end(s2, i2, close),
    decreases s1.len() - i1,
{
    if i1 < s1.len() {
        assert(s1[i1 + 0] == s2[i2 + 0]);
        lemma_occurs_shift(s1, i1, s2, i2, close);
        if !occurs_at(s1, i1, close) {
            lemma_same_from_advance(s1, i1, s2, i2, 1);
            lemma_close_end_shift(s1, i1 + 1, s2, i2 + 1, close);
        }
    }
}

/// Where a rule's match starts depends only on the text from there on.
pub proof fn lemma_rule_end_shift(r: Rule, s1: Seq<char>, i1: int, s2: Seq<char>, i2: int)
    requires
        same_from(s1, i1, s2, i2),
        i1 < s1.len(),
    ensures
        shifted(rule_end(r, s1, i1), i1, i2) == rule_end(r, s2, i2),
{
    assert(s1[i1 + 0] == s2[i2 + 0]);
    match r {
        Rule::Script | Rule::Style | Rule::Iframe => {
            let name = block_name(r);
            lemma_occurs_shift(s1, i1, s2, i2, open_tag(name));
            if occurs_at(s1, i1, open_tag(name)) {
                let d = (1 + name.len()) as int;
                lemma_same_from_advance(s1, i1, s2, i2, d);
                lemma_run_end_shift(s1, i1 + d, s2, i2 + d, not_gt());
                lemma_run_end_bounds(s1, i1 + d, not_gt());
                let g1 = run_end(s1, i1 + d, not_gt());
                let g2 = run_end(s2, i2 + d, not_gt());
                if g1 < s1.len() {
                    lemma_same_from_advance(s1, i1, s2, i2, g1 + 1 - i1);
                    lemma_close_end_shift(s1, g1 + 1, s2, g2 + 1, close_tag(name));
                }
            }
        },
        Rule::EventHandler => {
            lemma_occurs_shift(s1, i1, s2, i2, on_prefix());
            if occurs_at(s1, i1, on_prefix()) {
                lemma_same_from_advance(s1, i1, s2, i2, 2);
                lemma_run_end_shift(s1, i1 + 2, s2, i2 + 2, word_class());
                lemma_run_end_bounds(s1, i1 + 2, word_class());
                let b1 = run_end(s1, i1 + 2, word_class());
                let b2 = run_end(s2, i2 + 2, word_class());
                lemma_same_from_advance(s1, i1, s2, i2, b1 - i1);
                lemma_run_end_shift(s1, b1, s2, b2, space_class());
                lemma_run_end_bounds(s1, b1, space_class());
                let c1 = run_end(s1, b1, space_class());
                let c2 = run_end(s2, b2, space_class());
                if c1 < s1.len() {
                    assert(s1[i1 + (c1 - i1)] == s2[i2 + (c1 - i1)]);
                    lemma_same_from_advance(s1, i1, s2, i2, c1 + 1 - i1);
                    lemma_run_end_shift(s1, c1 + 1, s2, c2 + 1, space_class());
                    lemma_run_end_bounds(s1, c1 + 1, space_class());
                    let d1 = run_end(s1, c1 + 1, space_class());
                    let d2 = run_end(s2, c2 + 1, space_class());
                    if d1 < s1.len() {
                        assert(s1[i1 + (d1 - i1)] == s2[i2 + (d1 - i1)]);
                        lemma_same_from_advance(s1, i1, s2, i2, d1 + 1 - i1);
                        lemma_run_end_shift(s1, d1 + 1, s2, d2 + 1, not_char(s1[d1]));
                    }
                }
            }
        },
        Rule::ScriptScheme => {
            lemma_occurs_shift(s1, i1, s2, i2, scheme_token());
        },
        Rule::Tag => {
            if i1 + 1 < s1.len() {
                assert(s1[i1 + 1] == s2[i2 + 1]);
                lemma_same_from_advance(s1, i1, s2, i2, 1);
                lemma_run_end_shift(s1, i1 + 1, s2, i2 + 1, not_gt());
            }
        },
    }
}

/// What a rule leaves of the text ahead depends only on that text.
pub proof fn lemma_removed_from_shift(r: Rule, s1: Seq<char>, i1: int, s2: Seq<char>, i2: int)
    requires
        same_from(s1, i1, s2, i2),
    ensures
        removed_from(r, s1, i1) == removed_from(r, s2, i2),
    decreases s1.len() - i1,
{
    if i1 < s1.len() {
        lemma_rule_end_shift(r, s1, i1, s2, i2);
        lemma_rule_end_bounds(r, s1, i1);
        assert(s1[i1 + 0] == s2[i2 + 0]);
        match rule_end(r, s1, i1) {
            Some(e) => {
                lemma_same_from_advance(s1, i1, s2, i2, e - i1);
                lemma_removed_from_shift(r, s1, e, s2, e - i1 + i2);
            },
            None => {
                lemma_same_from_advance(s1, i1, s2, i2, 1);
                lemma_removed_from_shift(r, s1, i1 + 1, s2, i2 + 1);
            },
        }
    }
}

/// A script element written `<script` attrs `>` body `</script>`.
pub open spec fn script_block(attrs: Seq<char>, body: Seq<char>) -> Seq<char> {
    open_tag(script_name()) + attrs + seq!['>'] + body + close_tag(script_name())
}

/// Rules whose matches begin with `<`.
pub open spec fn starts_at_lt(r: Rule) -> bool {
    r == Rule::Script || r == Rule::Style || r == Rule::Iframe || r == Rule::Tag
}

proof fn lemma_match_needs_lt(r: Rule, s: Seq<char>, i: int)
    requires
        starts_at_lt(r),
        0 <= i < s.len(),
        s[i] != '<',
    ensures
        rule_end(r, s, i) is None,
{
    if r != Rule::Tag {
        let pat = open_tag(block_name(r));
        assert(pat[0] == '<');
        if occurs_at(s, i, pat) {
            assert(folds_to(s[i + 0], pat[0]));
        }
    }
}

/// Text without `<` passes through such a rule unchanged.
proof fn lemma_plain_prefix(r: Rule, s: Seq<char>, i: int, n: int)
    requires
        starts_at_lt(r),
        0 <= i <= n <= s.len(),
        forall|k: int| i <= k < n ==> #[trigger] s[k] != '<',
    ensures
        removed_from(r, s, i) == s.subrange(i, n) + removed_from(r, s, n),
    decreases n - i,
{
    if i < n {
        lemma_match_needs_lt(r, s, i);
        lemma_plain_prefix(r, s, i + 1, n);
        assert(s.subrange(i, n) =~= seq![s[i]] + s.subrange(i + 1, n));
    } else {
        assert(s.subrange(i, n) =~= Seq::<char>::empty());
    }
}

proof fn lemma_close_scan(s: Seq<char>, p: int, q: int, close: Seq<char>)
    requires
        0 <= p <= q,
        close.len() > 0,
        occurs_at(s, q, close),
        forall|k: int| p <= k < q ==> !occurs_at(s, k, close),
    ensures
        close_end(s, p, close) == Some(q + close.len()),
    decreases q - p,
{
    if p < q {
        lemma_close_scan(s, p + 1, q, close);
    }
}

/// `pat` occurs nowhere in `s`.
pub open spec fn nowhere(s: Seq<char>, pat: Seq<char>) -> bool {
    forall|i: int| 0 <= i < s.len() ==> !#[trigger] occurs_at(s, i, pat)
}

/// Where `s1` from `i1` and `s2` from `i2` agree on `pat.len()` characters,
/// `pat` occurs at both or at neither.
proof fn lemma_occurs_same(s1: Seq<char>, i1: int, s2: Seq<char>, i2: int, pat: Seq<char>)
    requires
        0 <= i1,
        0 <= i2,
        i1 + pat.len() <= s1.len(),
        i2 + pat.len() <= s2.len(),
        forall|k: int| 0 <= k < pat.len() ==> #[trigger] s1[i1 + k] == s2[i2 + k],
    ensures
        occurs_at(s1, i1, pat) == occurs_at(s2, i2, pat),
{
    if occurs_at(s1, i1, pat) {
        assert forall|k: int| 0 <= k < pat.len() implies folds_to(#[trigger] s2[i2 + k], pat[k]) by {
            assert(s1[i1 + k] == s2[i2 + k]);
        }
    }
    if occurs_at(s2, i2, pat) {
        assert forall|k: int| 0 <= k < pat.len() implies folds_to(#[trigger] s1[i1 + k], pat[k]) by {
            assert(s1[i1 + k] == s2[i2 + k]);
        }
    }
}

/// A pattern whose only `<` is its first character cannot occur across a
/// `<` that is not where it starts.
proof fn lemma_occurs_not_across_lt(s: Seq<char>, i: int, m: int, pat: Seq<char>)
    requires
        i < m < i + pat.len(),
        0 <= m < s.len(),
        s[m] == '<',
        forall|k: int| 1 <= k < pat.len() ==> #[trigger] pat[k] != '<' && 'a' <= pat[k] || pat[k]
            == '/' || pat[k] == '>',
    ensures
        !occurs_at(s, i, pat),
{
    if occurs_at(s, i, pat) {
        assert(folds_to(s[i + (m - i)], pat[m - i]));
    }
}

/// A script block vanishes whole, its body included, also when the body
/// spans lines: where neither the text around it nor that text joined holds
/// `<script`, its attributes hold no `>` and its body no `</script>`, the text
/// is stripped and sanitised exactly as the text around it alone.
pub proof fn lemma_script_block_vanishes(
    pre: Seq<char>,
    attrs: Seq<char>,
    body: Seq<char>,
    post: Seq<char>,
)
    requires
        nowhere(pre + post, open_tag(script_name())),
        forall|k: int| 0 <= k < attrs.len() ==> #[trigger] attrs[k] != '>',
        nowhere(body, close_tag(script_name())),
    ensures
        removed(Rule::Script, pre + script_block(attrs, body) + post) == pre + post,
        markup_stripped(pre + script_block(attrs, body) + post) == markup_stripped(pre + post),
        sanitized(pre + script_block(attrs, body) + post) == sanitized(pre + post),
{
    let open = open_tag(script_name());
    let close = close_tag(script_name());
    let blk = script_block(attrs, body);
    let x = pre + blk + post;
    let y = pre + post;
    let p = pre.len() as int;
    let na = attrs.len() as int;
    let nb = body.len() as int;
    let n = blk.len() as int;
    assert(open.len() == 7);
    assert(close.len() == 9);
    assert(n == 17 + na + nb);
    assert forall|k: int| 1 <= k < open.len() implies #[trigger] open[k] != '<' && 'a' <= open[k]
        || open[k] == '/' || open[k] == '>' by {}
    assert forall|k: int| 1 <= k < close.len() implies #[trigger] close[k] != '<' && 'a' <= close[k]
        || close[k] == '/' || close[k] == '>' by {}
    assert forall|k: int| 0 <= k < p implies #[trigger] x[k] == y[k] by {}
    assert forall|k: int| 0 <= k < post.len() implies #[trigger] x[p + n + k] == y[p + k] by {}
    assert forall|k: int| 0 <= k < n implies #[trigger] x[p + k] == blk[k] by {}
    // the block matches where it starts
    assert forall|k: int| 0 <= k < open.len() implies folds_to(#[trigger] x[p + k], open[k]) by {
        assert(x[p + k] == blk[k]);
    }
    assert(occurs_at(x, p, open));
    assert forall|k: int| p + 7 <= k < p + 7 + na implies not_gt()(#[trigger] x[k]) by {
        assert(x[p + (k - p)] == blk[k - p]);
        assert(blk[k - p] == attrs[k - p - 7]);
    }
    lemma_run_end_skip(x, p + 7, p + 7 + na, not_gt());
    assert(x[p + (7 + na)] == blk[7 + na]);
    assert(run_end(x, p + 7, not_gt()) == p + 7 + na);
    let q = p + 8 + na + nb;
    assert forall|k: int| 0 <= k < close.len() implies folds_to(#[trigger] x[q + k], close[k]) by {
        assert(x[p + (8 + na + nb + k)] == blk[8 + na + nb + k]);
    }
    assert(occurs_at(x, q, close));
    assert(x[q] == '<') by {
        assert(x[p + (8 + na + nb)] == blk[8 + na + nb]);
    }
    assert forall|k: int| p + 8 + na <= k < q implies !occurs_at(x, k, close) by {
        if k + 9 <= q {
            assert forall|j: int| 0 <= j < close.len() implies #[trigger] x[k + j] == body[k - p - 8
                - na + j] by {
                assert(x[p + (k - p + j)] == blk[k - p + j]);
            }
            lemma_occurs_same(x, k, body, k - p - 8 - na, close);
            assert(!occurs_at(body, k - p - 8 - na, close));
        } else {
            lemma_occurs_not_across_lt(x, k, q, close);
        }
    }
    lemma_close_scan(x, p + 8 + na, q, close);
    assert(rule_end(Rule::Script, x, p) == Some(p + n));
    // no other match, before or after
    assert forall|i: int| 0 <= i < p implies #[trigger] rule_end(Rule::Script, x, i) is None by {
        if i + 7 <= p {
            assert forall|j: int| 0 <= j < open.len() implies #[trigger] x[i + j] == y[i + j] by {}
            lemma_occurs_same(x, i, y, i, open);
            assert(!occurs_at(y, i, open));
        } else {
            lemma_occurs_not_across_lt(x, i, p, open);
        }
    }
    assert forall|i: int| p + n <= i < x.len() implies #[trigger] rule_end(Rule::Script, x, i)
        is None by {
        if i + 7 <= x.len() {
            assert forall|j: int| 0 <= j < open.len() implies #[trigger] x[i + j] == y[i - n + j] by {
                assert(x[p + n + (i - p - n + j)] == y[p + (i - p - n + j)]);
            }
            lemma_occurs_same(x, i, y, i - n, open);
            assert(!occurs_at(y, i - n, open));
        }
    }
    lemma_no_match_span(Rule::Script, x, 0, p);
    lemma_no_match_span(Rule::Script, x, p + n, x.len() as int);
    assert(removed_from(Rule::Script, x, x.len() as int) == Seq::<char>::empty());
    assert(x.subrange(0, p) + (x.subrange(p + n, x.len() as int) + Seq::<char>::empty()) =~= y);
    // the text around it is left as it is
    assert forall|i: int| 0 <= i < y.len() implies #[trigger] rule_end(Rule::Script, y, i) is None by {
        assert(!occurs_at(y, i, open));
    }
    assert(untouched_by(Rule::Script, y));
    lemma_untouched_unchanged(Rule::Script, y, 0);
    assert(y.subrange(0, y.len() as int) =~= y);
}

/// No match of rule `r` starts anywhere in `s`.
pub open spec fn untouched_by(r: Rule, s: Seq<char>) -> bool {
    forall|i: int| 0 <= i < s.len() ==> #[trigger] rule_end(r, s, i) is None
}

proof fn lemma_untouched_unchanged(r: Rule, s: Seq<char>, j: int)
    requires
        untouched_by(r, s),
        0 <= j <= s.len(),
    ensures
        removed_from(r, s, j) == s.subrange(j, s.len() as int),
    decreases s.len() - j,
{
    if j < s.len() {
        assert(rule_end(r, s, j) is None);
        lemma_untouched_unchanged(r, s, j + 1);
        assert(s.subrange(j, s.len() as int) =~= seq![s[j]] + s.subrange(j + 1, s.len() as int));
    } else {
        assert(s.subrange(j, s.len() as int) =~= Seq::<char>::empty());
    }
}

/// What the tag rule leaves from `j` on holds no tag, and no `>` where the
/// text from `j` on held none.
proof fn lemma_tags_gone_from(t: Seq<char>, j: int)
    requires
        0 <= j <= t.len(),
    ensures
        untouched_by(Rule::Tag, removed_from(Rule::Tag, t, j)),
        (forall|k: int| j <= k < t.len() ==> #[trigger] t[k] != '>') ==> (forall|k: int|
            0 <= k < removed_from(Rule::Tag, t, j).len() ==> #[trigger] removed_from(
                Rule::Tag,
                t,
                j,
            )[k] != '>'),
    decreases t.len() - j,
{
    let w = removed_from(Rule::Tag, t, j);
    if j < t.len() {
        lemma_rule_end_bounds(Rule::Tag, t, j);
        match rule_end(Rule::Tag, t, j) {
            Some(e) => {
                lemma_tags_gone_from(t, e);
            },
            None => {
                lemma_tags_gone_from(t, j + 1);
                let rest = removed_from(Rule::Tag, t, j + 1);
                let c = t[j];
                assert(w == seq![c] + rest);
                assert forall|i: int| 0 <= i < w.len() implies #[trigger] rule_end(Rule::Tag, w, i)
                    is None by {
                    if i > 0 {
                        assert forall|k: int| 0 <= k < w.len() - i implies #[trigger] w[i + k]
                            == rest[i - 1 + k] by {}
                        lemma_rule_end_shift(Rule::Tag, w, i, rest, i - 1);
                        assert(rule_end(Rule::Tag, rest, i - 1) is None);
                    } else if c == '<' && w.len() > 1 && w[1] != '>' {
                        // the tag rule passed over `<` in `t`, so no `>` follows it there
                        if j + 1 < t.len() && t[j + 1] == '>' {
                            assert(rule_end(Rule::Tag, t, j + 1) is None);
                            assert(rest[0] == '>');
                        }
                        lemma_run_end_bounds(t, j + 1, not_gt());
                        assert(run_end(t, j + 1, not_gt()) >= t.len());
                        assert forall|k: int| j + 1 <= k < t.len() implies #[trigger] t[k] != '>' by {
                            assert(not_gt()(t[k]));
                        }
                        lemma_run_end_bounds(w, 1, not_gt());
                        let g = run_end(w, 1, not_gt());
                        if g < w.len() {
                            assert(w[g] == rest[g - 1]);
                        }
                    }
                }
                if forall|k: int| j <= k < t.len() ==> #[trigger] t[k] != '>' {
                    assert forall|k: int| 0 <= k < w.len() implies #[trigger] w[k] != '>' by {
                        if k > 0 {
                            assert(w[k] == rest[k - 1]);
                        }
                    }
                }
            },
        }
    }
}

proof fn lemma_block_implies_tag(r: Rule, s: Seq<char>, i: int)
    requires
        r == Rule::Script || r == Rule::Style || r == Rule::Iframe,
        0 <= i < s.len(),
        rule_end(r, s, i) is Some,
    ensures
        rule_end(Rule::Tag, s, i) is Some,
{
    let name = block_name(r);
    let open = open_tag(name);
    assert(open[0] == '<');
    assert(folds_to(s[i + 0], open[0]));
    assert forall|k: int| i + 1 <= k < i + 1 + name.len() implies not_gt()(#[trigger] s[k]) by {
        assert(folds_to(s[i + (k - i)], open[k - i]));
        assert(open[k - i] == name[k - i - 1]);
        assert('a' <= name[k - i - 1] && name[k - i - 1] <= 'z');
    }
    lemma_run_end_skip(s, i + 1, i + 1 + name.len(), not_gt());
}

/// What the markup rules leave holds no tag: every `<` left in it is the
/// last character, or is directly followed by `>`, or has no `>` after it.
pub proof fn lemma_no_tag_left(s: Seq<char>)
    ensures
        untouched_by(Rule::Tag, markup_stripped(s)),
{
    let t = removed(Rule::ScriptScheme, removed(Rule::EventHandler, removed(Rule::Iframe,
        removed(Rule::Style, removed(Rule::Script, s)))));
    lemma_tags_gone_from(t, 0);
}

/// The markup rules leave no complete tag behind: running the tag rule, or
/// the script, style or iframe rule, again on what they leave changes
/// nothing. (The event-handler and `javascript:` rules can find new matches
/// formed by the removals, so they are not included.)
pub proof fn lemma_markup_rules_settled(s: Seq<char>)
    ensures
        removed(Rule::Tag, markup_stripped(s)) == markup_stripped(s),
        removed(Rule::Script, markup_stripped(s)) == markup_stripped(s),
        removed(Rule::Style, markup_stripped(s)) == markup_stripped(s),
        removed(Rule::Iframe, markup_stripped(s)) == markup_stripped(s),
{
    let u = markup_stripped(s);
    let t = removed(Rule::ScriptScheme, removed(Rule::EventHandler, removed(Rule::Iframe,
        removed(Rule::Style, removed(Rule::Script, s)))));
    assert(u == removed_from(Rule::Tag, t, 0));
    lemma_tags_gone_from(t, 0);
    assert forall|r: Rule| r == Rule::Script || r == Rule::Style || r == Rule::Iframe implies
        untouched_by(r, u) by {
        assert forall|i: int| 0 <= i < u.len() implies #[trigger] rule_end(r, u, i) is None by {
            if rule_end(r, u, i) is Some {
                lemma_block_implies_tag(r, u, i);
            }
        }
    }
    lemma_untouched_unchanged(Rule::Tag, u, 0);
    lemma_untouched_unchanged(Rule::Script, u, 0);
    lemma_untouched_unchanged(Rule::Style, u, 0);
    lemma_untouched_unchanged(Rule::Iframe, u, 0);
    assert(u.subrange(0, u.len() as int) =~= u);
}

proof fn lemma_run_end_stops(s: Seq<char>, p: int, m: int, f: spec_fn(char) -> bool)
    requires
        p <= m < s.len(),
        !f(s[m]),
    ensures
        run_end(s, p, f) <= m,
    decreases m - p,
{
    if p < m && f(s[p]) {
        lemma_run_end_stops(s, p + 1, m, f);
    }
}

/// An event handler needs a quote that can be reached through whitespace,
/// word characters and `=` alone; a `<` before any quote blocks it.
proof fn lemma_handler_blocked(s: Seq<char>, i: int, m: int)
    requires
        0 <= i < m < s.len(),
        s[m] == '<',
        forall|k: int| i <= k < m ==> !is_quote(#[trigger] s[k]),
    ensures
        handler_end(s, i) is None,
{
    if occurs_at(s, i, on_prefix()) {
        assert(folds_to(s[i + 0], on_prefix()[0]));
        assert(folds_to(s[i + 1], on_prefix()[1]));
        assert(i + 2 <= m);
        assert(!is_word_char('<'));
        lemma_run_end_stops(s, i + 2, m, word_class());
        lemma_run_end_bounds(s, i + 2, word_class());
        let b = run_end(s, i + 2, word_class());
        lemma_run_end_stops(s, b, m, space_class());
        lemma_run_end_bounds(s, b, space_class());
        let c = run_end(s, b, space_class());
        if c < s.len() && s[c] == '=' {
            assert(c < m);
            lemma_run_end_stops(s, c + 1, m, space_class());
            lemma_run_end_bounds(s, c + 1, space_class());
            let d = run_end(s, c + 1, space_class());
            assert(d <= m);
            if d < m {
                assert(!is_quote(s[d]));
            }
        }
    }
}

/// Without a quote ahead no event handler can start.
proof fn lemma_handler_needs_quote(s: Seq<char>, i: int)
    requires
        0 <= i < s.len(),
        forall|k: int| i <= k < s.len() ==> !is_quote(#[trigger] s[k]),
    ensures
        handler_end(s, i) is None,
{
    lemma_run_end_bounds(s, i + 2, word_class());
    let b = run_end(s, i + 2, word_class());
    lemma_run_end_bounds(s, b, space_class());
    let c = run_end(s, b, space_class());
    lemma_run_end_bounds(s, c + 1, space_class());
    let d = run_end(s, c + 1, space_class());
    if d < s.len() && d >= i {
        assert(!is_quote(s[d]));
    }
}

proof fn lemma_close_needs_lt(s: Seq<char>, p: int, close: Seq<char>)
    requires
        0 <= p,
        close.len() > 0,
        close[0] == '<',
        forall|k: int| p <= k < s.len() ==> #[trigger] s[k] != '<',
    ensures
        close_end(s, p, close) is None,
    decreases s.len() - p,
{
    if p < s.len() {
        if occurs_at(s, p, close) {
            assert(folds_to(s[p + 0], close[0]));
        }
        lemma_close_needs_lt(s, p + 1, close);
    }
}

proof fn lemma_scheme_needs_colon(s: Seq<char>, i: int)
    requires
        forall|k: int| 0 <= k < s.len() ==> #[trigger] s[k] != ':',
    ensures
        rule_end(Rule::ScriptScheme, s, i) is None,
{
    let tok = scheme_token();
    assert(tok[10] == ':');
    if occurs_at(s, i, tok) {
        assert(folds_to(s[i + 10], tok[10]));
    }
}

/// Text with no character that the markup rules act on: no `<`, `>`,
/// quote or `:`.
pub open spec fn plain_text(s: Seq<char>) -> bool {
    forall|k: int|
        0 <= k < s.len() ==> #[trigger] s[k] != '<' && s[k] != '>' && !is_quote(s[k]) && s[k] != ':'
}

/// A start tag `<name on<event>="value">` carrying an event handler.
pub open spec fn handler_tag(name: Seq<char>, event: Seq<char>, value: Seq<char>) -> Seq<char> {
    seq!['<'] + name + seq![' ', 'o', 'n'] + event + seq!['=', '"'] + value + seq!['"', '>']
}

/// Plain text is left as it is by the markup rules.
pub proof fn lemma_plain_text_kept(s: Seq<char>)
    requires
        plain_text(s),
    ensures
        markup_stripped(s) == s,
{
    assert forall|r: Rule| #[trigger] untouched_by(r, s) by {
        assert forall|i: int| 0 <= i < s.len() implies #[trigger] rule_end(r, s, i) is None by {
            if starts_at_lt(r) {
                lemma_match_needs_lt(r, s, i);
            } else if r == Rule::EventHandler {
                lemma_handler_needs_quote(s, i);
            } else {
                lemma_scheme_needs_colon(s, i);
            }
        }
    }
    assert forall|r: Rule| #[trigger] removed(r, s) == s by {
        assert(untouched_by(r, s));
        lemma_untouched_unchanged(r, s, 0);
        assert(s.subrange(0, s.len() as int) =~= s);
    }
}

/// The pieces of a handler tag amid plain text, as the law below takes them.
pub open spec fn handler_tag_inputs(
    pre: Seq<char>,
    name: Seq<char>,
    event: Seq<char>,
    value: Seq<char>,
    post: Seq<char>,
) -> bool {
    &&& plain_text(pre)
    &&& plain_text(post)
    &&& name.len() > 0
    &&& forall|k: int| 0 <= k < name.len() ==> is_ascii_word_char(#[trigger] name[k])
    &&& event.len() > 0
    &&& forall|k: int| 0 <= k < event.len() ==> is_word_char(#[trigger] event[k])
    &&& forall|k: int| 0 <= k < value.len() ==> #[trigger] value[k] != '<' && !is_quote(value[k])
}

proof fn lemma_handler_tag_chars(
    pre: Seq<char>,
    name: Seq<char>,
    event: Seq<char>,
    value: Seq<char>,
    post: Seq<char>,
)
    requires
        handler_tag_inputs(pre, name, event, value, post),
    ensures
        ({
            let t = handler_tag(name, event, value);
            let x = pre + t + post;
            let p = pre.len() as int;
            let nn = name.len() as int;
            let ne = event.len() as int;
            let nv = value.len() as int;
            &&& t.len() == 8 + nn + ne + nv
            &&& x.len() == p + t.len() + post.len()
            &&& x[p] == '<'
            &&& forall|k: int| 0 <= k < p ==> #[trigger] x[k] == pre[k]
            &&& forall|k: int| 0 <= k < nn ==> #[trigger] x[p + 1 + k] == name[k]
            &&& x[p + 1 + nn] == ' ' && x[p + 2 + nn] == 'o' && x[p + 3 + nn] == 'n'
            &&& forall|k: int| 0 <= k < ne ==> #[trigger] x[p + 4 + nn + k] == event[k]
            &&& x[p + 4 + nn + ne] == '=' && x[p + 5 + nn + ne] == '"'
            &&& forall|k: int| 0 <= k < nv ==> #[trigger] x[p + 6 + nn + ne + k] == value[k]
            &&& x[p + 6 + nn + ne + nv] == '"' && x[p + 7 + nn + ne + nv] == '>'
            &&& forall|k: int| 0 <= k < post.len() ==> #[trigger] x[p + t.len() + k] == post[k]
            &&& forall|k: int| p < k < x.len() ==> #[trigger] x[k] != '<'
        }),
{
    let t = handler_tag(name, event, value);
    let x = pre + t + post;
    let p = pre.len() as int;
    let nn = name.len() as int;
    let ne = event.len() as int;
    let nv = value.len() as int;
    let tl = t.len() as int;
    assert(t[0] == '<');
    assert forall|k: int| 0 <= k < nn implies #[trigger] x[p + 1 + k] == name[k] by {
        assert(x[p + 1 + k] == t[1 + k]);
    }
    assert(t[1 + nn] == ' ' && t[2 + nn] == 'o' && t[3 + nn] == 'n');
    assert forall|k: int| 0 <= k < ne implies #[trigger] x[p + 4 + nn + k] == event[k] by {
        assert(x[p + 4 + nn + k] == t[4 + nn + k]);
    }
    assert(t[4 + nn + ne] == '=' && t[5 + nn + ne] == '"');
    assert forall|k: int| 0 <= k < nv implies #[trigger] x[p + 6 + nn + ne + k] == value[k] by {
        assert(x[p + 6 + nn + ne + k] == t[6 + nn + ne + k]);
    }
    assert(t[6 + nn + ne + nv] == '"' && t[7 + nn + ne + nv] == '>');
    assert forall|k: int| 0 <= k < post.len() implies #[trigger] x[p + tl + k] == post[k] by {}
    assert forall|k: int| 0 <= k < p implies #[trigger] x[k] == pre[k] by {}
    assert forall|k: int| p < k < x.len() implies #[trigger] x[k] != '<' by {
        if k < p + tl {
            let j = k - p;
            assert(x[k] == t[j]);
            if 1 <= j < 1 + nn {
                assert(x[p + 1 + (j - 1)] == name[j - 1]);
                assert(is_ascii_word_char(name[j - 1]));
            } else if 4 + nn <= j < 4 + nn + ne {
                assert(x[p + 4 + nn + (j - 4 - nn)] == event[j - 4 - nn]);
                assert(is_word_char(event[j - 4 - nn]));
            } else if 6 + nn + ne <= j < 6 + nn + ne + nv {
                assert(x[p + 6 + nn + ne + (j - 6 - nn - ne)] == value[j - 6 - nn - ne]);
            }
        } else {
            assert(x[p + tl + (k - p - tl)] == post[k - p - tl]);
        }
    }
}

proof fn lemma_handler_tag_no_blocks(
    pre: Seq<char>,
    name: Seq<char>,
    event: Seq<char>,
    value: Seq<char>,
    post: Seq<char>,
)
    requires
        handler_tag_inputs(pre, name, event, value, post),
    ensures
        ({
            let x = pre + handler_tag(name, event, value) + post;
            removed(Rule::Iframe, removed(Rule::Style, removed(Rule::Script, x))) == x
        }),
{
    lemma_handler_tag_chars(pre, name, event, value, post);
    let x = pre + handler_tag(name, event, value) + post;
    let p = pre.len() as int;
    assert forall|k: int| 0 <= k < p implies #[trigger] x[k] != '<' by {
        assert(x[k] == pre[k]);
    }
    assert forall|r: Rule|
        r == Rule::Script || r == Rule::Style || r == Rule::Iframe implies #[trigger] removed(r, x)
        == x by {
        assert forall|i: int| 0 <= i < x.len() implies #[trigger] rule_end(r, x, i) is None by {
            if i != p {
                lemma_match_needs_lt(r, x, i);
            } else {
                let name_r = block_name(r);
                if occurs_at(x, i, open_tag(name_r)) {
                    lemma_run_end_bounds(x, i + 1 + name_r.len(), not_gt());
                    let g = run_end(x, i + 1 + name_r.len(), not_gt());
                    assert(close_tag(name_r)[0] == '<');
                    lemma_close_needs_lt(x, g + 1, close_tag(name_r));
                }
            }
        }
        lemma_untouched_unchanged(r, x, 0);
        assert(x.subrange(0, x.len() as int) =~= x);
    }
}

/// The start tag of the handler tag, with the handler gone (the space
/// before it stays).
pub open spec fn bare_tag(name: Seq<char>) -> Seq<char> {
    seq!['<'] + name + seq![' ', '>']
}

#[verifier::rlimit(60)]
proof fn lemma_handler_tag_attribute_removed(
    pre: Seq<char>,
    name: Seq<char>,
    event: Seq<char>,
    value: Seq<char>,
    post: Seq<char>,
)
    requires
        handler_tag_inputs(pre, name, event, value, post),
    ensures
        removed(Rule::EventHandler, pre + handler_tag(name, event, value) + post) == pre + bare_tag(
            name,
        ) + post,
{
    lemma_handler_tag_chars(pre, name, event, value, post);
    let x = pre + handler_tag(name, event, value) + post;
    let p = pre.len() as int;
    let nn = name.len() as int;
    let ne = event.len() as int;
    let nv = value.len() as int;
    let tl = 8 + nn + ne + nv;
    let h = p + 1 + nn;
    let o = h + 1;
    let hend = p + tl - 1;
    assert(!is_word_char(' '));
    assert forall|i: int| 0 <= i < o implies #[trigger] rule_end(Rule::EventHandler, x, i) is None by {
        if i < p {
            assert forall|k: int| i <= k < p implies !is_quote(#[trigger] x[k]) by {
                assert(x[k] == pre[k]);
            }
            lemma_handler_blocked(x, i, p);
        } else if p < i < h && occurs_at(x, i, on_prefix()) {
            assert(folds_to(x[i + 1], on_prefix()[1]));
            assert(i + 1 < h);
            assert forall|k: int| i + 2 <= k < h implies word_class()(#[trigger] x[k]) by {
                assert(x[p + 1 + (k - p - 1)] == name[k - p - 1]);
                assert(is_ascii_word_char(name[k - p - 1]));
            }
            lemma_run_end_skip(x, i + 2, h, word_class());
            assert(run_end(x, h, word_class()) == h);
            assert(run_end(x, h + 1, space_class()) == h + 1);
            assert(run_end(x, h, space_class()) == h + 1);
        } else if i == h || i == p {
            if occurs_at(x, i, on_prefix()) {
                assert(folds_to(x[i + 0], on_prefix()[0]));
            }
        }
    }
    assert(handler_end(x, o) == Some(hend)) by {
        assert(occurs_at(x, o, on_prefix())) by {
            assert forall|k: int| 0 <= k < on_prefix().len() implies folds_to(
                #[trigger] x[o + k],
                on_prefix()[k],
            ) by {}
        }
        let w0 = o + 2;
        let b = w0 + ne;
        assert forall|k: int| w0 <= k < b implies word_class()(#[trigger] x[k]) by {
            assert(x[p + 4 + nn + (k - w0)] == event[k - w0]);
        }
        lemma_run_end_skip(x, w0, b, word_class());
        assert(!is_word_char('='));
        assert(run_end(x, b, word_class()) == b);
        assert(run_end(x, b, space_class()) == b);
        assert(run_end(x, b + 1, space_class()) == b + 1);
        let v0 = b + 2;
        let e = v0 + nv;
        assert forall|k: int| v0 <= k < e implies not_char('"')(#[trigger] x[k]) by {
            assert(x[p + 6 + nn + ne + (k - v0)] == value[k - v0]);
        }
        lemma_run_end_skip(x, v0, e, not_char('"'));
        assert(run_end(x, e, not_char('"')) == e);
    }
    assert forall|i: int| hend <= i < x.len() implies #[trigger] rule_end(Rule::EventHandler, x, i)
        is None by {
        assert forall|k: int| i <= k < x.len() implies !is_quote(#[trigger] x[k]) by {
            if k >= p + tl {
                assert(x[p + tl + (k - p - tl)] == post[k - p - tl]);
            }
        }
        lemma_handler_needs_quote(x, i);
    }
    lemma_no_match_span(Rule::EventHandler, x, 0, o);
    lemma_no_match_span(Rule::EventHandler, x, hend, x.len() as int);
    assert(removed_from(Rule::EventHandler, x, x.len() as int) == Seq::<char>::empty());
    let y = pre + bare_tag(name) + post;
    assert(x.subrange(0, o) + x.subrange(hend, x.len() as int) + Seq::<char>::empty() =~= y);
}

#[verifier::rlimit(40)]
proof fn lemma_bare_tag_stripped(pre: Seq<char>, name: Seq<char>, post: Seq<char>)
    requires
        plain_text(pre),
        plain_text(post),
        name.len() > 0,
        forall|k: int| 0 <= k < name.len() ==> is_ascii_word_char(#[trigger] name[k]),
    ensures
        removed(Rule::Tag, removed(Rule::ScriptScheme, pre + bare_tag(name) + post)) == pre + post,
{
    let y = pre + bare_tag(name) + post;
    let p = pre.len() as int;
    let nn = name.len() as int;
    let yn = y.len() as int;
    assert(y[p] == '<');
    assert(y[p + 1 + nn] == ' ');
    assert(y[p + 2 + nn] == '>');
    assert forall|k: int| 0 <= k < nn implies #[trigger] y[p + 1 + k] == name[k] by {}
    assert forall|k: int| 0 <= k < p implies #[trigger] y[k] == pre[k] by {}
    assert forall|k: int| p + nn + 3 <= k < yn implies #[trigger] y[k] == post[k - p - nn - 3] by {}
    assert forall|k: int| 0 <= k < yn implies #[trigger] y[k] != ':' by {
        if p < k <= p + nn {
            assert(y[p + 1 + (k - p - 1)] == name[k - p - 1]);
        }
    }
    assert forall|i: int| 0 <= i < yn implies #[trigger] rule_end(Rule::ScriptScheme, y, i) is None by {
        lemma_scheme_needs_colon(y, i);
    }
    lemma_untouched_unchanged(Rule::ScriptScheme, y, 0);
    assert(y.subrange(0, yn) =~= y);
    assert forall|k: int| 0 <= k < p implies #[trigger] y[k] != '<' by {}
    lemma_plain_prefix(Rule::Tag, y, 0, p);
    assert forall|k: int| p + 1 <= k < p + 2 + nn implies not_gt()(#[trigger] y[k]) by {
        if k < p + 1 + nn {
            assert(y[p + 1 + (k - p - 1)] == name[k - p - 1]);
        }
    }
    lemma_run_end_skip(y, p + 1, p + 2 + nn, not_gt());
    assert(y[p + 1] == name[0]);
    assert(rule_end(Rule::Tag, y, p) == Some(p + nn + 3));
    assert forall|k: int| p + nn + 3 <= k < yn implies #[trigger] y[k] != '<' by {}
    lemma_plain_prefix(Rule::Tag, y, p + nn + 3, yn);
    assert(removed_from(Rule::Tag, y, yn) == Seq::<char>::empty());
    assert(y.subrange(0, p) + (y.subrange(p + nn + 3, yn) + Seq::<char>::empty()) =~= pre + post);
}

/// An element's start tag carrying an `on<event>="..."` handler, amid plain
/// text, vanishes whole: neither the handler nor the tag reaches the
/// excerpt, which is what the surrounding text alone gives.
pub proof fn lemma_handler_tag_vanishes(
    pre: Seq<char>,
    name: Seq<char>,
    event: Seq<char>,
    value: Seq<char>,
    post: Seq<char>,
)
    requires
        handler_tag_inputs(pre, name, event, value, post),
    ensures
        markup_stripped(pre + handler_tag(name, event, value) + post) == pre + post,
        sanitized(pre + handler_tag(name, event, value) + post) == sanitized(pre + post),
{
    lemma_handler_tag_no_blocks(pre, name, event, value, post);
    lemma_handler_tag_attribute_removed(pre, name, event, value, post);
    lemma_bare_tag_stripped(pre, name, post);
    let p = pre.len() as int;
    assert(plain_text(pre + post)) by {
        assert forall|k: int| 0 <= k < (pre + post).len() implies #[trigger] (pre + post)[k] != '<'
            && (pre + post)[k] != '>' && !is_quote((pre + post)[k]) && (pre + post)[k] != ':' by {
            if k < p {
                assert((pre + post)[k] == pre[k]);
            } else {
                assert((pre + post)[k] == post[k - p]);
            }
        }
    }
    lemma_plain_text_kept(pre + post);
}

/// Between plain text, a script block leaves exactly that text: no tag, no
/// `script` token and nothing of the body reaches the excerpt beyond what
/// the surrounding text itself holds.
pub proof fn lemma_script_block_amid_plain_text(
    pre: Seq<char>,
    attrs: Seq<char>,
    body: Seq<char>,
    post: Seq<char>,
)
    requires
        plain_text(pre),
        plain_text(post),
        forall|k: int| 0 <= k < attrs.len() ==> #[trigger] attrs[k] != '>',
        nowhere(body, close_tag(script_name())),
    ensures
        markup_stripped(pre + script_block(attrs, body) + post) == pre + post,
{
    let y = pre + post;
    let p = pre.len() as int;
    assert(plain_text(y)) by {
        assert forall|k: int| 0 <= k < y.len() implies #[trigger] y[k] != '<' && y[k] != '>'
            && !is_quote(y[k]) && y[k] != ':' by {
            if k < p {
                assert(y[k] == pre[k]);
            } else {
                assert(y[k] == post[k - p]);
            }
        }
    }
    assert(nowhere(y, open_tag(script_name()))) by {
        assert forall|i: int| 0 <= i < y.len() implies !#[trigger] occurs_at(
            y,
            i,
            open_tag(script_name()),
        ) by {
            if occurs_at(y, i, open_tag(script_name())) {
                assert(open_tag(script_name())[0] == '<');
                assert(folds_to(y[i + 0], open_tag(script_name())[0]));
            }
        }
    }
    lemma_script_block_vanishes(pre, attrs, body, post);
    lemma_plain_text_kept(y);
}

} // verus!
