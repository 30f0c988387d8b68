//! The markup-removal rules of the sanitiser, each a left-to-right scan that
//! deletes every non-overlapping occurrence of one pattern, as a regular
//! expression engine's `replace_all` with leftmost-first matching does.
use vstd::prelude::*;
use crate::text::{is_space, space};

verus! {

/// `c` equals the pattern character `p` under simple case folding, for the
/// lowercase ASCII pattern characters that the rules use (`s` also folds
/// with U+017F, LATIN SMALL LETTER LONG S).
pub open spec fn folds_to(c: char, p: char) -> bool {
    c == p || ('a' <= p && p <= 'z' && c as u32 + 32 == p as u32) || (p == 's' && c == '\u{17f}')
}

/// `pat` occurs at position `i` of `s`, letters compared case-insensitively.
pub open spec fn occurs_at(s: Seq<char>, i: int, pat: Seq<char>) -> bool {
    &&& 0 <= i
    &&& i + pat.len() <= s.len()
    &&& forall|k: int| 0 <= k < pat.len() ==> folds_to(#[trigger] s[i + k], pat[k])
}

/// The first position at or after `p` whose character is not in the class `f`
/// (the end of `s` if there is none).
pub open spec fn run_end(s: Seq<char>, p: int, f: spec_fn(char) -> bool) -> int
    decreases s.len() - p,
{
    if p >= s.len() || !f(s[p]) {
        p
    } else {
        run_end(s, p + 1, f)
    }
}

pub open spec fn is_quote(c: char) -> bool {
    c == '"' || c == '\''
}

/// The character classes that the rules skip over.
pub open spec fn not_gt() -> spec_fn(char) -> bool {
    |c: char| c != '>'
}

pub open spec fn not_quote() -> spec_fn(char) -> bool {
    |c: char| !is_quote(c)
}

/// Any character but `q`.
pub open spec fn not_char(q: char) -> spec_fn(char) -> bool {
    |c: char| c != q
}

pub open spec fn space_class() -> spec_fn(char) -> bool {
    |c: char| is_space(c)
}

pub open spec fn word_class() -> spec_fn(char) -> bool {
    |c: char| is_word_char(c)
}

/// ASCII word characters: `[0-9A-Za-z_]`.
pub open spec fn is_ascii_word_char(c: char) -> bool {
    ('0' <= c && c <= '9') || ('A' <= c && c <= 'Z') || c == '_' || ('a' <= c && c <= 'z')
}

/// Word characters beyond ASCII, as `\w` has them: the `Alphabetic` and
/// `Join_Control` properties and the `Decimal_Number`, `Mark` and
/// `Connector_Punctuation` categories.
pub uninterp spec fn is_wide_word_char(c: char) -> bool;

/// Unicode word characters, the class `\w` stands for.
pub open spec fn is_word_char(c: char) -> bool {
    if (c as u32) < 128 {
        is_ascii_word_char(c)
    } else {
        is_wide_word_char(c)
    }
}

/// Relies on `regex_syntax::is_word_character`, the class behind `\w`,
/// which among ASCII characters holds of `[0-9A-Za-z_]` only.
#[verifier::external_body]
fn word_char(c: char) -> (r: bool)
    ensures
        r == if (c as u32) < 128 {
            is_ascii_word_char(c)
        } else {
            is_wide_word_char(c)
        },
{
    regex_syntax::is_word_character(c)
}

/// The element names whose whole blocks are removed, and the closing tags.
pub open spec fn script_name() -> Seq<char> {
    seq!['s', 'c', 'r', 'i', 'p', 't']
}

pub open spec fn style_name() -> Seq<char> {
    seq!['s', 't', 'y', 'l', 'e']
}

pub open spec fn iframe_name() -> Seq<char> {
    seq!['i', 'f', 'r', 'a', 'm', 'e']
}

pub open spec fn scheme_token() -> Seq<char> {
    seq!['j', 'a', 'v', 'a', 's', 'c', 'r', 'i', 'p', 't', ':']
}

pub open spec fn on_prefix() -> Seq<char> {
    seq!['o', 'n']
}

pub open spec fn open_tag(name: Seq<char>) -> Seq<char> {
    seq!['<'] + name
}

pub open spec fn close_tag(name: Seq<char>) -> Seq<char> {
    seq!['<', '/'] + name + seq!['>']
}

/// One removal rule of the sanitiser.
#[derive(Clone, Copy, Debug, PartialEq, Eq)]
pub enum Rule {
    /// `<script ...>` up to the nearest `</script>`, across lines.
    Script,
    /// `<style ...>` up to the nearest `</style>`, across lines.
    Style,
    /// `<iframe ...>` up to the nearest `</iframe>`, across lines.
    Iframe,
    /// `on<word>`, optional whitespace, `=`, optional whitespace, then a value
    /// in double quotes or in single quotes, closed by the same quote.
    EventHandler,
    /// The token `javascript:`.
    ScriptScheme,
    /// Any `<...>` with at least one character inside.
    Tag,
}

pub open spec fn block_name(r: Rule) -> Seq<char> {
    match r {
        Rule::Script => script_name(),
        Rule::Style => style_name(),
        _ => iframe_name(),
    }
}

/// Scanning the body of a block from `p`: the end of the nearest closing
/// tag, line breaks included.
pub open spec fn close_end(s: Seq<char>, p: int, close: Seq<char>) -> Option<int>
    decreases s.len() - p,
{
    if p < 0 || p >= s.len() {
        None
    } else if occurs_at(s, p, close) {
        Some(p + close.len())
    } else {
        close_end(s, p + 1, close)
    }
}

/// The end of a block of element `name` that starts at `i`, if one does.
pub open spec fn block_end(s: Seq<char>, i: int, name: Seq<char>) -> Option<int> {
    if occurs_at(s, i, open_tag(name)) {
        let g = run_end(s, i + 1 + name.len(), not_gt());
        if g < s.len() {
            close_end(s, g + 1, close_tag(name))
        } else {
            None
        }
    } else {
        None
    }
}

/// The end of an event-handler attribute that starts at `i`, if one does.
pub open spec fn handler_end(s: Seq<char>, i: int) -> Option<int> {
    if occurs_at(s, i, on_prefix()) {
        let b = run_end(s, i + 2, word_class());
        let c = run_end(s, b, space_class());
        let d = run_end(s, c + 1, space_class());
        if b > i + 2 && c < s.len() && s[c] == '=' && d < s.len() && is_quote(s[d]) && run_end(
            s,
            d + 1,
            not_char(s[d]),
        ) < s.len() {
            Some(run_end(s, d + 1, not_char(s[d])) + 1)
        } else {
            None
        }
    } else {
        None
    }
}

/// The end of a tag that starts at `i`, if one does.
pub open spec fn tag_end(s: Seq<char>, i: int) -> Option<int> {
    if 0 <= i && i + 1 < s.len() && s[i] == '<' && s[i + 1] != '>' {
        let g = run_end(s, i + 1, not_gt());
        if g < s.len() {
            Some(g + 1)
        } else {
            None
        }
    } else {
        None
    }
}

/// The end of the match of rule `r` that starts at `i`, if one does.
pub open spec fn rule_end(r: Rule, s: Seq<char>, i: int) -> Option<int> {
    match r {
        Rule::Script | Rule::Style | Rule::Iframe => block_end(s, i, block_name(r)),
        Rule::EventHandler => handler_end(s, i),
        Rule::ScriptScheme => if occurs_at(s, i, scheme_token()) {
            Some(i + scheme_token().len())
        } else {
            None
        },
        Rule::Tag => tag_end(s, i),
    }
}

/// What is left of `s` from `i` on once rule `r` has removed its matches.
pub open spec fn removed_from(r: Rule, s: Seq<char>, i: int) -> Seq<char>
    decreases s.len() - i,
    via removed_from_decreases
{
    if i < 0 || i >= s.len() {
        Seq::empty()
    } else {
        match rule_end(r, s, i) {
            Some(e) => removed_from(r, s, e),
            None => seq![s[i]] + removed_from(r, s, i + 1),
        }
    }
}

#[via_fn]
proof fn removed_from_decreases(r: Rule, s: Seq<char>, i: int) {
    if 0 <= i < s.len() {
        lemma_rule_end_bounds(r, s, i);
    }
}

/// `s` with every match of rule `r` removed.
pub open spec fn removed(r: Rule, s: Seq<char>) -> Seq<char> {
    removed_from(r, s, 0)
}

/// The text left once all markup rules have run, in their fixed order.
pub open spec fn markup_stripped(s: Seq<char>) -> Seq<char> {
    removed(Rule::Tag, removed(Rule::ScriptScheme, removed(Rule::EventHandler,
        removed(Rule::Iframe, removed(Rule::Style, removed(Rule::Script, s))))))
}

pub proof fn lemma_run_end_bounds(s: Seq<char>, p: int, f: spec_fn(char) -> bool)
    ensures
        run_end(s, p, f) >= p,
        p <= s.len() ==> run_end(s, p, f) <= s.len(),
        forall|k: int| p <= k < run_end(s, p, f) ==> f(#[trigger] s[k]),
        run_end(s, p, f) < s.len() ==> !f(s[run_end(s, p, f)]),
    decreases s.len() - p,
{
    if p < s.len() && f(s[p]) {
        lemma_run_end_bounds(s, p + 1, f);
    }
}

pub proof fn lemma_close_end_bounds(s: Seq<char>, p: int, close: Seq<char>)
    requires
        close.len() > 0,
    ensures
        close_end(s, p, close) matches Some(e) ==> p < e <= s.len(),
    decreases s.len() - p,
{
    if 0 <= p < s.len() && !occurs_at(s, p, close) {
        lemma_close_end_bounds(s, p + 1, close);
    }
}

pub proof fn lemma_rule_end_bounds(r: Rule, s: Seq<char>, i: int)
    requires
        0 <= i < s.len(),
    ensures
        rule_end(r, s, i) matches Some(e) ==> i < e <= s.len(),
{
    match r {
        Rule::Script | Rule::Style | Rule::Iframe => {
            let name = block_name(r);
            if occurs_at(s, i, open_tag(name)) {
                let g = run_end(s, i + 1 + name.len(), not_gt());
                lemma_run_end_bounds(s, i + 1 + name.len(), not_gt());
                lemma_close_end_bounds(s, g + 1, close_tag(name));
            }
        },
        Rule::EventHandler => {
            lemma_run_end_bounds(s, i + 2, word_class());
            let b = run_end(s, i + 2, word_class());
            lemma_run_end_bounds(s, b, space_class());
            let c = run_end(s, b, space_class());
            lemma_run_end_bounds(s, c + 1, space_class());
            let d = run_end(s, c + 1, space_class());
            if d < s.len() {
                lemma_run_end_bounds(s, d + 1, not_char(s[d]));
            }
        },
        Rule::ScriptScheme => {},
        Rule::Tag => {
            lemma_run_end_bounds(s, i + 1, not_gt());
        },
    }
}

/// The run of class `f` from `p` on, where `f` holds up to `q`, ends where the run from `q` ends.
pub proof fn lemma_run_end_skip(s: Seq<char>, p: int, q: int, f: spec_fn(char) -> bool)
    requires
        p <= q <= s.len(),
        forall|k: int| p <= k < q ==> f(#[trigger] s[k]),
    ensures
        run_end(s, p, f) == run_end(s, q, f),
    decreases q - p,
{
    if p < q {
        lemma_run_end_skip(s, p + 1, q, f);
    }
}

/// Where no match starts in `[i, n)`, a rule keeps that stretch as it is.
pub proof fn lemma_no_match_span(r: Rule, s: Seq<char>, i: int, n: int)
    requires
        0 <= i <= n <= s.len(),
        forall|k: int| i <= k < n ==> #[trigger] rule_end(r, s, k) is None,
    ensures
        removed_from(r, s, i) == s.subrange(i, n) + removed_from(r, s, n),
    decreases n - i,
{
    if i < n {
        assert(rule_end(r, s, i) is None);
        lemma_no_match_span(r, s, i + 1, n);
        assert(s.subrange(i, n) =~= seq![s[i]] + s.subrange(i + 1, n));
    } else {
        assert(s.subrange(i, n) =~= Seq::<char>::empty());
    }
}

/// `o` with its position widened to a mathematical integer.
pub open spec fn as_pos(o: Option<usize>) -> Option<int> {
    match o {
        Some(e) => Some(e as int),
        None => None,
    }
}

/// The pattern that opens a match of `r` (the opening tag of a block, or the
/// scheme token), and the closing tag of a block.
pub open spec fn rule_opening(r: Rule) -> Seq<char> {
    match r {
        Rule::Script | Rule::Style | Rule::Iframe => open_tag(block_name(r)),
        Rule::ScriptScheme => scheme_token(),
        _ => Seq::empty(),
    }
}

pub open spec fn rule_closing(r: Rule) -> Seq<char> {
    match r {
        Rule::Script | Rule::Style | Rule::Iframe => close_tag(block_name(r)),
        _ => Seq::empty(),
    }
}

fn folds(c: char, p: char) -> (r: bool)
    ensures
        r == folds_to(c, p),
{
    c == p || ('a' <= p && p <= 'z' && c as u32 == p as u32 - 32) || (p == 's' && c == '\u{17f}')
}

pub(crate) fn occurs(s: &Vec<char>, i: usize, pat: &Vec<char>) -> (r: bool)
    ensures
        r == occurs_at(s@, i as int, pat@),
{
    if pat.len() > s.len() || i > s.len() - pat.len() {
        return false;
    }
    let mut k: usize = 0;
    while k < pat.len()
        invariant
            k <= pat.len(),
            i + pat.len() <= s.len(),
            forall|j: int| 0 <= j < k ==> folds_to(#[trigger] s@[i + j], pat@[j]),
        decreases pat.len() - k,
    {
        if !folds(s[i + k], pat[k]) {
            return false;
        }
        k = k + 1;
    }
    true
}

fn patterns(r: Rule) -> (p: (Vec<char>, Vec<char>))
    ensures
        p.0@ == rule_opening(r),
        p.1@ == rule_closing(r),
{
    let p = match r {
        Rule::Script => (vec!['<', 's', 'c', 'r', 'i', 'p', 't'],
            vec!['<', '/', 's', 'c', 'r', 'i', 'p', 't', '>']),
        Rule::Style => (vec!['<', 's', 't', 'y', 'l', 'e'],
            vec!['<', '/', 's', 't', 'y', 'l', 'e', '>']),
        Rule::Iframe => (vec!['<', 'i', 'f', 'r', 'a', 'm', 'e'],
            vec!['<', '/', 'i', 'f', 'r', 'a', 'm', 'e', '>']),
        Rule::ScriptScheme => (vec!['j', 'a', 'v', 'a', 's', 'c', 'r', 'i', 'p', 't', ':'],
            Vec::new()),
        _ => (Vec::new(), Vec::new()),
    };
    assert(p.0@ =~= rule_opening(r));
    assert(p.1@ =~= rule_closing(r));
    p
}

/// The first position at or after `p` that is not `>` (class `not_gt`),
/// that is, the first `>`.
pub(crate) fn skip_not_gt(s: &Vec<char>, p: usize) -> (r: usize)
    requires
        p <= s.len(),
    ensures
        r == run_end(s@, p as int, not_gt()),
{
    let mut q = p;
    while q < s.len() && s[q] != '>'
        invariant
            p <= q <= s.len(),
            run_end(s@, p as int, not_gt()) == run_end(s@, q as int, not_gt()),
        decreases s.len() - q,
    {
        q = q + 1;
    }
    q
}

pub(crate) fn skip_space(s: &Vec<char>, p: usize) -> (r: usize)
    requires
        p <= s.len(),
    ensures
        r == run_end(s@, p as int, space_class()),
{
    let mut q = p;
    while q < s.len() && space(s[q])
        invariant
            p <= q <= s.len(),
            run_end(s@, p as int, space_class()) == run_end(s@, q as int, space_class()),
        decreases s.len() - q,
    {
        q = q + 1;
    }
    q
}

fn skip_word(s: &Vec<char>, p: usize) -> (r: usize)
    requires
        p <= s.len(),
    ensures
        r == run_end(s@, p as int, word_class()),
{
    let mut q = p;
    while q < s.len() && word_char(s[q])
        invariant
            p <= q <= s.len(),
            run_end(s@, p as int, word_class()) == run_end(s@, q as int, word_class()),
        decreases s.len() - q,
    {
        q = q + 1;
    }
    q
}

pub(crate) fn skip_not_quote(s: &Vec<char>, p: usize) -> (r: usize)
    requires
        p <= s.len(),
    ensures
        r == run_end(s@, p as int, not_quote()),
{
    let mut q = p;
    while q < s.len() && s[q] != '"' && s[q] != '\''
        invariant
            p <= q <= s.len(),
            run_end(s@, p as int, not_quote()) == run_end(s@, q as int, not_quote()),
        decreases s.len() - q,
    {
        q = q + 1;
    }
    q
}

/// Every position from `p` up to where the run of class `f` ends sees the same end.
pub proof fn lemma_run_end_range(s: Seq<char>, p: int, f: spec_fn(char) -> bool)
    requires
        0 <= p <= s.len(),
    ensures
        p <= run_end(s, p, f) <= s.len(),
        forall|x: int| p <= x <= run_end(s, p, f) ==> #[trigger] run_end(s, x, f) == run_end(s, p, f),
{
    lemma_run_end_bounds(s, p, f);
    assert forall|x: int| p <= x <= run_end(s, p, f) implies #[trigger] run_end(s, x, f) == run_end(
        s,
        p,
        f,
    ) by {
        lemma_run_end_skip(s, p, x, f);
    }
}

/// Scans the body of a block from `q`: the end of the nearest closing tag,
/// and the position where the scan stopped. Every start from `q` up to that
/// stop gets the same answer.
fn scan_close(s: &Vec<char>, q: usize, close: &Vec<char>) -> (r: (Option<usize>, usize))
    requires
        close@.len() > 0,
        q <= s.len(),
    ensures
        q <= r.1 <= s.len(),
        forall|p: int| q <= p <= r.1 ==> #[trigger] close_end(s@, p, close@) == as_pos(r.0),
{
    let mut k = q;
    while k < s.len()
        invariant
            q <= k <= s.len(),
            close@.len() > 0,
            forall|p: int|
                q <= p <= k ==> #[trigger] close_end(s@, p, close@) == close_end(s@, k as int, close@),
        decreases s.len() - k,
    {
        if occurs(s, k, close) {
            return (Some(k + close.len()), k);
        }
        let ghost k0 = k;
        k = k + 1;
        assert(close_end(s@, k0 as int, close@) == close_end(s@, k as int, close@));
    }
    (None, k)
}

/// Removes script, style or iframe blocks. The first `>` after an opening
/// tag and the outcome of a body scan are remembered for the starts that
/// share them, so each part of the text is scanned a bounded number of times.
fn remove_blocks(r: Rule, s: &Vec<char>) -> (out: Vec<char>)
    requires
        r == Rule::Script || r == Rule::Style || r == Rule::Iframe,
    ensures
        out@ == removed(r, s@),
{
    let (open, close) = patterns(r);
    assert(close@.len() > 0);
    let mut out: Vec<char> = Vec::new();
    let mut i: usize = 0;
    let mut gt_from: usize = 1;
    let mut gt: usize = 0;
    let mut cl_from: usize = 1;
    let mut cl_stop: usize = 0;
    let mut cl_val: Option<usize> = None;
    while i < s.len()
        invariant
            i <= s.len(),
            r == Rule::Script || r == Rule::Style || r == Rule::Iframe,
            open@ == rule_opening(r),
            close@ == rule_closing(r),
            close@.len() > 0,
            removed(r, s@) == out@ + removed_from(r, s@, i as int),
            gt <= s.len(),
            forall|p: int| gt_from <= p <= gt ==> #[trigger] run_end(s@, p, not_gt()) == gt,
            forall|p: int|
                cl_from <= p <= cl_stop ==> #[trigger] close_end(s@, p, close@) == as_pos(cl_val),
        decreases s.len() - i,
    {
        let mut end: Option<usize> = None;
        if occurs(s, i, &open) {
            let p = i + open.len();
            if !(gt_from <= p && p <= gt) {
                gt = skip_not_gt(s, p);
                gt_from = p;
                proof {
                    lemma_run_end_range(s@, p as int, not_gt());
                }
            }
            assert(run_end(s@, p as int, not_gt()) == gt);
            if gt < s.len() {
                let q = gt + 1;
                if !(cl_from <= q && q <= cl_stop) {
                    let (v, stop) = scan_close(s, q, &close);
                    cl_from = q;
                    cl_stop = stop;
                    cl_val = v;
                }
                assert(close_end(s@, q as int, close@) == as_pos(cl_val));
                end = cl_val;
            }
        }
        proof {
            lemma_rule_end_bounds(r, s@, i as int);
        }
        assert(as_pos(end) == rule_end(r, s@, i as int));
        match end {
            Some(e) => {
                i = e;
            },
            None => {
                let ghost before = out@;
                out.push(s[i]);
                assert(before + removed_from(r, s@, i as int) =~= out@ + removed_from(
                    r,
                    s@,
                    i + 1,
                ));
                i = i + 1;
            },
        }
    }
    assert(out@ + removed_from(r, s@, i as int) =~= out@);
    out
}

/// Removes tags. A search for `>` that found none is remembered, so text
/// with many unclosed `<` is scanned once.
fn remove_tags(s: &Vec<char>) -> (out: Vec<char>)
    ensures
        out@ == removed(Rule::Tag, s@),
{
    let mut out: Vec<char> = Vec::new();
    let mut i: usize = 0;
    let mut gt_from: usize = 1;
    let mut gt: usize = 0;
    while i < s.len()
        invariant
            i <= s.len(),
            removed(Rule::Tag, s@) == out@ + removed_from(Rule::Tag, s@, i as int),
            gt <= s.len(),
            forall|p: int| gt_from <= p <= gt ==> #[trigger] run_end(s@, p, not_gt()) == gt,
        decreases s.len() - i,
    {
        let mut end: Option<usize> = None;
        if i + 1 < s.len() && s[i] == '<' && s[i + 1] != '>' {
            let p = i + 1;
            if !(gt_from <= p && p <= gt) {
                gt = skip_not_gt(s, p);
                gt_from = p;
                proof {
                    lemma_run_end_range(s@, p as int, not_gt());
                }
            }
            assert(run_end(s@, p as int, not_gt()) == gt);
            if gt < s.len() {
                end = Some(gt + 1);
            }
        }
        proof {
            lemma_rule_end_bounds(Rule::Tag, s@, i as int);
        }
        assert(as_pos(end) == rule_end(Rule::Tag, s@, i as int));
        match end {
            Some(e) => {
                i = e;
            },
            None => {
                let ghost before = out@;
                out.push(s[i]);
                assert(before + removed_from(Rule::Tag, s@, i as int) =~= out@ + removed_from(
                    Rule::Tag,
                    s@,
                    i + 1,
                ));
                i = i + 1;
            },
        }
    }
    assert(out@ + removed_from(Rule::Tag, s@, i as int) =~= out@);
    out
}

/// A character class that the event-handler rule skips over.
#[derive(Clone, Copy)]
pub enum Class {
    Word,
    Space,
    Until(char),
}

pub open spec fn class_fn(c: Class) -> spec_fn(char) -> bool {
    match c {
        Class::Word => word_class(),
        Class::Space => space_class(),
        Class::Until(q) => not_char(q),
    }
}

fn skip_class(s: &Vec<char>, p: usize, c: Class) -> (r: usize)
    requires
        p <= s.len(),
    ensures
        r == run_end(s@, p as int, class_fn(c)),
{
    match c {
        Class::Word => skip_word(s, p),
        Class::Space => skip_space(s, p),
        Class::Until(q) => {
            let mut k = p;
            while k < s.len() && s[k] != q
                invariant
                    p <= k <= s.len(),
                    run_end(s@, p as int, not_char(q)) == run_end(s@, k as int, not_char(q)),
                decreases s.len() - k,
            {
                k = k + 1;
            }
            k
        },
    }
}

/// A run of one class, remembered: every start in `[from, end]` ends it at `end`.
pub struct RunCache {
    pub from: usize,
    pub end: usize,
}

pub open spec fn cache_ok(s: Seq<char>, k: RunCache, f: spec_fn(char) -> bool) -> bool {
    &&& k.end <= s.len()
    &&& forall|x: int| k.from <= x <= k.end ==> #[trigger] run_end(s, x, f) == k.end
}

fn cached_run(s: &Vec<char>, p: usize, k: &mut RunCache, c: Class) -> (r: usize)
    requires
        p <= s.len(),
        cache_ok(s@, *old(k), class_fn(c)),
    ensures
        r == run_end(s@, p as int, class_fn(c)),
        p <= r <= s.len(),
        cache_ok(s@, *final(k), class_fn(c)),
{
    if k.from <= p && p <= k.end {
        return k.end;
    }
    let e = skip_class(s, p, c);
    proof {
        lemma_run_end_range(s@, p as int, class_fn(c));
    }
    k.from = p;
    k.end = e;
    e
}

/// The runs the event-handler rule has scanned, for the attempts that follow.
pub struct HandlerCaches {
    pub word: RunCache,
    pub before_eq: RunCache,
    pub after_eq: RunCache,
    pub double: RunCache,
    pub single: RunCache,
}

pub open spec fn caches_ok(s: Seq<char>, h: HandlerCaches) -> bool {
    &&& cache_ok(s, h.word, class_fn(Class::Word))
    &&& cache_ok(s, h.before_eq, class_fn(Class::Space))
    &&& cache_ok(s, h.after_eq, class_fn(Class::Space))
    &&& cache_ok(s, h.double, class_fn(Class::Until('"')))
    &&& cache_ok(s, h.single, class_fn(Class::Until('\'')))
}

/// The event-handler match at `i`.
fn handler_attempt(s: &Vec<char>, i: usize, h: &mut HandlerCaches) -> (e: Option<usize>)
    requires
        i < s.len(),
        caches_ok(s@, *old(h)),
    ensures
        as_pos(e) == handler_end(s@, i as int),
        caches_ok(s@, *final(h)),
{
    if !(s.len() - i >= 2 && folds(s[i], 'o') && folds(s[i + 1], 'n')) {
        assert(!occurs_at(s@, i as int, on_prefix())) by {
            if occurs_at(s@, i as int, on_prefix()) {
                assert(folds_to(s@[i + 0], on_prefix()[0]));
                assert(folds_to(s@[i + 1], on_prefix()[1]));
            }
        }
        return None;
    }
    assert(occurs_at(s@, i as int, on_prefix())) by {
        assert forall|k: int| 0 <= k < on_prefix().len() implies folds_to(
            #[trigger] s@[i + k],
            on_prefix()[k],
        ) by {
            if k == 0 {
                assert(s@[i + k] == s@[i as int]);
            } else {
                assert(s@[i + k] == s@[i + 1]);
            }
        }
    }
    let b = cached_run(s, i + 2, &mut h.word, Class::Word);
    if b == i + 2 {
        return None;
    }
    let c = cached_run(s, b, &mut h.before_eq, Class::Space);
    if c >= s.len() || s[c] != '=' {
        return None;
    }
    let d = cached_run(s, c + 1, &mut h.after_eq, Class::Space);
    if d >= s.len() {
        return None;
    }
    let e = if s[d] == '"' {
        cached_run(s, d + 1, &mut h.double, Class::Until('"'))
    } else if s[d] == '\'' {
        cached_run(s, d + 1, &mut h.single, Class::Until('\''))
    } else {
        return None;
    };
    if e < s.len() {
        Some(e + 1)
    } else {
        None
    }
}

/// Removes event-handler attributes. The runs scanned by one attempt are
/// remembered for the attempts that share them.
fn remove_handlers(s: &Vec<char>) -> (out: Vec<char>)
    ensures
        out@ == removed(Rule::EventHandler, s@),
{
    let r = Rule::EventHandler;
    let mut out: Vec<char> = Vec::new();
    let mut i: usize = 0;
    let mut h = HandlerCaches {
        word: RunCache { from: 1, end: 0 },
        before_eq: RunCache { from: 1, end: 0 },
        after_eq: RunCache { from: 1, end: 0 },
        double: RunCache { from: 1, end: 0 },
        single: RunCache { from: 1, end: 0 },
    };
    while i < s.len()
        invariant
            i <= s.len(),
            r == Rule::EventHandler,
            removed(r, s@) == out@ + removed_from(r, s@, i as int),
            caches_ok(s@, h),
        decreases s.len() - i,
    {
        proof {
            lemma_rule_end_bounds(r, s@, i as int);
        }
        match handler_attempt(s, i, &mut h) {
            Some(e) => {
                i = e;
            },
            None => {
                let ghost before = out@;
                out.push(s[i]);
                assert(before + removed_from(r, s@, i as int) =~= out@ + removed_from(
                    r,
                    s@,
                    i + 1,
                ));
                i = i + 1;
            },
        }
    }
    assert(out@ + removed_from(r, s@, i as int) =~= out@);
    out
}

/// Removes the `javascript:` token wherever it stands.
fn remove_scheme(s: &Vec<char>) -> (out: Vec<char>)
    ensures
        out@ == removed(Rule::ScriptScheme, s@),
{
    let r = Rule::ScriptScheme;
    let (token, _) = patterns(r);
    let mut out: Vec<char> = Vec::new();
    let mut i: usize = 0;
    while i < s.len()
        invariant
            i <= s.len(),
            r == Rule::ScriptScheme,
            token@ == scheme_token(),
            removed(r, s@) == out@ + removed_from(r, s@, i as int),
        decreases s.len() - i,
    {
        proof {
            lemma_rule_end_bounds(r, s@, i as int);
        }
        if occurs(s, i, &token) {
            assert(rule_end(r, s@, i as int) == Some(i + scheme_token().len()));
            i = i + token.len();
        } else {
            assert(rule_end(r, s@, i as int) is None);
            let ghost before = out@;
            out.push(s[i]);
            assert(before + removed_from(r, s@, i as int) =~= out@ + removed_from(r, s@, i + 1));
            i = i + 1;
        }
    }
    assert(out@ + removed_from(r, s@, i as int) =~= out@);
    out
}

/// Removes every match of rule `r` from `s`, scanning left to right.
pub fn remove_matches(r: Rule, s: &Vec<char>) -> (out: Vec<char>)
    ensures
        out@ == removed(r, s@),
{
    match r {
        Rule::Script | Rule::Style | Rule::Iframe => remove_blocks(r, s),
        Rule::EventHandler => remove_handlers(s),
        Rule::ScriptScheme => remove_scheme(s),
        Rule::Tag => remove_tags(s),
    }
}

/// Applies all markup rules, in their fixed order.
pub fn strip_markup(s: &Vec<char>) -> (out: Vec<char>)
    ensures
        out@ == markup_stripped(s@),
{
    let a = remove_matches(Rule::Script, s);
    let b = remove_matches(Rule::Style, &a);
    let c = remove_matches(Rule::Iframe, &b);
    let d = remove_matches(Rule::EventHandler, &c);
    let e = remove_matches(Rule::ScriptScheme, &d);
    remove_matches(Rule::Tag, &e)
}

} // verus!
