//! Which feed texts the feed parser is handed. The parser reads the
//! play times of media elements (attributes `time`, `start`, `end`) and the
//! text of `itunes:duration` elements into `u64` seconds, and aborts on
//! digits it cannot hold. This check refuses a text only where such a value
//! could hold a run of more than `MAX_TIME_DIGITS` digits, a non-ASCII digit
//! or a character reference, or where a declared encoding could make ASCII
//! bytes decode to other characters; every other text is handed on.
use vstd::prelude::*;
use crate::markup::{is_quote, lemma_run_end_bounds, lemma_run_end_range, not_gt, run_end, skip_not_gt};

verus! {

/// The most digits a play-time number may have; any such number, times
/// 3600 and with minutes and seconds added, fits in `u64`.
pub const MAX_TIME_DIGITS: usize = 15;

pub open spec fn is_xml_space(c: char) -> bool {
    c == ' ' || c == '\t' || c == '\n' || c == '\r'
}

pub open spec fn xml_space() -> spec_fn(char) -> bool {
    |c: char| is_xml_space(c)
}

pub open spec fn ascii_digit() -> spec_fn(char) -> bool {
    |c: char| '0' <= c && c <= '9'
}

pub open spec fn unlike(q: char) -> spec_fn(char) -> bool {
    |c: char| c != q
}

/// `pat` stands at `i`, compared exactly.
pub open spec fn exact_at(s: Seq<char>, i: int, pat: Seq<char>) -> bool {
    &&& 0 <= i
    &&& i + pat.len() <= s.len()
    &&& forall|k: int| 0 <= k < pat.len() ==> #[trigger] s[i + k] == pat[k]
}

/// `pat` (lowercase ASCII) stands at `i`, ASCII letters compared without case.
pub open spec fn label_at(s: Seq<char>, i: int, pat: Seq<char>) -> bool {
    &&& 0 <= i
    &&& i + pat.len() <= s.len()
    &&& forall|k: int|
        0 <= k < pat.len() ==> #[trigger] s[i + k] == pat[k] || ('a' <= pat[k] && pat[k] <= 'z'
            && s[i + k] as u32 + 32 == pat[k] as u32)
}

/// After a name ending at `p`: whitespace, then `=`.
pub open spec fn assigned(s: Seq<char>, p: int) -> bool {
    run_end(s, p, xml_space()) < s.len() && s[run_end(s, p, xml_space())] == '='
}

/// Where the value assigned after `p` opens (its quote), and where it closes.
pub open spec fn value_open(s: Seq<char>, p: int) -> int {
    run_end(s, run_end(s, p, xml_space()) + 1, xml_space())
}

pub open spec fn value_close(s: Seq<char>, p: int) -> int {
    run_end(s, value_open(s, p) + 1, unlike(s[value_open(s, p)]))
}

pub open spec fn quoted_value(s: Seq<char>, p: int) -> bool {
    &&& value_open(s, p) < s.len()
    &&& is_quote(s[value_open(s, p)])
    &&& value_close(s, p) < s.len()
}

/// Text that the parser may read as a play time: printable ASCII or XML
/// whitespace, no character reference, no more than `MAX_TIME_DIGITS`
/// digits in a row.
pub open spec fn time_text_ok(s: Seq<char>, lo: int, hi: int) -> bool {
    forall|k: int|
        lo <= k < hi ==> #[trigger] s[k] != '&' && ((' ' <= s[k] && s[k] <= '~') || is_xml_space(
            s[k],
        )) && run_end(s, k, ascii_digit()) <= k + MAX_TIME_DIGITS
}

pub open spec fn label_16() -> Seq<char> {
    seq!['1', '6']
}

pub open spec fn label_ucs() -> Seq<char> {
    seq!['u', 'c', 's']
}

pub open spec fn label_unicode() -> Seq<char> {
    seq!['u', 'n', 'i', 'c', 'o', 'd', 'e']
}

/// An encoding label that names no UTF-16 encoding: it holds none of `16`,
/// `ucs` or `unicode` (ASCII case ignored), which every UTF-16 label holds.
pub open spec fn label_ok(s: Seq<char>, lo: int, hi: int) -> bool {
    forall|k: int|
        lo <= k < hi ==> !(#[trigger] label_at(s, k, label_16()) && k + 2 <= hi) && !(label_at(
            s,
            k,
            label_ucs(),
        ) && k + 3 <= hi) && !(label_at(s, k, label_unicode()) && k + 7
            <= hi)
}

/// `key` stands at `i` where an attribute name can start: after XML
/// whitespace or after the closing quote of the previous value.
pub open spec fn attr_key_at(s: Seq<char>, i: int, key: Seq<char>) -> bool {
    1 <= i && (is_xml_space(s[i - 1]) || is_quote(s[i - 1])) && exact_at(s, i, key)
}

/// Wherever `key` stands as an attribute name with a quoted value, that
/// value is acceptable (an encoding label when `is_label`, else a play time).
pub open spec fn key_ok(s: Seq<char>, i: int, key: Seq<char>, is_label: bool) -> bool {
    attr_key_at(s, i, key) && assigned(s, i + key.len()) && quoted_value(s, i + key.len()) ==> {
        let p = i + key.len();
        if is_label {
            label_ok(s, value_open(s, p) + 1, value_close(s, p))
        } else {
            time_text_ok(s, value_open(s, p) + 1, value_close(s, p))
        }
    }
}

pub open spec fn not_lt() -> spec_fn(char) -> bool {
    |c: char| c != '<'
}

/// Where `duration` stands as an element name (after `<` or a prefix's `:`)
/// and its tag closes, the tag holds no quote or `<`, and the text up to the
/// next `<` is an acceptable play time that no comment, CDATA section or
/// processing instruction continues.
pub open spec fn duration_ok(s: Seq<char>, i: int) -> bool {
    1 <= i && (s[i - 1] == '<' || s[i - 1] == ':') && exact_at(s, i, duration_key()) && run_end(
        s,
        i + 8,
        not_gt(),
    ) < s.len() ==> {
        let g = run_end(s, i + 8, not_gt());
        let lt = run_end(s, g + 1, not_lt());
        &&& forall|k: int| i + 8 <= k < g ==> !is_quote(#[trigger] s[k]) && s[k] != '<'
        &&& time_text_ok(s, g + 1, lt)
        &&& lt + 1 < s.len() ==> s[lt + 1] != '!' && s[lt + 1] != '?'
    }
}

pub open spec fn time_key() -> Seq<char> {
    seq!['t', 'i', 'm', 'e']
}

pub open spec fn start_key() -> Seq<char> {
    seq!['s', 't', 'a', 'r', 't']
}

pub open spec fn end_key() -> Seq<char> {
    seq!['e', 'n', 'd']
}

pub open spec fn encoding_key() -> Seq<char> {
    seq!['e', 'n', 'c', 'o', 'd', 'i', 'n', 'g']
}

pub open spec fn duration_key() -> Seq<char> {
    seq!['d', 'u', 'r', 'a', 't', 'i', 'o', 'n']
}

/// At position `i` the play-time, duration and encoding keys are acceptable.
pub open spec fn keys_ok(s: Seq<char>, i: int) -> bool {
    &&& key_ok(s, i, time_key(), false)
    &&& key_ok(s, i, start_key(), false)
    &&& key_ok(s, i, end_key(), false)
    &&& key_ok(s, i, encoding_key(), true)
    &&& duration_ok(s, i)
}

/// The texts handed to the feed parser: no NUL character (which could make
/// the parser read the text as UTF-16), and acceptable keys everywhere.
pub open spec fn parser_safe(s: Seq<char>) -> bool {
    &&& forall|k: int| 0 <= k < s.len() ==> #[trigger] s[k] != '\0'
    &&& forall|i: int| 0 <= i < s.len() ==> #[trigger] keys_ok(s, i)
}

fn run_xml_space(s: &Vec<char>, p: usize) -> (r: usize)
    requires
        p <= s.len(),
    ensures
        r == run_end(s@, p as int, xml_space()),
        p <= r <= s.len(),
{
    let mut q = p;
    while q < s.len() && (s[q] == ' ' || s[q] == '\t' || s[q] == '\n' || s[q] == '\r')
        invariant
            p <= q <= s.len(),
            run_end(s@, p as int, xml_space()) == run_end(s@, q as int, xml_space()),
        decreases s.len() - q,
    {
        q = q + 1;
    }
    q
}

fn run_unlike(s: &Vec<char>, p: usize, quote: char) -> (r: usize)
    requires
        p <= s.len(),
    ensures
        r == run_end(s@, p as int, unlike(quote)),
        p <= r <= s.len(),
{
    let mut q = p;
    while q < s.len() && s[q] != quote
        invariant
            p <= q <= s.len(),
            run_end(s@, p as int, unlike(quote)) == run_end(s@, q as int, unlike(quote)),
        decreases s.len() - q,
    {
        q = q + 1;
    }
    q
}

fn run_digits(s: &Vec<char>, p: usize) -> (r: usize)
    requires
        p <= s.len(),
    ensures
        r == run_end(s@, p as int, ascii_digit()),
        p <= r <= s.len(),
{
    let mut q = p;
    while q < s.len() && '0' <= s[q] && s[q] <= '9'
        invariant
            p <= q <= s.len(),
            run_end(s@, p as int, ascii_digit()) == run_end(s@, q as int, ascii_digit()),
        decreases s.len() - q,
    {
        q = q + 1;
    }
    q
}

fn exact(s: &Vec<char>, i: usize, pat: &Vec<char>) -> (r: bool)
    ensures
        r == exact_at(s@, i as int, pat@),
{
    if pat.len() > s.len() || i > s.len() - pat.len() {
        return false;
    }
    let mut k: usize = 0;
    while k < pat.len()
        invariant
            k <= pat.len(),
            i + pat.len() <= s.len(),
            forall|j: int| 0 <= j < k ==> #[trigger] s@[i + j] == pat@[j],
        decreases pat.len() - k,
    {
        if s[i + k] != pat[k] {
            return false;
        }
        k = k + 1;
    }
    true
}

fn label(s: &Vec<char>, i: usize, pat: &Vec<char>) -> (r: bool)
    ensures
        r == label_at(s@, i as int, pat@),
{
    if pat.len() > s.len() || i > s.len() - pat.len() {
        return false;
    }
    let mut k: usize = 0;
    while k < pat.len()
        invariant
            k <= pat.len(),
            i + pat.len() <= s.len(),
            forall|j: int|
                0 <= j < k ==> #[trigger] s@[i + j] == pat@[j] || ('a' <= pat@[j] && pat@[j] <= 'z'
                    && s@[i + j] as u32 + 32 == pat@[j] as u32),
        decreases pat.len() - k,
    {
        let c = s[i + k];
        let p = pat[k];
        if !(c == p || ('a' <= p && p <= 'z' && c as u32 == p as u32 - 32)) {
            return false;
        }
        k = k + 1;
    }
    true
}

fn check_label(s: &Vec<char>, lo: usize, hi: usize) -> (r: bool)
    requires
        lo <= hi <= s.len(),
    ensures
        r == label_ok(s@, lo as int, hi as int),
{
    let sixteen = vec!['1', '6'];
    let ucs = vec!['u', 'c', 's'];
    let unicode = vec!['u', 'n', 'i', 'c', 'o', 'd', 'e'];
    assert(sixteen@ =~= seq!['1', '6']);
    assert(ucs@ =~= seq!['u', 'c', 's']);
    assert(unicode@ =~= seq!['u', 'n', 'i', 'c', 'o', 'd', 'e']);
    let mut k = lo;
    while k < hi
        invariant
            lo <= k <= hi <= s.len(),
            sixteen@ == label_16(),
            ucs@ == label_ucs(),
            unicode@ == label_unicode(),
            forall|j: int|
                lo <= j < k ==> !(#[trigger] label_at(s@, j, label_16()) && j + 2 <= hi) && !(
                label_at(s@, j, label_ucs()) && j + 3 <= hi) && !(label_at(
                    s@,
                    j,
                    label_unicode(),
                ) && j + 7 <= hi),
        decreases hi - k,
    {
        if (hi - k >= 2 && label(s, k, &sixteen)) || (hi - k >= 3 && label(s, k, &ucs)) || (hi - k
            >= 7 && label(s, k, &unicode)) {
            return false;
        }
        k = k + 1;
    }
    true
}

fn check_time_text(s: &Vec<char>, lo: usize, hi: usize) -> (r: bool)
    requires
        lo <= hi <= s.len(),
    ensures
        r == time_text_ok(s@, lo as int, hi as int),
{
    let mut k = lo;
    while k < hi
        invariant
            lo <= k <= hi <= s.len(),
            forall|j: int|
                lo <= j < k ==> #[trigger] s@[j] != '&' && ((' ' <= s@[j] && s@[j] <= '~')
                    || is_xml_space(s@[j])) && run_end(s@, j, ascii_digit()) <= j + MAX_TIME_DIGITS,
        decreases hi - k,
    {
        let c = s[k];
        if c == '&' || !((' ' <= c && c <= '~') || c == '\t' || c == '\n' || c == '\r') {
            return false;
        }
        if '0' <= c && c <= '9' {
            let e = run_digits(s, k);
            if e - k > MAX_TIME_DIGITS {
                return false;
            }
            proof {
                lemma_run_end_range(s@, k as int, ascii_digit());
                lemma_run_end_bounds(s@, k as int, ascii_digit());
            }
            let stop = if e < hi { e } else { hi };
            let mut j = k;
            while j < stop
                invariant
                    k <= j <= stop <= hi,
                    stop <= e,
                    e - k <= MAX_TIME_DIGITS,
                    forall|x: int| k <= x <= e ==> #[trigger] run_end(s@, x, ascii_digit()) == e,
                    forall|x: int| k <= x < e ==> ascii_digit()(#[trigger] s@[x]),
                    forall|x: int|
                        lo <= x < j ==> #[trigger] s@[x] != '&' && ((' ' <= s@[x] && s@[x] <= '~')
                            || is_xml_space(s@[x])) && run_end(s@, x, ascii_digit()) <= x
                            + MAX_TIME_DIGITS,
                decreases stop - j,
            {
                assert(run_end(s@, j as int, ascii_digit()) == e);
                assert(ascii_digit()(s@[j as int]));
                j = j + 1;
            }
            k = stop;
        } else {
            proof {
                assert(run_end(s@, k as int, ascii_digit()) == k);
            }
            k = k + 1;
        }
    }
    true
}

fn check_key(s: &Vec<char>, i: usize, key: &Vec<char>, is_label: bool) -> (r: bool)
    requires
        i < s.len(),
    ensures
        r == key_ok(s@, i as int, key@, is_label),
{
    if i == 0 || !(s[i - 1] == ' ' || s[i - 1] == '\t' || s[i - 1] == '\n' || s[i - 1] == '\r'
        || s[i - 1] == '"' || s[i - 1] == '\'') || !exact(s, i, key) {
        return true;
    }
    let p = i + key.len();
    let a = run_xml_space(s, p);
    if !(a < s.len() && s[a] == '=') {
        return true;
    }
    let b = run_xml_space(s, a + 1);
    if !(b < s.len() && (s[b] == '"' || s[b] == '\'')) {
        return true;
    }
    let e = run_unlike(s, b + 1, s[b]);
    if e >= s.len() {
        return true;
    }
    if is_label {
        check_label(s, b + 1, e)
    } else {
        check_time_text(s, b + 1, e)
    }
}

fn run_not_lt(s: &Vec<char>, p: usize) -> (r: usize)
    requires
        p <= s.len(),
    ensures
        r == run_end(s@, p as int, not_lt()),
        p <= r <= s.len(),
{
    let mut q = p;
    while q < s.len() && s[q] != '<'
        invariant
            p <= q <= s.len(),
            run_end(s@, p as int, not_lt()) == run_end(s@, q as int, not_lt()),
        decreases s.len() - q,
    {
        q = q + 1;
    }
    q
}

fn check_duration(s: &Vec<char>, i: usize, key: &Vec<char>) -> (r: bool)
    requires
        i < s.len(),
        key@ == duration_key(),
    ensures
        r == duration_ok(s@, i as int),
{
    if i == 0 || !(s[i - 1] == '<' || s[i - 1] == ':') || !exact(s, i, key) {
        return true;
    }
    let g = skip_not_gt(s, i + 8);
    proof {
        lemma_run_end_bounds(s@, i + 8, not_gt());
    }
    if g >= s.len() {
        return true;
    }
    let mut k = i + 8;
    while k < g
        invariant
            i + 8 <= k <= g < s.len(),
            1 <= i,
            s@[i - 1] == '<' || s@[i - 1] == ':',
            exact_at(s@, i as int, duration_key()),
            g == run_end(s@, i + 8, not_gt()),
            forall|j: int| i + 8 <= j < k ==> !is_quote(#[trigger] s@[j]) && s@[j] != '<',
        decreases g - k,
    {
        if s[k] == '"' || s[k] == '\'' || s[k] == '<' {
            assert(is_quote(s@[k as int]) || s@[k as int] == '<');
            return false;
        }
        k = k + 1;
    }
    let lt = run_not_lt(s, g + 1);
    if !check_time_text(s, g + 1, lt) {
        return false;
    }
    !(s.len() - lt > 1 && (s[lt + 1] == '!' || s[lt + 1] == '?'))
}

/// Whether the feed parser may be handed this text.
pub fn parser_safe_text(s: &Vec<char>) -> (r: bool)
    ensures
        r == parser_safe(s@),
{
    let time = vec!['t', 'i', 'm', 'e'];
    let start = vec!['s', 't', 'a', 'r', 't'];
    let end = vec!['e', 'n', 'd'];
    let encoding = vec!['e', 'n', 'c', 'o', 'd', 'i', 'n', 'g'];
    let duration = vec!['d', 'u', 'r', 'a', 't', 'i', 'o', 'n'];
    assert(duration@ =~= duration_key());
    assert(time@ =~= time_key());
    assert(start@ =~= start_key());
    assert(end@ =~= end_key());
    assert(encoding@ =~= encoding_key());
    let mut i: usize = 0;
    while i < s.len()
        invariant
            i <= s.len(),
            time@ == time_key(),
            start@ == start_key(),
            end@ == end_key(),
            encoding@ == encoding_key(),
            duration@ == duration_key(),
            forall|k: int| 0 <= k < i ==> #[trigger] s@[k] != '\0',
            forall|j: int| 0 <= j < i ==> #[trigger] keys_ok(s@, j),
        decreases s.len() - i,
    {
        if s[i] == '\0' || !check_key(s, i, &time, false) || !check_key(s, i, &start, false)
            || !check_key(s, i, &end, false) || !check_key(s, i, &encoding, true)
            || !check_duration(s, i, &duration) {
            assert(s@[i as int] == '\0' || !keys_ok(s@, i as int));
            return false;
        }
        assert(keys_ok(s@, i as int));
        i = i + 1;
    }
    true
}

} // verus!
