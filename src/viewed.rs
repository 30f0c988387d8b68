//! The ledger of articles the reader has opened: one record per article URL,
//! kept most recently viewed first.
use vstd::prelude::*;

verus! {

/// A persisted fact that an article was opened.
#[derive(Debug, Clone)]
pub struct ViewedRecord {
    pub article_url: String,
    pub title: String,
    /// When it was last opened, in seconds of the store's clock.
    pub viewed_at: u64,
}

pub struct RecordModel {
    pub url: Seq<char>,
    pub title: Seq<char>,
    pub viewed_at: u64,
}

impl View for ViewedRecord {
    type V = RecordModel;

    open spec fn view(&self) -> RecordModel {
        RecordModel { url: self.article_url@, title: self.title@, viewed_at: self.viewed_at }
    }
}

/// The index of the record for `url` at or after `k` (the length if none).
pub open spec fn url_index(s: Seq<RecordModel>, url: Seq<char>, k: int) -> int
    decreases s.len() - k,
{
    if k < 0 || k >= s.len() || s[k].url == url {
        k
    } else {
        url_index(s, url, k + 1)
    }
}

/// The records without the one for `url`.
pub open spec fn without_url(s: Seq<RecordModel>, url: Seq<char>) -> Seq<RecordModel> {
    let k = url_index(s, url, 0);
    if k < s.len() {
        s.remove(k)
    } else {
        s
    }
}

/// Where a record viewed at `t` goes: before the first one at or after `k`
/// that was viewed at `t` or earlier.
pub open spec fn insert_index(s: Seq<RecordModel>, t: u64, k: int) -> int
    decreases s.len() - k,
{
    if k < 0 || k >= s.len() || s[k].viewed_at <= t {
        k
    } else {
        insert_index(s, t, k + 1)
    }
}

/// The records after `url` is marked viewed at `now` with `title`: any
/// earlier record for it is replaced, and the new one stands before every
/// record viewed at `now` or earlier.
pub open spec fn marked(s: Seq<RecordModel>, url: Seq<char>, title: Seq<char>, now: u64) -> Seq<
    RecordModel,
> {
    let r = without_url(s, url);
    r.insert(insert_index(r, now, 0), RecordModel { url, title, viewed_at: now })
}

pub open spec fn has_url(s: Seq<RecordModel>, url: Seq<char>) -> bool {
    exists|k: int| 0 <= k < s.len() && #[trigger] s[k].url == url
}

pub open spec fn urls(s: Seq<RecordModel>) -> Seq<Seq<char>> {
    s.map_values(|r: RecordModel| r.url)
}

/// One record per URL, most recently viewed first.
pub open spec fn records_wf(s: Seq<RecordModel>) -> bool {
    &&& forall|i: int, j: int| 0 <= i < j < s.len() ==> #[trigger] s[i].url != #[trigger] s[j].url
    &&& forall|i: int, j: int|
        0 <= i < j < s.len() ==> #[trigger] s[i].viewed_at >= #[trigger] s[j].viewed_at
}

/// The viewed-article records, most recently viewed first.
pub struct ViewedLedger {
    records: Vec<ViewedRecord>,
}

impl View for ViewedLedger {
    type V = Seq<RecordModel>;

    closed spec fn view(&self) -> Seq<RecordModel> {
        self.records@.map_values(|r: ViewedRecord| r@)
    }
}

proof fn lemma_url_index(s: Seq<RecordModel>, url: Seq<char>, k: int)
    requires
        0 <= k <= s.len(),
    ensures
        k <= url_index(s, url, k) <= s.len(),
        url_index(s, url, k) < s.len() ==> s[url_index(s, url, k)].url == url,
        forall|j: int| k <= j < url_index(s, url, k) ==> #[trigger] s[j].url != url,
    decreases s.len() - k,
{
    if k < s.len() && s[k].url != url {
        lemma_url_index(s, url, k + 1);
    }
}

proof fn lemma_insert_index(s: Seq<RecordModel>, t: u64, k: int)
    requires
        0 <= k <= s.len(),
    ensures
        k <= insert_index(s, t, k) <= s.len(),
        insert_index(s, t, k) < s.len() ==> s[insert_index(s, t, k)].viewed_at <= t,
        forall|j: int| k <= j < insert_index(s, t, k) ==> #[trigger] s[j].viewed_at > t,
    decreases s.len() - k,
{
    if k < s.len() && s[k].viewed_at > t {
        lemma_insert_index(s, t, k + 1);
    }
}

proof fn lemma_without_url(s: Seq<RecordModel>, url: Seq<char>)
    requires
        records_wf(s),
    ensures
        records_wf(without_url(s, url)),
        !has_url(without_url(s, url), url),
        forall|u: Seq<char>| u != url ==> (has_url(without_url(s, url), u) <==> has_url(s, u)),
{
    lemma_url_index(s, url, 0);
    let k = url_index(s, url, 0);
    let r = without_url(s, url);
    if k < s.len() {
        assert forall|j: int| 0 <= j < r.len() implies #[trigger] r[j].url != url by {
            if j < k {
                assert(r[j] == s[j]);
            } else {
                assert(r[j] == s[j + 1]);
                assert(s[k].url != s[j + 1].url);
            }
        }
        assert forall|u: Seq<char>| u != url implies (has_url(r, u) <==> has_url(s, u)) by {
            if has_url(s, u) {
                let j = choose|j: int| 0 <= j < s.len() && #[trigger] s[j].url == u;
                if j < k {
                    assert(r[j].url == u);
                } else {
                    assert(j != k);
                    assert(r[j - 1].url == u);
                }
            }
            if has_url(r, u) {
                let j = choose|j: int| 0 <= j < r.len() && #[trigger] r[j].url == u;
                if j < k {
                    assert(s[j].url == u);
                } else {
                    assert(s[j + 1].url == u);
                }
            }
        }
    }
}

proof fn lemma_marked(s: Seq<RecordModel>, url: Seq<char>, title: Seq<char>, now: u64)
    requires
        records_wf(s),
    ensures
        records_wf(marked(s, url, title, now)),
{
    lemma_without_url(s, url);
    let r = without_url(s, url);
    lemma_insert_index(r, now, 0);
    let p = insert_index(r, now, 0);
    let m = marked(s, url, title, now);
    assert forall|i: int, j: int| 0 <= i < j < m.len() implies #[trigger] m[i].url
        != #[trigger] m[j].url by {
        if i == p {
            assert(m[j] == r[j - 1]);
        } else if j == p {
            assert(m[i] == r[i]);
        } else {
            let ri = if i < p { i } else { i - 1 };
            let rj = if j < p { j } else { j - 1 };
            assert(m[i] == r[ri] && m[j] == r[rj]);
        }
    }
    assert forall|i: int, j: int| 0 <= i < j < m.len() implies #[trigger] m[i].viewed_at
        >= #[trigger] m[j].viewed_at by {
        if i == p {
            assert(m[j] == r[j - 1]);
            if p < r.len() {
                assert(r[p].viewed_at <= now);
                assert(r[p].viewed_at >= r[j - 1].viewed_at || j - 1 == p);
            }
        } else if j == p {
            assert(m[i] == r[i]);
        } else {
            let ri = if i < p { i } else { i - 1 };
            let rj = if j < p { j } else { j - 1 };
            assert(m[i] == r[ri] && m[j] == r[rj]);
        }
    }
}

/// The title recorded for `url`.
pub open spec fn title_for(s: Seq<RecordModel>, url: Seq<char>) -> Seq<char> {
    s[url_index(s, url, 0)].title
}

/// Marking an article viewed makes it viewed at once, under the title just
/// given (the last write wins), whatever the ledger held before.
pub proof fn lemma_marked_is_viewed(s: Seq<RecordModel>, url: Seq<char>, title: Seq<char>, now: u64)
    requires
        records_wf(s),
    ensures
        has_url(marked(s, url, title, now), url),
        title_for(marked(s, url, title, now), url) == title,
        forall|u: Seq<char>| u != url ==> (has_url(marked(s, url, title, now), u) <==> has_url(s, u)),
{
    lemma_without_url(s, url);
    let r = without_url(s, url);
    lemma_insert_index(r, now, 0);
    let p = insert_index(r, now, 0);
    let m = marked(s, url, title, now);
    assert(m[p].url == url);
    lemma_url_index(m, url, 0);
    let q = url_index(m, url, 0);
    assert(q == p) by {
        if q < p {
            assert(m[q] == r[q]);
        }
    }
    assert forall|u: Seq<char>| u != url implies (has_url(m, u) <==> has_url(r, u)) by {
        if has_url(m, u) {
            let j = choose|j: int| 0 <= j < m.len() && #[trigger] m[j].url == u;
            if j < p {
                assert(r[j].url == u);
            } else if j > p {
                assert(r[j - 1].url == u);
            }
        }
        if has_url(r, u) {
            let j = choose|j: int| 0 <= j < r.len() && #[trigger] r[j].url == u;
            if j < p {
                assert(m[j].url == u);
            } else {
                assert(m[j + 1].url == u);
            }
        }
    }
}

proof fn lemma_url_index_shift(h: RecordModel, t: Seq<RecordModel>, url: Seq<char>, k: int)
    requires
        0 <= k <= t.len(),
    ensures
        url_index(seq![h] + t, url, k + 1) == url_index(t, url, k) + 1,
    decreases t.len() - k,
{
    let x = seq![h] + t;
    if k < t.len() {
        assert(x[k + 1] == t[k]);
        if t[k].url != url {
            lemma_url_index_shift(h, t, url, k + 1);
        }
    }
}

/// When the clock has not gone back, a newly marked article heads the list.
proof fn lemma_marked_latest(s: Seq<RecordModel>, url: Seq<char>, title: Seq<char>, now: u64)
    requires
        forall|k: int| 0 <= k < s.len() ==> #[trigger] s[k].viewed_at <= now,
    ensures
        marked(s, url, title, now) == seq![RecordModel { url, title, viewed_at: now }]
            + without_url(s, url),
{
    let r = without_url(s, url);
    lemma_url_index(s, url, 0);
    if r.len() > 0 {
        assert(r[0].viewed_at <= now) by {
            if url_index(s, url, 0) == 0 {
                assert(r[0] == s[1]);
            } else {
                assert(r[0] == s[0]);
            }
        }
    }
    assert(insert_index(r, now, 0) == 0);
    assert(marked(s, url, title, now) =~= seq![RecordModel { url, title, viewed_at: now }] + r);
}

/// The list is ordered by time of viewing, most recent first, and an
/// article marked at a time no earlier than any recorded one heads it, the
/// others following in their former order.
pub proof fn lemma_latest_mark_heads_list(
    s: Seq<RecordModel>,
    url: Seq<char>,
    title: Seq<char>,
    now: u64,
)
    requires
        records_wf(s),
        forall|k: int| 0 <= k < s.len() ==> #[trigger] s[k].viewed_at <= now,
    ensures
        urls(marked(s, url, title, now)) == seq![url] + urls(without_url(s, url)),
        forall|i: int, j: int|
            0 <= i < j < marked(s, url, title, now).len() ==> #[trigger] marked(
                s,
                url,
                title,
                now,
            )[i].viewed_at >= #[trigger] marked(s, url, title, now)[j].viewed_at,
{
    lemma_marked_latest(s, url, title, now);
    lemma_marked(s, url, title, now);
    let r = RecordModel { url, title, viewed_at: now };
    assert(urls(seq![r] + without_url(s, url)) =~= seq![url] + urls(without_url(s, url)));
}

/// Articles are listed most recently viewed first: after `a` and then `b`
/// are marked, with a clock that has not gone back, the list starts with
/// `b` and then `a`, followed by the other records in their former order.
pub proof fn lemma_recent_first(
    s: Seq<RecordModel>,
    a: Seq<char>,
    title_a: Seq<char>,
    at_a: u64,
    b: Seq<char>,
    title_b: Seq<char>,
    at_b: u64,
)
    requires
        records_wf(s),
        a != b,
        forall|k: int| 0 <= k < s.len() ==> #[trigger] s[k].viewed_at <= at_a,
        at_a <= at_b,
    ensures
        urls(marked(marked(s, a, title_a, at_a), b, title_b, at_b)) == seq![b, a] + urls(
            without_url(without_url(s, a), b),
        ),
{
    let w = without_url(s, a);
    lemma_url_index(s, a, 0);
    assert forall|k: int| 0 <= k < w.len() implies #[trigger] w[k].viewed_at <= at_a by {
        if k < url_index(s, a, 0) {
            assert(w[k] == s[k]);
        } else {
            assert(w[k] == s[k + 1]);
        }
    }
    lemma_marked_latest(s, a, title_a, at_a);
    let ra = RecordModel { url: a, title: title_a, viewed_at: at_a };
    let m1 = seq![ra] + w;
    assert forall|k: int| 0 <= k < m1.len() implies #[trigger] m1[k].viewed_at <= at_b by {
        if k > 0 {
            assert(m1[k] == w[k - 1]);
        }
    }
    lemma_marked_latest(m1, b, title_b, at_b);
    lemma_url_index(w, b, 0);
    lemma_url_index_shift(ra, w, b, 0);
    assert(url_index(m1, b, 0) == url_index(m1, b, 1));
    assert(without_url(m1, b) =~= seq![ra] + without_url(w, b));
    let rb = RecordModel { url: b, title: title_b, viewed_at: at_b };
    assert(urls(seq![rb] + (seq![ra] + without_url(w, b))) =~= seq![b, a] + urls(
        without_url(w, b),
    ));
}

impl ViewedLedger {
    pub open spec fn wf(&self) -> bool {
        records_wf(self@)
    }

    /// An empty ledger.
    pub fn new() -> (r: Self)
        ensures
            r.wf(),
            r@ == Seq::<RecordModel>::empty(),
    {
        let r = ViewedLedger { records: Vec::new() };
        assert(r@ =~= Seq::<RecordModel>::empty());
        r
    }

    fn position_of(&self, url: &String) -> (k: usize)
        ensures
            k == url_index(self@, url@, 0),
    {
        let mut k: usize = 0;
        while k < self.records.len() && !(self.records[k].article_url == *url)
            invariant
                k <= self.records.len(),
                url_index(self@, url@, 0) == url_index(self@, url@, k as int),
            decreases self.records.len() - k,
        {
            k = k + 1;
        }
        k
    }

    /// Records that the article at `url` was opened at `now` under `title`,
    /// replacing any earlier record for it.
    pub fn mark_viewed(&mut self, url: &str, title: &str, now: u64)
        requires
            old(self).wf(),
        ensures
            final(self).wf(),
            final(self)@ == marked(old(self)@, url@, title@, now),
    {
        let url_s = url.to_string();
        let k = self.position_of(&url_s);
        proof { lemma_url_index(self@, url@, 0); }
        if k < self.records.len() {
            let ghost before = self.records@;
            self.records.remove(k);
            assert(self@ =~= without_url(old(self)@, url@));
        } else {
            assert(self@ =~= without_url(old(self)@, url@));
        }
        let mut p: usize = 0;
        while p < self.records.len() && self.records[p].viewed_at > now
            invariant
                p <= self.records.len(),
                insert_index(self@, now, 0) == insert_index(self@, now, p as int),
            decreases self.records.len() - p,
        {
            p = p + 1;
        }
        let rec = ViewedRecord { article_url: url_s, title: title.to_string(), viewed_at: now };
        let ghost before = self.records@;
        self.records.insert(p, rec);
        assert(self@ =~= before.map_values(|r: ViewedRecord| r@).insert(p as int, rec@));
        proof { lemma_marked(old(self)@, url@, title@, now); }
    }

    /// Whether a record for exactly this URL exists.
    pub fn is_viewed(&self, url: &str) -> (r: bool)
        ensures
            r == has_url(self@, url@),
    {
        let url_s = url.to_string();
        let k = self.position_of(&url_s);
        proof {
            lemma_url_index(self@, url@, 0);
        }
        k < self.records.len()
    }

    /// The title recorded for `url`, if it was viewed.
    pub fn title_of(&self, url: &str) -> (r: Option<String>)
        ensures
            r is Some <==> has_url(self@, url@),
            r matches Some(t) ==> t@ == title_for(self@, url@),
    {
        let url_s = url.to_string();
        let k = self.position_of(&url_s);
        proof {
            lemma_url_index(self@, url@, 0);
        }
        if k < self.records.len() {
            Some(self.records[k].title.clone())
        } else {
            None
        }
    }

    /// The recorded URLs, most recently viewed first.
    pub fn list_viewed(&self) -> (r: Vec<String>)
        ensures
            r@.map_values(|u: String| u@) == urls(self@),
    {
        let mut out: Vec<String> = Vec::new();
        let mut i: usize = 0;
        while i < self.records.len()
            invariant
                i <= self.records.len(),
                out@.map_values(|u: String| u@) =~= urls(self@).take(i as int),
            decreases self.records.len() - i,
        {
            let ghost before = out@;
            out.push(self.records[i].article_url.clone());
            assert(out@.map_values(|u: String| u@) =~= before.map_values(|u: String| u@).push(
                self.records@[i as int].article_url@,
            ));
            i = i + 1;
        }
        out
    }
}

} // verus!
