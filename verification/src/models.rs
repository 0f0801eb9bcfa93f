//! Data models for news articles and their enriched representations, with
//! the per-collection deduplication that every enriched article carries:
//! each sub-collection keeps the first occurrence per key and preserves the
//! relative order of survivors.

use vstd::prelude::*;

verus! {

/// A raw article as fetched from a news source.
pub struct NewsArticle {
    /// The source URL of the article.
    pub source: String,
    /// The raw text content fetched from the article.
    pub content: String,
}

/// A collection of enriched articles representing a single edition.
pub struct FrontPage {
    /// The date of publication in `YYYY-MM-DD` format.
    pub local_date: String,
    /// The time of day category: `morning`, `afternoon`, or `evening`.
    pub time_of_day: String,
    /// The exact local time of publication.
    pub local_time: String,
    /// The enriched articles of this edition.
    pub articles: Vec<AwfulNewsArticle>,
}

/// A named entity extracted from an article.
#[allow(non_snake_case)]
pub struct NamedEntity {
    /// The name of the entity.
    pub name: String,
    /// A brief description of what this entity is.
    pub whatIsThisEntity: String,
    /// Why this entity is relevant to the article.
    pub whyIsThisEntityRelevantToTheArticle: String,
}

/// A significant date mentioned in an article.
#[allow(non_snake_case)]
pub struct ImportantDate {
    /// The date as mentioned in the article.
    pub dateMentionedInArticle: String,
    /// Why this date is significant to the story.
    pub descriptionOfWhyDateIsRelevant: String,
}

/// A significant time period mentioned in an article.
#[allow(non_snake_case)]
pub struct ImportantTimeframe {
    /// The start of the time period.
    pub approximateTimeFrameStart: String,
    /// The end of the time period.
    pub approximateTimeFrameEnd: String,
    /// Why this timeframe is significant to the story.
    pub descriptionOfWhyTimeFrameIsRelevant: String,
}

/// An enriched article: the structured payload returned for one raw
/// article, stamped with its provenance.
#[allow(non_snake_case)]
pub struct AwfulNewsArticle {
    /// The original source URL, stamped after enrichment.
    pub source: Option<String>,
    /// The article's publication date.
    pub dateOfPublication: String,
    /// The article's publication time.
    pub timeOfPublication: String,
    /// The article title.
    pub title: String,
    /// The category assigned to the article.
    pub category: String,
    /// A concise summary of the article content.
    pub summaryOfNewsArticle: String,
    /// Key takeaways, deduplicated by exact value.
    pub keyTakeAways: Vec<String>,
    /// Entities mentioned in the article, deduplicated by name.
    pub namedEntities: Vec<NamedEntity>,
    /// Significant dates, deduplicated by their relevance description.
    pub importantDates: Vec<ImportantDate>,
    /// Significant time ranges, deduplicated by their relevance description.
    pub importantTimeframes: Vec<ImportantTimeframe>,
    /// Topic tags.
    pub tags: Vec<String>,
    /// The original article content, stamped after enrichment.
    pub content: Option<String>,
}

/// What url::Url::parse followed by Url::host_str yields for a URL text:
/// the host component, when the text parses as a URL with one.
pub uninterp spec fn host_of(url: Seq<char>) -> Option<Seq<char>>;

/// Relies on url::Url::parse and url::Url::host_str: the host component is
/// a function of the URL text alone.
#[verifier::external_body]
fn url_host(url: &str) -> (r: Option<String>)
    ensures
        r is Some <==> host_of(url@) is Some,
        r matches Some(h) ==> host_of(url@) == Some(h@),
{
    match url::Url::parse(url) {
        Ok(u) => match u.host_str() {
            Some(h) => Some(h.to_owned()),
            None => None,
        },
        Err(_) => None,
    }
}

/// The dot-separated label before the last one of a host, e.g. the `cnn`
/// of `lite.cnn.com`.
pub open spec fn domain_tag_spec(host: Seq<char>) -> Option<Seq<char>> {
    let parts = crate::utils::split_char_spec(host, '.');
    if parts.len() >= 2 {
        Some(parts[parts.len() - 2])
    } else {
        None
    }
}

impl AwfulNewsArticle {
    /// The short source tag of this article: the domain label before the
    /// TLD of its source URL, when the URL has a host with two labels.
    pub open spec fn source_tag_view(&self) -> Option<Seq<char>> {
        match self.source {
            Some(u) => match host_of(u@) {
                Some(h) => domain_tag_spec(h),
                None => None,
            },
            None => None,
        }
    }

    /// Extract the domain name before the TLD from the source URL.
    pub fn source_tag(&self) -> (r: Option<String>)
        ensures
            r is Some <==> self.source_tag_view() is Some,
            r matches Some(t) ==> self.source_tag_view() == Some(t@),
    {
        match &self.source {
            None => None,
            Some(u) => {
                match url_host(u.as_str()) {
                    None => None,
                    Some(h) => {
                        let parts = crate::utils::split_on_char(h.as_str(), '.');
                        if parts.len() >= 2 {
                            let t = parts[parts.len() - 2].clone();
                            proof {
                                assert(t@ == parts.deep_view()[parts@.len() - 2]);
                            }
                            Some(t)
                        } else {
                            None
                        }
                    },
                }
            },
        }
    }
}

/// Whether some element of `s` has key `k`.
pub open spec fn has_key<A>(s: Seq<A>, key: spec_fn(A) -> Seq<char>, k: Seq<char>) -> bool {
    exists|j: int| 0 <= j < s.len() && key(s[j]) == k
}

/// Keep the first occurrence of each key, preserving the relative order of
/// survivors.
pub open spec fn dedup_by_key<A>(s: Seq<A>, key: spec_fn(A) -> Seq<char>) -> Seq<A>
    decreases s.len(),
{
    if s.len() == 0 {
        Seq::empty()
    } else {
        let prefix = dedup_by_key(s.drop_last(), key);
        if has_key(s.drop_last(), key, key(s.last())) {
            prefix
        } else {
            prefix.push(s.last())
        }
    }
}

/// Deduplication does not change whether a key occurs.
pub proof fn lemma_dedup_same_keys<A>(s: Seq<A>, key: spec_fn(A) -> Seq<char>, k: Seq<char>)
    ensures
        has_key(dedup_by_key(s, key), key, k) == has_key(s, key, k),
    decreases s.len(),
{
    if s.len() > 0 {
        let pre = s.drop_last();
        let ded = dedup_by_key(s, key);
        let dp = dedup_by_key(pre, key);
        lemma_dedup_same_keys(pre, key, k);
        lemma_dedup_same_keys(pre, key, key(s.last()));
        if has_key(s, key, k) {
            let j = choose|j: int| 0 <= j < s.len() && key(s[j]) == k;
            if j < s.len() - 1 {
                assert(pre[j] == s[j]);
                assert(has_key(pre, key, k));
                let i = choose|i: int| 0 <= i < dp.len() && key(dp[i]) == k;
                assert(0 <= i < ded.len() && key(ded[i]) == k);
                assert(has_key(ded, key, k));
            } else {
                assert(key(s.last()) == k);
                if has_key(pre, key, key(s.last())) {
                    let i = choose|i: int| 0 <= i < dp.len() && key(dp[i]) == k;
                    assert(0 <= i < ded.len() && key(ded[i]) == k);
                    assert(has_key(ded, key, k));
                } else {
                    assert(key(ded[ded.len() - 1]) == k);
                    assert(has_key(ded, key, k));
                }
            }
        }
        if has_key(ded, key, k) {
            let i = choose|i: int| 0 <= i < ded.len() && key(ded[i]) == k;
            if i < dp.len() {
                assert(dp[i] == ded[i]);
                assert(has_key(dp, key, k));
                assert(has_key(pre, key, k));
                let j = choose|j: int| 0 <= j < pre.len() && key(pre[j]) == k;
                assert(pre[j] == s[j]);
                assert(has_key(s, key, k));
            } else {
                assert(key(s[s.len() - 1]) == k);
                assert(has_key(s, key, k));
            }
        }
    }
}

/// The deduplicated sequence has pairwise distinct keys.
pub proof fn lemma_dedup_distinct<A>(s: Seq<A>, key: spec_fn(A) -> Seq<char>)
    ensures
        forall|i: int, j: int|
            0 <= i < j < dedup_by_key(s, key).len() ==> key(dedup_by_key(s, key)[i]) != key(
                dedup_by_key(s, key)[j],
            ),
    decreases s.len(),
{
    if s.len() > 0 {
        let pre = s.drop_last();
        lemma_dedup_distinct(pre, key);
        lemma_dedup_same_keys(pre, key, key(s.last()));
        let dp = dedup_by_key(pre, key);
        let ded = dedup_by_key(s, key);
        assert forall|i: int, j: int|
            0 <= i < j < ded.len() implies key(ded[i]) != key(ded[j]) by {
            if j >= dp.len() {
                assert(!has_key(pre, key, key(s.last())));
                assert(!has_key(dp, key, key(s.last())));
                assert(key(ded[j]) == key(s.last()));
                if key(dp[i]) == key(s.last()) {
                    assert(has_key(dp, key, key(s.last())));
                }
            }
        }
    }
}

/// A sequence whose keys are pairwise distinct is its own deduplication.
pub proof fn lemma_dedup_of_distinct<A>(s: Seq<A>, key: spec_fn(A) -> Seq<char>)
    requires
        forall|i: int, j: int| 0 <= i < j < s.len() ==> key(s[i]) != key(s[j]),
    ensures
        dedup_by_key(s, key) == s,
    decreases s.len(),
{
    if s.len() > 0 {
        let pre = s.drop_last();
        lemma_dedup_of_distinct(pre, key);
        if has_key(pre, key, key(s.last())) {
            let t = choose|t: int| 0 <= t < pre.len() && key(pre[t]) == key(s.last());
            assert(pre[t] == s[t]);
            assert(false);
        }
        assert(dedup_by_key(s, key) =~= s);
    }
}

/// Deduplication is idempotent.
pub proof fn lemma_dedup_idempotent<A>(s: Seq<A>, key: spec_fn(A) -> Seq<char>)
    ensures
        dedup_by_key(dedup_by_key(s, key), key) == dedup_by_key(s, key),
{
    lemma_dedup_distinct(s, key);
    lemma_dedup_of_distinct(dedup_by_key(s, key), key);
}

pub open spec fn entity_key(e: NamedEntity) -> Seq<char> {
    e.name@
}

pub open spec fn date_key(d: ImportantDate) -> Seq<char> {
    d.descriptionOfWhyDateIsRelevant@
}

pub open spec fn timeframe_key(t: ImportantTimeframe) -> Seq<char> {
    t.descriptionOfWhyTimeFrameIsRelevant@
}

pub open spec fn string_key(s: String) -> Seq<char> {
    s@
}

fn clone_entity(e: &NamedEntity) -> (r: NamedEntity)
    ensures
        r == *e,
{
    NamedEntity {
        name: e.name.clone(),
        whatIsThisEntity: e.whatIsThisEntity.clone(),
        whyIsThisEntityRelevantToTheArticle: e.whyIsThisEntityRelevantToTheArticle.clone(),
    }
}

/// Deduplicate named entities by name, keeping first occurrences in order.
pub fn dedup_named_entities(v: Vec<NamedEntity>) -> (r: Vec<NamedEntity>)
    ensures
        r@ == dedup_by_key(v@, |e: NamedEntity| entity_key(e)),
{
    let ghost key = |e: NamedEntity| entity_key(e);
    let mut r: Vec<NamedEntity> = Vec::new();
    let mut i: usize = 0;
    while i < v.len()
        invariant
            key == (|e: NamedEntity| entity_key(e)),
            0 <= i <= v@.len(),
            r@ == dedup_by_key(v@.subrange(0, i as int), key),
        decreases v@.len() - i,
    {
        let ghost pre = v@.subrange(0, i as int);
        let ghost pre1 = v@.subrange(0, i + 1);
        let mut seen = false;
        let mut j: usize = 0;
        while j < r.len()
            invariant
                key == (|e: NamedEntity| entity_key(e)),
                0 <= j <= r@.len(),
                i < v@.len(),
                seen == exists|t: int| 0 <= t < j && key(r@[t]) == key(v@[i as int]),
            decreases r@.len() - j,
        {
            if r[j].name == v[i].name {
                seen = true;
                proof {
                    assert(key(r@[j as int]) == key(v@[i as int]));
                }
            }
            j = j + 1;
        }
        proof {
            assert(seen == has_key(r@, key, key(v@[i as int])));
            assert(pre1.drop_last() =~= pre);
            assert(pre1.last() == v@[i as int]);
            lemma_dedup_same_keys(pre, key, key(v@[i as int]));
        }
        if !seen {
            let e = clone_entity(&v[i]);
            r.push(e);
        }
        proof {
            assert(r@ == dedup_by_key(pre1, key));
        }
        i = i + 1;
    }
    proof {
        assert(v@.subrange(0, v@.len() as int) =~= v@);
    }
    r
}

fn clone_date(d: &ImportantDate) -> (r: ImportantDate)
    ensures
        r == *d,
{
    ImportantDate {
        dateMentionedInArticle: d.dateMentionedInArticle.clone(),
        descriptionOfWhyDateIsRelevant: d.descriptionOfWhyDateIsRelevant.clone(),
    }
}

/// Deduplicate important dates by their relevance description, keeping
/// first occurrences in order.
pub fn dedup_important_dates(v: Vec<ImportantDate>) -> (r: Vec<ImportantDate>)
    ensures
        r@ == dedup_by_key(v@, |d: ImportantDate| date_key(d)),
{
    let ghost key = |d: ImportantDate| date_key(d);
    let mut r: Vec<ImportantDate> = Vec::new();
    let mut i: usize = 0;
    while i < v.len()
        invariant
            key == (|d: ImportantDate| date_key(d)),
            0 <= i <= v@.len(),
            r@ == dedup_by_key(v@.subrange(0, i as int), key),
        decreases v@.len() - i,
    {
        let ghost pre = v@.subrange(0, i as int);
        let ghost pre1 = v@.subrange(0, i + 1);
        let mut seen = false;
        let mut j: usize = 0;
        while j < r.len()
            invariant
                key == (|d: ImportantDate| date_key(d)),
                0 <= j <= r@.len(),
                i < v@.len(),
                seen == exists|t: int| 0 <= t < j && key(r@[t]) == key(v@[i as int]),
            decreases r@.len() - j,
        {
            if r[j].descriptionOfWhyDateIsRelevant == v[i].descriptionOfWhyDateIsRelevant {
                seen = true;
                proof {
                    assert(key(r@[j as int]) == key(v@[i as int]));
                }
            }
            j = j + 1;
        }
        proof {
            assert(seen == has_key(r@, key, key(v@[i as int])));
            assert(pre1.drop_last() =~= pre);
            assert(pre1.last() == v@[i as int]);
            lemma_dedup_same_keys(pre, key, key(v@[i as int]));
        }
        if !seen {
            let e = clone_date(&v[i]);
            r.push(e);
        }
        proof {
            assert(r@ == dedup_by_key(pre1, key));
        }
        i = i + 1;
    }
    proof {
        assert(v@.subrange(0, v@.len() as int) =~= v@);
    }
    r
}

fn clone_timeframe(t: &ImportantTimeframe) -> (r: ImportantTimeframe)
    ensures
        r == *t,
{
    ImportantTimeframe {
        approximateTimeFrameStart: t.approximateTimeFrameStart.clone(),
        approximateTimeFrameEnd: t.approximateTimeFrameEnd.clone(),
        descriptionOfWhyTimeFrameIsRelevant: t.descriptionOfWhyTimeFrameIsRelevant.clone(),
    }
}

/// Deduplicate important timeframes by their relevance description, keeping
/// first occurrences in order.
pub fn dedup_important_timeframes(v: Vec<ImportantTimeframe>) -> (r: Vec<ImportantTimeframe>)
    ensures
        r@ == dedup_by_key(v@, |t: ImportantTimeframe| timeframe_key(t)),
{
    let ghost key = |t: ImportantTimeframe| timeframe_key(t);
    let mut r: Vec<ImportantTimeframe> = Vec::new();
    let mut i: usize = 0;
    while i < v.len()
        invariant
            key == (|t: ImportantTimeframe| timeframe_key(t)),
            0 <= i <= v@.len(),
            r@ == dedup_by_key(v@.subrange(0, i as int), key),
        decreases v@.len() - i,
    {
        let ghost pre = v@.subrange(0, i as int);
        let ghost pre1 = v@.subrange(0, i + 1);
        let mut seen = false;
        let mut j: usize = 0;
        while j < r.len()
            invariant
                key == (|t: ImportantTimeframe| timeframe_key(t)),
                0 <= j <= r@.len(),
                i < v@.len(),
                seen == exists|t: int| 0 <= t < j && key(r@[t]) == key(v@[i as int]),
            decreases r@.len() - j,
        {
            if r[j].descriptionOfWhyTimeFrameIsRelevant
                == v[i].descriptionOfWhyTimeFrameIsRelevant {
                seen = true;
                proof {
                    assert(key(r@[j as int]) == key(v@[i as int]));
                }
            }
            j = j + 1;
        }
        proof {
            assert(seen == has_key(r@, key, key(v@[i as int])));
            assert(pre1.drop_last() =~= pre);
            assert(pre1.last() == v@[i as int]);
            lemma_dedup_same_keys(pre, key, key(v@[i as int]));
        }
        if !seen {
            let e = clone_timeframe(&v[i]);
            r.push(e);
        }
        proof {
            assert(r@ == dedup_by_key(pre1, key));
        }
        i = i + 1;
    }
    proof {
        assert(v@.subrange(0, v@.len() as int) =~= v@);
    }
    r
}

/// Deduplicate strings by exact value, keeping first occurrences in order.
pub fn dedup_strings(v: Vec<String>) -> (r: Vec<String>)
    ensures
        r@ == dedup_by_key(v@, |s: String| string_key(s)),
{
    let ghost key = |s: String| string_key(s);
    let mut r: Vec<String> = Vec::new();
    let mut i: usize = 0;
    while i < v.len()
        invariant
            key == (|s: String| string_key(s)),
            0 <= i <= v@.len(),
            r@ == dedup_by_key(v@.subrange(0, i as int), key),
        decreases v@.len() - i,
    {
        let ghost pre = v@.subrange(0, i as int);
        let ghost pre1 = v@.subrange(0, i + 1);
        let mut seen = false;
        let mut j: usize = 0;
        while j < r.len()
            invariant
                key == (|s: String| string_key(s)),
                0 <= j <= r@.len(),
                i < v@.len(),
                seen == exists|t: int| 0 <= t < j && key(r@[t]) == key(v@[i as int]),
            decreases r@.len() - j,
        {
            if r[j] == v[i] {
                seen = true;
                proof {
                    assert(key(r@[j as int]) == key(v@[i as int]));
                }
            }
            j = j + 1;
        }
        proof {
            assert(seen == has_key(r@, key, key(v@[i as int])));
            assert(pre1.drop_last() =~= pre);
            assert(pre1.last() == v@[i as int]);
            lemma_dedup_same_keys(pre, key, key(v@[i as int]));
        }
        if !seen {
            let e = v[i].clone();
            r.push(e);
        }
        proof {
            assert(r@ == dedup_by_key(pre1, key));
        }
        i = i + 1;
    }
    proof {
        assert(v@.subrange(0, v@.len() as int) =~= v@);
    }
    r
}

/// A fully finalized enriched article for a given raw article: provenance
/// stamped from the raw article, and every sub-collection deduplicated by
/// its key.
pub open spec fn enriched_ok(a: AwfulNewsArticle, raw: NewsArticle) -> bool {
    &&& a.source matches Some(s) && s@ == raw.source@
    &&& a.content matches Some(c) && c@ == raw.content@
    &&& a.namedEntities@ == dedup_by_key(a.namedEntities@, |e: NamedEntity| entity_key(e))
    &&& a.importantDates@ == dedup_by_key(a.importantDates@, |d: ImportantDate| date_key(d))
    &&& a.importantTimeframes@ == dedup_by_key(
        a.importantTimeframes@,
        |t: ImportantTimeframe| timeframe_key(t),
    )
    &&& a.keyTakeAways@ == dedup_by_key(a.keyTakeAways@, |s: String| string_key(s))
}

/// Stamp provenance onto an enriched article and deduplicate each of its
/// sub-collections by that collection's key.
pub fn finalize_article(article: AwfulNewsArticle, raw: &NewsArticle) -> (r: AwfulNewsArticle)
    ensures
        enriched_ok(r, *raw),
        r.title == article.title,
        r.category == article.category,
        r.dateOfPublication == article.dateOfPublication,
        r.timeOfPublication == article.timeOfPublication,
        r.summaryOfNewsArticle == article.summaryOfNewsArticle,
        r.tags == article.tags,
        r.namedEntities@ == dedup_by_key(article.namedEntities@, |e: NamedEntity| entity_key(e)),
        r.importantDates@ == dedup_by_key(article.importantDates@, |d: ImportantDate| date_key(d)),
        r.importantTimeframes@ == dedup_by_key(
            article.importantTimeframes@,
            |t: ImportantTimeframe| timeframe_key(t),
        ),
        r.keyTakeAways@ == dedup_by_key(article.keyTakeAways@, |s: String| string_key(s)),
{
    let r = AwfulNewsArticle {
        source: Some(raw.source.clone()),
        content: Some(raw.content.clone()),
        dateOfPublication: article.dateOfPublication,
        timeOfPublication: article.timeOfPublication,
        title: article.title,
        category: article.category,
        summaryOfNewsArticle: article.summaryOfNewsArticle,
        keyTakeAways: dedup_strings(article.keyTakeAways),
        namedEntities: dedup_named_entities(article.namedEntities),
        importantDates: dedup_important_dates(article.importantDates),
        importantTimeframes: dedup_important_timeframes(article.importantTimeframes),
        tags: article.tags,
    };
    proof {
        lemma_dedup_idempotent(article.namedEntities@, |e: NamedEntity| entity_key(e));
        lemma_dedup_idempotent(article.importantDates@, |d: ImportantDate| date_key(d));
        lemma_dedup_idempotent(
            article.importantTimeframes@,
            |t: ImportantTimeframe| timeframe_key(t),
        );
        lemma_dedup_idempotent(article.keyTakeAways@, |s: String| string_key(s));
    }
    r
}

} // verus!

