//! The per-article enrichment protocol: ask the retrying capability for a
//! structured response, parse it, and on a response that parses as
//! truncated ask exactly once more.  Any other parse failure, or a second
//! failure of any kind, drops the article; failures never escalate.

use crate::api::{AskAsync, RetryAsk};
use crate::models::{
    dedup_by_key, date_key, entity_key, enriched_ok, finalize_article, string_key, timeframe_key,
    AwfulNewsArticle, ImportantDate, ImportantTimeframe, NamedEntity, NewsArticle,
};
use vstd::prelude::*;

verus! {

/// The outcome of parsing a response text as an enriched article.
pub enum ParseOutcome {
    /// The response parsed as a complete enriched article.
    Parsed(AwfulNewsArticle),
    /// The response ended before the structure closed.
    Truncated,
    /// The response is complete but not the expected structure.
    Malformed,
}

/// A parser for response texts.  The pipeline's parser reads the
/// structured payload; tests may substitute any classification.
pub trait ParseResponse {
    fn parse(&self, response: &str) -> ParseOutcome;
}

/// Classify a parse result given whether its error was recognized as a
/// truncation: the outcome is fixed for every value of the inputs.
pub fn parse_outcome_with(
    r: Result<AwfulNewsArticle, serde_json::Error>,
    truncated: bool,
) -> (o: ParseOutcome)
    ensures
        r matches Ok(a) ==> o == ParseOutcome::Parsed(a),
        r is Err && truncated ==> o is Truncated,
        r is Err && !truncated ==> o is Malformed,
{
    match r {
        Ok(a) => ParseOutcome::Parsed(a),
        Err(_) => {
            if truncated {
                ParseOutcome::Truncated
            } else {
                ParseOutcome::Malformed
            }
        },
    }
}

/// Classify a parse result, telling a truncated payload apart from a
/// malformed one by the error's category.
pub fn parse_outcome_of(r: Result<AwfulNewsArticle, serde_json::Error>) -> (o: ParseOutcome)
    ensures
        r matches Ok(a) ==> o == ParseOutcome::Parsed(a),
        r matches Err(_) ==> o is Truncated || o is Malformed,
{
    let truncated = match &r {
        Ok(_) => false,
        Err(e) => crate::utils::looks_truncated(e),
    };
    parse_outcome_with(r, truncated)
}

/// One ask-and-parse attempt as the enrichment protocol sees it.
pub enum AttemptOutcome {
    /// The call failed even after its retries.
    CallFailed,
    /// The call answered and the answer parsed.
    Parsed(AwfulNewsArticle),
    /// The call answered but the answer was cut off.
    Truncated,
    /// The call answered but the answer was not the expected structure.
    Malformed,
}

/// How many ask-and-parse attempts enrichment consumes from a run whose
/// successive attempts resolve as `outcomes`: two exactly when the first
/// attempt parses as truncated, one otherwise.
pub open spec fn enrich_attempts_spec(outcomes: Seq<AttemptOutcome>) -> int
    recommends
        outcomes.len() >= 1,
{
    if outcomes.len() >= 1 && outcomes[0] is Truncated {
        2
    } else {
        1
    }
}

/// `r` is `article` finalized from the parsed payload `a`: provenance
/// stamped from the raw article, every sub-collection deduplicated, all
/// other fields carried over.
pub open spec fn is_finalized(r: AwfulNewsArticle, a: AwfulNewsArticle, raw: NewsArticle) -> bool {
    &&& enriched_ok(r, raw)
    &&& r.title == a.title
    &&& r.category == a.category
    &&& r.dateOfPublication == a.dateOfPublication
    &&& r.timeOfPublication == a.timeOfPublication
    &&& r.summaryOfNewsArticle == a.summaryOfNewsArticle
    &&& r.tags == a.tags
    &&& r.namedEntities@ == dedup_by_key(a.namedEntities@, |e: NamedEntity| entity_key(e))
    &&& r.importantDates@ == dedup_by_key(a.importantDates@, |d: ImportantDate| date_key(d))
    &&& r.importantTimeframes@ == dedup_by_key(
        a.importantTimeframes@,
        |t: ImportantTimeframe| timeframe_key(t),
    )
    &&& r.keyTakeAways@ == dedup_by_key(a.keyTakeAways@, |s: String| string_key(s))
}

/// How the enrichment protocol resolves a run whose attempts resolve as
/// `outcomes`: the first parsed payload within the allowed attempts is
/// finalized; everything else drops the article.
pub open spec fn enrich_resolves(
    outcomes: Seq<AttemptOutcome>,
    raw: NewsArticle,
    result: Option<AwfulNewsArticle>,
) -> bool
    recommends
        outcomes.len() >= 1,
{
    if outcomes.len() == 0 {
        result is None
    } else {
        match outcomes[0] {
            AttemptOutcome::CallFailed => result is None,
            AttemptOutcome::Parsed(a) => result matches Some(r) && is_finalized(r, a, raw),
            AttemptOutcome::Malformed => result is None,
            AttemptOutcome::Truncated => {
                if outcomes.len() < 2 {
                    result is None
                } else {
                    match outcomes[1] {
                        AttemptOutcome::Parsed(a) => result matches Some(r) && is_finalized(
                            r,
                            a,
                            raw,
                        ),
                        _ => result is None,
                    }
                }
            },
        }
    }
}

/// Truncation retry is single-shot: a run consumes a second attempt exactly
/// when the first parses as truncated, never a third; and when that second
/// attempt is anything but a parsed payload, the article is dropped.
pub proof fn lemma_truncation_single_shot(
    outcomes: Seq<AttemptOutcome>,
    raw: NewsArticle,
    result: Option<AwfulNewsArticle>,
)
    requires
        outcomes.len() >= 2,
        enrich_resolves(outcomes, raw, result),
    ensures
        1 <= enrich_attempts_spec(outcomes) <= 2,
        enrich_attempts_spec(outcomes) == 2 <==> outcomes[0] is Truncated,
        outcomes[0] is Truncated && !(outcomes[1] is Parsed) ==> result is None,
{
}

/// Enrich one raw article: ask the retrying capability, parse, re-ask once
/// on a truncated response, and finalize a parsed payload.  The result is
/// `None` exactly when no allowed attempt yielded a parsed payload, and a
/// returned article is always finalized for `article`; some run of at most
/// two attempts accounts for the result.
pub fn enrich_article<C: AskAsync, P: ParseResponse>(
    client: &mut RetryAsk<C>,
    parser: &P,
    article: &NewsArticle,
) -> (r: Option<AwfulNewsArticle>)
    ensures
        r matches Some(a) ==> enriched_ok(a, *article),
        exists|outcomes: Seq<AttemptOutcome>|
            1 <= outcomes.len() <= 2 && enrich_resolves(outcomes, *article, r),
        final(client).max_retries == old(client).max_retries,
        final(client).base_delay_ms == old(client).base_delay_ms,
        final(client).max_delay_ms == old(client).max_delay_ms,
{
    match client.ask(article.content.as_str()) {
        Err(_) => {
            proof {
                let tr = seq![AttemptOutcome::CallFailed];
                assert(enrich_resolves(tr, *article, None::<AwfulNewsArticle>));
            }
            None
        },
        Ok(resp) => {
            match parser.parse(resp.as_str()) {
                ParseOutcome::Parsed(a) => {
                    let f = finalize_article(a, article);
                    proof {
                        let tr = seq![AttemptOutcome::Parsed(a)];
                        assert(enrich_resolves(tr, *article, Some(f)));
                    }
                    Some(f)
                },
                ParseOutcome::Malformed => {
                    proof {
                        let tr = seq![AttemptOutcome::Malformed];
                        assert(enrich_resolves(tr, *article, None::<AwfulNewsArticle>));
                    }
                    None
                },
                ParseOutcome::Truncated => {
                    match client.ask(article.content.as_str()) {
                        Err(_) => {
                            proof {
                                let tr = seq![
                                    AttemptOutcome::Truncated,
                                    AttemptOutcome::CallFailed,
                                ];
                                assert(enrich_resolves(tr, *article, None::<AwfulNewsArticle>));
                            }
                            None
                        },
                        Ok(r2) => {
                            match parser.parse(r2.as_str()) {
                                ParseOutcome::Parsed(a) => {
                                    let f = finalize_article(a, article);
                                    proof {
                                        let tr = seq![
                                            AttemptOutcome::Truncated,
                                            AttemptOutcome::Parsed(a),
                                        ];
                                        assert(enrich_resolves(tr, *article, Some(f)));
                                    }
                                    Some(f)
                                },
                                ParseOutcome::Truncated => {
                                    proof {
                                        let tr = seq![
                                            AttemptOutcome::Truncated,
                                            AttemptOutcome::Truncated,
                                        ];
                                        assert(enrich_resolves(
                                            tr,
                                            *article,
                                            None::<AwfulNewsArticle>,
                                        ));
                                    }
                                    None
                                },
                                ParseOutcome::Malformed => {
                                    proof {
                                        let tr = seq![
                                            AttemptOutcome::Truncated,
                                            AttemptOutcome::Malformed,
                                        ];
                                        assert(enrich_resolves(
                                            tr,
                                            *article,
                                            None::<AwfulNewsArticle>,
                                        ));
                                    }
                                    None
                                },
                            }
                        },
                    }
                },
            }
        },
    }
}

} // verus!
