use awful_text_news::api::{AskAsync, RetryAsk};
use awful_text_news::enrich::{enrich_article, parse_outcome_of, ParseOutcome, ParseResponse};
use awful_text_news::models::{AwfulNewsArticle, NamedEntity, NewsArticle};
use awful_text_news::schedule::{assemble_edition, collate, process_articles};

/// A capability driven by the article text itself: `fail` articles always
/// fail, `trunc` articles answer `TRUNC:` once and then parse cleanly, all
/// others answer `OK:` immediately.
struct ScriptedCap {
    calls: usize,
    trunc_seen: usize,
}

impl AskAsync for ScriptedCap {
    fn ask(&mut self, text: &str) -> Result<String, String> {
        self.calls += 1;
        if text.contains("fail") {
            Err("backend down".to_string())
        } else if text.contains("trunc") {
            self.trunc_seen += 1;
            if self.trunc_seen == 1 {
                Ok(format!("TRUNC:{}", text))
            } else {
                Ok(format!("OK:{}", text))
            }
        } else {
            Ok(format!("OK:{}", text))
        }
    }

    fn pause(&mut self, _delay_ms: u64) {}
}

/// A capability whose second answer for a `trunc` article is truncated
/// again.
struct DoubleTruncCap {
    calls: usize,
}

impl AskAsync for DoubleTruncCap {
    fn ask(&mut self, text: &str) -> Result<String, String> {
        self.calls += 1;
        Ok(format!("TRUNC:{}", text))
    }

    fn pause(&mut self, _delay_ms: u64) {}
}

struct PrefixParser;

fn parsed_article(title: &str) -> AwfulNewsArticle {
    AwfulNewsArticle {
        source: None,
        dateOfPublication: "2025-05-06".to_string(),
        timeOfPublication: "08:00:00".to_string(),
        title: title.to_string(),
        category: "News".to_string(),
        summaryOfNewsArticle: "summary".to_string(),
        keyTakeAways: vec!["k".to_string(), "k".to_string()],
        namedEntities: vec![
            NamedEntity {
                name: "A".to_string(),
                whatIsThisEntity: "x".to_string(),
                whyIsThisEntityRelevantToTheArticle: "y".to_string(),
            },
            NamedEntity {
                name: "B".to_string(),
                whatIsThisEntity: "x".to_string(),
                whyIsThisEntityRelevantToTheArticle: "y".to_string(),
            },
            NamedEntity {
                name: "A".to_string(),
                whatIsThisEntity: "x2".to_string(),
                whyIsThisEntityRelevantToTheArticle: "y2".to_string(),
            },
        ],
        importantDates: vec![],
        importantTimeframes: vec![],
        tags: vec!["t".to_string()],
        content: None,
    }
}

impl ParseResponse for PrefixParser {
    fn parse(&self, response: &str) -> ParseOutcome {
        if let Some(rest) = response.strip_prefix("OK:") {
            ParseOutcome::Parsed(parsed_article(rest))
        } else if response.starts_with("TRUNC:") {
            ParseOutcome::Truncated
        } else {
            ParseOutcome::Malformed
        }
    }
}

fn raw(source: &str, content: &str) -> NewsArticle {
    NewsArticle { source: source.to_string(), content: content.to_string() }
}

#[test]
fn test_enrich_stamps_provenance_and_dedups() {
    let cap = ScriptedCap { calls: 0, trunc_seen: 0 };
    let mut client = RetryAsk::new(cap, 2, 0);
    let article = raw("https://lite.cnn.com/a", "clean story");
    let r = enrich_article(&mut client, &PrefixParser, &article).unwrap();
    assert_eq!(r.source, Some("https://lite.cnn.com/a".to_string()));
    assert_eq!(r.content, Some("clean story".to_string()));
    assert_eq!(r.title, "clean story");
    let names: Vec<&str> = r.namedEntities.iter().map(|e| e.name.as_str()).collect();
    assert_eq!(names, vec!["A", "B"]);
    assert_eq!(r.keyTakeAways, vec!["k".to_string()]);
    assert_eq!(client.inner.calls, 1);
}

#[test]
fn test_truncation_triggers_exactly_one_reask() {
    let cap = ScriptedCap { calls: 0, trunc_seen: 0 };
    let mut client = RetryAsk::new(cap, 0, 0);
    let article = raw("s", "trunc story");
    let r = enrich_article(&mut client, &PrefixParser, &article);
    assert!(r.is_some());
    assert_eq!(client.inner.calls, 2);
}

#[test]
fn test_second_truncation_drops_without_third_ask() {
    let cap = DoubleTruncCap { calls: 0 };
    let mut client = RetryAsk::new(cap, 0, 0);
    let article = raw("s", "anything");
    let r = enrich_article(&mut client, &PrefixParser, &article);
    assert!(r.is_none());
    assert_eq!(client.inner.calls, 2);
}

#[test]
fn test_enrich_failed_call_drops_article() {
    let cap = ScriptedCap { calls: 0, trunc_seen: 0 };
    let mut client = RetryAsk::new(cap, 1, 0);
    let article = raw("s", "fail story");
    let r = enrich_article(&mut client, &PrefixParser, &article);
    assert!(r.is_none());
    assert_eq!(client.inner.calls, 2);
}

#[test]
fn test_parse_outcome_of_classifies() {
    let ok: Result<AwfulNewsArticle, serde_json::Error> = Ok(parsed_article("t"));
    assert!(matches!(parse_outcome_of(ok), ParseOutcome::Parsed(_)));

    let eof: Result<AwfulNewsArticle, serde_json::Error> =
        Err(serde_json::from_str::<serde_json::Value>("{\"a\": ").unwrap_err());
    assert!(matches!(parse_outcome_of(eof), ParseOutcome::Truncated));

    let syn: Result<AwfulNewsArticle, serde_json::Error> =
        Err(serde_json::from_str::<serde_json::Value>("}").unwrap_err());
    assert!(matches!(parse_outcome_of(syn), ParseOutcome::Malformed));
}

fn slots_titles(slots: &[Option<AwfulNewsArticle>]) -> Vec<Option<String>> {
    slots
        .iter()
        .map(|s| s.as_ref().map(|a| a.title.clone()))
        .collect()
}

#[test]
fn test_scheduler_completeness_independent_of_ceiling() {
    let articles = vec![
        raw("s1", "one"),
        raw("s2", "fail two"),
        raw("s3", "three"),
        raw("s4", "four"),
    ];
    let mut reference: Option<Vec<Option<String>>> = None;
    let mut ceiling: usize = 1;
    while ceiling <= articles.len() {
        let cap = ScriptedCap { calls: 0, trunc_seen: 0 };
        let mut client = RetryAsk::new(cap, 1, 0);
        let r = process_articles(&mut client, &PrefixParser, &articles, ceiling);
        assert_eq!(r.len(), articles.len());
        assert!(r[1].is_none());
        let titles = slots_titles(&r);
        match &reference {
            None => reference = Some(titles),
            Some(t) => assert_eq!(*t, titles),
        }
        ceiling += 1;
    }
}

#[test]
fn test_collate_places_by_index() {
    let completions: Vec<(usize, Option<AwfulNewsArticle>)> = vec![
        (2, Some(parsed_article("c"))),
        (0, Some(parsed_article("a"))),
        (1, None),
    ];
    let r = collate(3, completions);
    assert_eq!(
        slots_titles(&r),
        vec![Some("a".to_string()), None, Some("c".to_string())]
    );
}

#[test]
fn test_end_to_end_three_records() {
    let articles = vec![
        raw("https://a.example.com/1", "fail article"),
        raw("https://b.example.com/2", "clean article"),
        raw("https://c.example.com/3", "trunc article"),
    ];
    let cap = ScriptedCap { calls: 0, trunc_seen: 0 };
    let mut client = RetryAsk::new(cap, 1, 0);
    let results = process_articles(&mut client, &PrefixParser, &articles, 2);
    assert_eq!(results.len(), 3);
    let failures = results.iter().filter(|r| r.is_none()).count();
    assert_eq!(failures, 1);

    let fp = assemble_edition(
        "2025-05-06".to_string(),
        "morning".to_string(),
        "06:00:00".to_string(),
        results,
    );
    assert_eq!(fp.articles.len(), 2);
    assert_eq!(fp.articles[0].title, "clean article");
    assert_eq!(fp.articles[1].title, "trunc article");

    let file = "2025-05-06_morning.md".to_string();
    let daily = awful_text_news::indexes::update_daily_news_index(None, &fp, &file);
    let heading = "- [**2025-05-06**](./2025-05-06.md)";
    let entry = "    - [Morning](./2025-05-06_morning.md)";
    assert_eq!(daily.iter().filter(|l| l.trim() == heading).count(), 1);
    assert_eq!(daily.iter().filter(|l| l.trim() == entry.trim()).count(), 1);

    let summary = awful_text_news::indexes::update_summary_md(None, &fp, &file);
    let sheading = "    - [2025-05-06](./2025-05-06.md)";
    let sentry = "        - [Morning](./2025-05-06_morning.md)";
    assert_eq!(
        summary.iter().filter(|l| l.trim() == sheading.trim()).count(),
        1
    );
    assert_eq!(
        summary.iter().filter(|l| l.trim() == sentry.trim()).count(),
        1
    );
}
