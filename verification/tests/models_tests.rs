use awful_text_news::models::{
    dedup_important_dates, dedup_important_timeframes, dedup_named_entities, dedup_strings,
    AwfulNewsArticle, ImportantDate, ImportantTimeframe, NamedEntity, NewsArticle,
};

fn bare_article(source: Option<&str>) -> AwfulNewsArticle {
    AwfulNewsArticle {
        source: source.map(|s| s.to_string()),
        dateOfPublication: "2025-05-06".to_string(),
        timeOfPublication: "14:30:00".to_string(),
        title: "Test".to_string(),
        category: "Politics & Governance".to_string(),
        summaryOfNewsArticle: "Summary".to_string(),
        keyTakeAways: vec![],
        namedEntities: vec![],
        importantDates: vec![],
        importantTimeframes: vec![],
        tags: vec![],
        content: None,
    }
}

fn entity(name: &str) -> NamedEntity {
    NamedEntity {
        name: name.to_string(),
        whatIsThisEntity: "thing".to_string(),
        whyIsThisEntityRelevantToTheArticle: "reason".to_string(),
    }
}

#[test]
fn test_news_article_creation() {
    let article = NewsArticle {
        source: "https://example.com".to_string(),
        content: "Test content".to_string(),
    };
    assert_eq!(article.source, "https://example.com");
    assert_eq!(article.content, "Test content");
}

#[test]
fn test_awful_news_article_with_entities() {
    let article = AwfulNewsArticle {
        source: Some("https://example.com".to_string()),
        dateOfPublication: "2025-05-06".to_string(),
        timeOfPublication: "14:30:00".to_string(),
        title: "Test Article".to_string(),
        category: "Politics & Governance".to_string(),
        summaryOfNewsArticle: "Summary here".to_string(),
        keyTakeAways: vec!["Key point 1".to_string()],
        namedEntities: vec![NamedEntity {
            name: "Entity Name".to_string(),
            whatIsThisEntity: "Description".to_string(),
            whyIsThisEntityRelevantToTheArticle: "Relevance".to_string(),
        }],
        importantDates: vec![],
        importantTimeframes: vec![],
        tags: vec!["politics".to_string(), "news".to_string()],
        content: Some("Full content".to_string()),
    };

    assert_eq!(article.title, "Test Article");
    assert_eq!(article.category, "Politics & Governance");
    assert_eq!(article.tags.len(), 2);
    assert_eq!(article.namedEntities.len(), 1);
    assert_eq!(article.namedEntities[0].name, "Entity Name");
}

#[test]
fn test_important_date_structure() {
    let date = ImportantDate {
        dateMentionedInArticle: "2025-12-25".to_string(),
        descriptionOfWhyDateIsRelevant: "Christmas Day".to_string(),
    };

    assert_eq!(date.dateMentionedInArticle, "2025-12-25");
}

#[test]
fn test_important_timeframe_structure() {
    let timeframe = ImportantTimeframe {
        approximateTimeFrameStart: "2025-01-01".to_string(),
        approximateTimeFrameEnd: "2025-12-31".to_string(),
        descriptionOfWhyTimeFrameIsRelevant: "Full year 2025".to_string(),
    };

    assert_eq!(timeframe.approximateTimeFrameStart, "2025-01-01");
    assert_eq!(timeframe.approximateTimeFrameEnd, "2025-12-31");
}

#[test]
fn test_source_tag_cnn() {
    let article = bare_article(Some("https://lite.cnn.com/2025/05/06/article"));
    assert_eq!(article.source_tag(), Some("cnn".to_string()));
}

#[test]
fn test_source_tag_npr() {
    let article = bare_article(Some("https://text.npr.org/article"));
    assert_eq!(article.source_tag(), Some("npr".to_string()));
}

#[test]
fn test_source_tag_no_source() {
    let article = bare_article(None);
    assert_eq!(article.source_tag(), None);
}

#[test]
fn test_source_tag_simple_domain() {
    let article = bare_article(Some("https://example.com/article"));
    assert_eq!(article.source_tag(), Some("example".to_string()));
}

#[test]
fn test_source_tag_bare_host() {
    let article = bare_article(Some("https://localhost/article"));
    assert_eq!(article.source_tag(), None);
}

#[test]
fn test_dedup_named_entities_keeps_first_in_order() {
    let r = dedup_named_entities(vec![entity("A"), entity("B"), entity("A")]);
    let names: Vec<&str> = r.iter().map(|e| e.name.as_str()).collect();
    assert_eq!(names, vec!["A", "B"]);
}

#[test]
fn test_dedup_dates_by_description() {
    let d = |desc: &str| ImportantDate {
        dateMentionedInArticle: "2025-01-01".to_string(),
        descriptionOfWhyDateIsRelevant: desc.to_string(),
    };
    let r = dedup_important_dates(vec![d("x"), d("y"), d("x"), d("z"), d("y")]);
    let descs: Vec<&str> = r
        .iter()
        .map(|e| e.descriptionOfWhyDateIsRelevant.as_str())
        .collect();
    assert_eq!(descs, vec!["x", "y", "z"]);
}

#[test]
fn test_dedup_timeframes_by_description() {
    let t = |desc: &str| ImportantTimeframe {
        approximateTimeFrameStart: "a".to_string(),
        approximateTimeFrameEnd: "b".to_string(),
        descriptionOfWhyTimeFrameIsRelevant: desc.to_string(),
    };
    let r = dedup_important_timeframes(vec![t("q"), t("q"), t("r")]);
    assert_eq!(r.len(), 2);
    assert_eq!(r[0].descriptionOfWhyTimeFrameIsRelevant, "q");
    assert_eq!(r[1].descriptionOfWhyTimeFrameIsRelevant, "r");
}

#[test]
fn test_dedup_strings_exact_value() {
    let v = vec![
        "one".to_string(),
        "two".to_string(),
        "one".to_string(),
        "three".to_string(),
    ];
    assert_eq!(
        dedup_strings(v),
        vec!["one".to_string(), "two".to_string(), "three".to_string()]
    );
}
