use awful_text_news::indexes::{
    update_daily_news_index, update_date_toc_file, update_summary_md,
};
use awful_text_news::models::{AwfulNewsArticle, FrontPage};

fn article(title: &str, category: &str, source: Option<&str>) -> AwfulNewsArticle {
    AwfulNewsArticle {
        source: source.map(|s| s.to_string()),
        dateOfPublication: "2025-05-06".to_string(),
        timeOfPublication: "08:00:00".to_string(),
        title: title.to_string(),
        category: category.to_string(),
        summaryOfNewsArticle: "s".to_string(),
        keyTakeAways: vec![],
        namedEntities: vec![],
        importantDates: vec![],
        importantTimeframes: vec![],
        tags: vec![],
        content: None,
    }
}

fn front_page(tod: &str, articles: Vec<AwfulNewsArticle>) -> FrontPage {
    FrontPage {
        local_date: "2025-05-06".to_string(),
        time_of_day: tod.to_string(),
        local_time: "06:30:00".to_string(),
        articles,
    }
}

#[test]
fn test_daily_index_first_merge_layout() {
    let fp = front_page("morning", vec![]);
    let file = "2025-05-06_morning.md".to_string();
    let r = update_daily_news_index(None, &fp, &file);
    assert_eq!(
        r,
        vec![
            "# Awful News Index".to_string(),
            "".to_string(),
            "- [**2025-05-06**](./2025-05-06.md)".to_string(),
            "    - [Morning](./2025-05-06_morning.md)".to_string(),
            "".to_string(),
        ]
    );
}

#[test]
fn test_daily_index_idempotent() {
    let fp = front_page("morning", vec![]);
    let file = "2025-05-06_morning.md".to_string();
    let once = update_daily_news_index(None, &fp, &file);
    let twice = update_daily_news_index(Some(once.clone()), &fp, &file);
    assert_eq!(once, twice);
}

#[test]
fn test_daily_index_groups_editions_under_one_date() {
    let fp_m = front_page("morning", vec![]);
    let fp_e = front_page("evening", vec![]);
    let f_m = "2025-05-06_morning.md".to_string();
    let f_e = "2025-05-06_evening.md".to_string();
    let after_m = update_daily_news_index(None, &fp_m, &f_m);
    let after_e = update_daily_news_index(Some(after_m), &fp_e, &f_e);
    assert_eq!(
        after_e,
        vec![
            "# Awful News Index".to_string(),
            "".to_string(),
            "- [**2025-05-06**](./2025-05-06.md)".to_string(),
            "    - [Morning](./2025-05-06_morning.md)".to_string(),
            "    - [Evening](./2025-05-06_evening.md)".to_string(),
            "".to_string(),
        ]
    );
}

#[test]
fn test_daily_index_new_date_goes_below_header() {
    let fp = front_page("morning", vec![]);
    let file = "2025-05-06_morning.md".to_string();
    let existing = vec![
        "# Awful News Index".to_string(),
        "".to_string(),
        "- [**2025-05-05**](./2025-05-05.md)".to_string(),
        "    - [Evening](./2025-05-05_evening.md)".to_string(),
    ];
    let r = update_daily_news_index(Some(existing), &fp, &file);
    assert_eq!(
        r,
        vec![
            "# Awful News Index".to_string(),
            "".to_string(),
            "- [**2025-05-06**](./2025-05-06.md)".to_string(),
            "    - [Morning](./2025-05-06_morning.md)".to_string(),
            "".to_string(),
            "- [**2025-05-05**](./2025-05-05.md)".to_string(),
            "    - [Evening](./2025-05-05_evening.md)".to_string(),
        ]
    );
}

#[test]
fn test_summary_first_merge_inserts_below_anchor() {
    let fp = front_page("morning", vec![]);
    let file = "2025-05-06_morning.md".to_string();
    let r = update_summary_md(None, &fp, &file);
    assert_eq!(
        r,
        vec![
            "# Summary".to_string(),
            "".to_string(),
            "[Home](./home.md)".to_string(),
            "- [PGP](./pgp.md)".to_string(),
            "- [Contact](./contact.md)".to_string(),
            "- [Daily News](./daily_news.md)".to_string(),
            "    - [2025-05-06](./2025-05-06.md)".to_string(),
            "        - [Morning](./2025-05-06_morning.md)".to_string(),
        ]
    );
}

#[test]
fn test_summary_idempotent_and_groups_dates() {
    let fp_m = front_page("morning", vec![]);
    let fp_e = front_page("evening", vec![]);
    let f_m = "2025-05-06_morning.md".to_string();
    let f_e = "2025-05-06_evening.md".to_string();
    let once = update_summary_md(None, &fp_m, &f_m);
    let twice = update_summary_md(Some(once.clone()), &fp_m, &f_m);
    assert_eq!(once, twice);
    let after_e = update_summary_md(Some(once), &fp_e, &f_e);
    let date_heading = "- [2025-05-06](./2025-05-06.md)";
    assert_eq!(
        after_e.iter().filter(|l| l.trim() == date_heading).count(),
        1
    );
    assert_eq!(after_e[6], "    - [2025-05-06](./2025-05-06.md)");
    assert_eq!(after_e[7], "        - [Morning](./2025-05-06_morning.md)");
    assert_eq!(after_e[8], "        - [Evening](./2025-05-06_evening.md)");
}

#[test]
fn test_date_toc_renders_categories_sorted_with_anchors() {
    let fp = front_page(
        "morning",
        vec![
            article("Solar Flares", "Science", Some("https://text.npr.org/x")),
            article("Budget Vote", "Politics", None),
            article("Mars Probe", "Science", Some("https://lite.cnn.com/y")),
        ],
    );
    let file = "2025-05-06_morning.md".to_string();
    let r = update_date_toc_file(None, &fp, &file);
    assert_eq!(
        r,
        vec![
            "# Editions published on 2025-05-06".to_string(),
            "".to_string(),
            "- [Morning](./2025-05-06_morning.md)".to_string(),
            "\t- [**Politics**](2025-05-06_morning.md#politics)".to_string(),
            "\t\t-  - [Budget Vote](2025-05-06_morning.md#budget-vote)".to_string(),
            "\t- [**Science**](2025-05-06_morning.md#science)".to_string(),
            "\t\t-  <small>`npr`</small> - [Solar Flares](2025-05-06_morning.md#solar-flares---npr)"
                .to_string(),
            "\t\t-  <small>`cnn`</small> - [Mars Probe](2025-05-06_morning.md#mars-probe---cnn)"
                .to_string(),
        ]
    );
}

#[test]
fn test_date_toc_idempotent() {
    let fp = front_page(
        "morning",
        vec![article("Budget Vote", "Politics", Some("https://lite.cnn.com/y"))],
    );
    let file = "2025-05-06_morning.md".to_string();
    let once = update_date_toc_file(None, &fp, &file);
    let twice = update_date_toc_file(Some(once.clone()), &fp, &file);
    assert_eq!(once, twice);
}

#[test]
fn test_date_toc_second_edition_appends_at_end() {
    let fp_m = front_page("morning", vec![]);
    let fp_e = front_page("evening", vec![]);
    let f_m = "2025-05-06_morning.md".to_string();
    let f_e = "2025-05-06_evening.md".to_string();
    let once = update_date_toc_file(None, &fp_m, &f_m);
    let after_e = update_date_toc_file(Some(once), &fp_e, &f_e);
    assert_eq!(
        after_e,
        vec![
            "# Editions published on 2025-05-06".to_string(),
            "".to_string(),
            "- [Morning](./2025-05-06_morning.md)".to_string(),
            "- [Evening](./2025-05-06_evening.md)".to_string(),
        ]
    );
}
