use question_harvest::extract::{
    count_of, extract_questions, link_id, parse_questions, row_from_block, rows_from_blocks,
    total_item_count, ExtractError, ExtractionPolicy, QuestionRow, RawBlock,
};
use question_harvest::stamp::{parse_timestamp, Stamp};

const NOW: Stamp = Stamp { year: 2030, month: 6, day: 15, hour: 8, minute: 30, second: 5 };

fn block(id: &str, title: Option<&str>, stamp: Option<&str>) -> String {
    let title_html = match title {
        Some(t) => format!("<span itemprop='name'>{}</span>", t),
        None => String::new(),
    };
    let stamp_html = match stamp {
        Some(s) => format!(
            "<time class='s-user-card--time'><span class='relativetime' title='{}'>x</span></time>",
            s
        ),
        None => String::new(),
    };
    format!(
        "<div class='s-post-summary js-post-summary'>\
         <h3 class='s-post-summary--content-title'>\
         <a class='s-link' href='/questions/{}/slug'>{}</a></h3>{}</div>",
        id, title_html, stamp_html
    )
}

fn page(blocks: &[String]) -> String {
    format!(
        "<html><body><div id='questions'>\
         <meta itemprop='numberOfItems' content='125'>{}</div></body></html>",
        blocks.concat()
    )
}

fn stamp_of(row: &QuestionRow) -> (u16, u8, u8, u8, u8, u8) {
    (row.q_year, row.q_month, row.q_day, row.q_hour, row.q_min, row.q_sec)
}

#[test]
fn three_valid_blocks_and_one_without_title() {
    let html = page(&[
        block("101", Some("First question"), Some("2026-01-23 13:32:20Z")),
        block("102", Some("  Second question "), Some("2025-12-31 23:59:59Z")),
        block("103", None, Some("2026-01-01 00:00:00Z")),
        block("104", Some("Fourth question"), None),
    ]);
    let rows = extract_questions(&html, &ExtractionPolicy::standard(), NOW).unwrap();
    assert_eq!(rows.len(), 3);
    assert_eq!(rows[0].title, "First question");
    assert_eq!(rows[0].id, 101);
    assert_eq!(stamp_of(&rows[0]), (2026, 1, 23, 13, 32, 20));
    assert_eq!(rows[1].title, "Second question");
    assert_eq!(rows[1].id, 102);
    assert_eq!(stamp_of(&rows[1]), (2025, 12, 31, 23, 59, 59));
    assert_eq!(rows[2].title, "Fourth question");
    assert_eq!(rows[2].id, 104);
    assert_eq!(stamp_of(&rows[2]), (2030, 6, 15, 8, 30, 5));
}

#[test]
fn page_without_container_yields_nothing() {
    let html = "<html><body><h1>Too many requests</h1></body></html>";
    let rows = extract_questions(html, &ExtractionPolicy::standard(), NOW).unwrap();
    assert!(rows.is_empty());
    assert!(parse_questions(html).is_empty());
}

#[test]
fn blank_title_is_dropped() {
    let html = page(&[block("7", Some("   "), None)]);
    assert!(extract_questions(&html, &ExtractionPolicy::standard(), NOW).unwrap().is_empty());
}

#[test]
fn unreadable_link_gives_id_zero() {
    let html = page(&[block("not-a-number", Some("Odd link"), None)]);
    let rows = parse_questions(&html);
    assert_eq!(rows.len(), 1);
    assert_eq!(rows[0].id, 0);
    assert_eq!(rows[0].title, "Odd link");
}

#[test]
fn invalid_selector_is_refused() {
    let mut policy = ExtractionPolicy::standard();
    policy.title = "h3[[".to_string();
    let r = extract_questions(&page(&[]), &policy, NOW);
    assert!(matches!(r, Err(ExtractError::InvalidSelector)));
    let mut policy = ExtractionPolicy::standard();
    policy.count = ":::".to_string();
    assert_eq!(total_item_count(&page(&[]), &policy), Err(ExtractError::InvalidSelector));
}

#[test]
fn item_count_is_read_from_first_page() {
    let policy = ExtractionPolicy::standard();
    assert_eq!(total_item_count(&page(&[]), &policy), Ok(125));
    assert_eq!(
        total_item_count("<div id='questions'></div>", &policy),
        Err(ExtractError::MissingCount)
    );
    assert_eq!(total_item_count("<p>none</p>", &policy), Err(ExtractError::MissingCount));
    assert_eq!(
        total_item_count(
            "<div id='questions'><meta itemprop='numberOfItems' content='many'></div>",
            &policy
        ),
        Err(ExtractError::UnreadableCount)
    );
}

#[test]
fn count_attribute_values() {
    assert_eq!(count_of("24211245"), Ok(24211245));
    assert_eq!(count_of("0"), Ok(0));
    assert_eq!(count_of(""), Err(ExtractError::UnreadableCount));
    assert_eq!(count_of("1,000"), Err(ExtractError::UnreadableCount));
}

#[test]
fn link_ids() {
    assert_eq!(link_id("/questions/79870378/how-to-sort"), 79870378);
    assert_eq!(link_id("/questions/79870378"), 79870378);
    assert_eq!(link_id("/questions"), 0);
    assert_eq!(link_id(""), 0);
    assert_eq!(link_id("https://example.com/questions/5"), 0);
}

#[test]
fn timestamps() {
    let s = parse_timestamp("2026-01-23 13:32:20", NOW);
    assert_eq!(s, Stamp { year: 2026, month: 1, day: 23, hour: 13, minute: 32, second: 20 });
    let partial = parse_timestamp("2026-01 13", NOW);
    assert_eq!(partial, Stamp { year: 2026, month: 1, day: 0, hour: 13, minute: 0, second: 0 });
    let bad = parse_timestamp("x-300-y 99:-1:07", NOW);
    assert_eq!(bad, Stamp { year: 0, month: 0, day: 0, hour: 99, minute: 0, second: 7 });
    assert_eq!(parse_timestamp("yesterday", NOW), NOW);
    assert_eq!(parse_timestamp("a b c", NOW), NOW);
    assert_eq!(parse_timestamp("", NOW), NOW);
}

#[test]
fn rows_from_raw_blocks() {
    let blocks = vec![
        RawBlock {
            title: Some(" A ".to_string()),
            link: Some("/questions/1/a".to_string()),
            stamp: Some("2001-02-03 04:05:06Z".to_string()),
        },
        RawBlock { title: None, link: Some("/questions/2/b".to_string()), stamp: None },
        RawBlock { title: Some("C".to_string()), link: None, stamp: Some("soon".to_string()) },
    ];
    let rows = rows_from_blocks(&blocks, NOW);
    assert_eq!(rows.len(), 2);
    assert_eq!((rows[0].title.as_str(), rows[0].id), ("A", 1));
    assert_eq!(stamp_of(&rows[0]), (2001, 2, 3, 4, 5, 6));
    assert_eq!((rows[1].title.as_str(), rows[1].id), ("C", 0));
    assert_eq!(stamp_of(&rows[1]), (2030, 6, 15, 8, 30, 5));
    assert!(row_from_block(&blocks[1], NOW).is_none());
}

#[test]
fn parse_questions_stamps_missing_times_with_now() {
    let html = page(&[block("9", Some("No time"), None)]);
    let rows = parse_questions(&html);
    assert_eq!(rows.len(), 1);
    assert!((1..=12).contains(&rows[0].q_month));
    assert!((1..=31).contains(&rows[0].q_day));
    assert!(rows[0].q_year >= 2024);
}

#[test]
fn re_extraction_gives_same_ids_and_titles() {
    let html = page(&[
        block("501", Some("One"), None),
        block("502", Some("Two"), Some("2026-02-02 02:02:02Z")),
    ]);
    let first = parse_questions(&html);
    let later = NOW;
    let again = extract_questions(&html, &ExtractionPolicy::standard(), later).unwrap();
    let key = |rows: &Vec<QuestionRow>| rows.iter().map(|r| (r.id, r.title.clone())).collect::<Vec<_>>();
    assert_eq!(key(&first), key(&again));
    assert_eq!(key(&first), vec![(501, "One".to_string()), (502, "Two".to_string())]);
}

#[test]
fn first_matching_elements_are_read() {
    let html = "<div id='questions'><div id='questions'>inner</div>\
        <div class='s-post-summary js-post-summary'>\
        <h3 class='s-post-summary--content-title'><a class='s-link' href='/questions/8/a'>\
        <span itemprop='name'>First</span></a>\
        <a class='s-link' href='/questions/9/b'><span itemprop='name'>Second</span></a></h3>\
        </div></div>";
    let rows = extract_questions(html, &ExtractionPolicy::standard(), NOW).unwrap();
    assert_eq!(rows.len(), 1);
    assert_eq!((rows[0].title.as_str(), rows[0].id), ("First", 8));
}
