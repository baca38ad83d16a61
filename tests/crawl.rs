use std::collections::{HashMap, HashSet};

use question_harvest::crawl::{count_unusable, Action, Crawl, Event, FailureEntry, FailureReason, Pacing, Phase};
use question_harvest::extract::QuestionRow;
use question_harvest::planner::{compute_plan, total_pages, PageWindow, Plan};

const PACING: Pacing = Pacing { min_ms: 100, max_ms: 1900 };

fn row(id: i64, title: &str) -> QuestionRow {
    QuestionRow {
        title: title.to_string(),
        id,
        q_year: 2026,
        q_month: 1,
        q_day: 2,
        q_hour: 3,
        q_min: 4,
        q_sec: 5,
    }
}

enum Page {
    Rows(Vec<QuestionRow>),
    Transport,
    Status,
}

#[derive(Default)]
struct Sink {
    rows: Vec<QuestionRow>,
    ids: HashSet<i64>,
    fail_ids: HashSet<i64>,
}

struct Trace {
    fetched: Vec<u64>,
    read: Vec<u64>,
    commits: Vec<u64>,
    failures_logged: Vec<FailureEntry>,
    checks: usize,
}

fn drive(crawl: &mut Crawl, pages: &HashMap<u64, Page>, sink: &mut Sink) -> Trace {
    let mut trace = Trace { fetched: vec![], read: vec![], commits: vec![], failures_logged: vec![], checks: 0 };
    let mut action = crawl.action();
    for _ in 0..10_000 {
        let event = match action {
            Action::Pause(ms) => {
                assert!((PACING.min_ms..=PACING.max_ms).contains(&ms));
                Event::Done
            }
            Action::Fetch(p) => {
                trace.fetched.push(p);
                match pages.get(&p) {
                    Some(Page::Rows(_)) => Event::Answered(200),
                    Some(Page::Transport) | None => Event::TransportFailed,
                    Some(Page::Status) => Event::Answered(503),
                }
            }
            Action::ReadBody(p) => {
                trace.read.push(p);
                match pages.get(&p) {
                    Some(Page::Rows(rows)) => Event::Fetched(rows.clone()),
                    _ => panic!("body of page {} read after a failed answer", p),
                }
            }
            Action::CheckExists(id) => {
                trace.checks += 1;
                Event::Present(sink.ids.contains(&id))
            }
            Action::Insert(r) => {
                if sink.fail_ids.contains(&r.id) {
                    Event::Stored(false)
                } else {
                    sink.ids.insert(r.id);
                    sink.rows.push(r);
                    Event::Stored(true)
                }
            }
            Action::Commit(p) => {
                trace.commits.push(p);
                Event::Done
            }
            Action::RecordFailure(f) => {
                trace.failures_logged.push(f);
                Event::Done
            }
            Action::Finish => return trace,
        };
        action = crawl.step(event);
    }
    panic!("the crawl did not finish");
}

fn ids(sink: &Sink) -> Vec<i64> {
    sink.rows.iter().map(|r| r.id).collect()
}

#[test]
fn end_to_end_with_failed_middle_page() {
    let pages_count = total_pages(125, 50);
    assert_eq!(pages_count, 3);
    let window = match compute_plan(pages_count, 0, 10) {
        Plan::Window(w) => w,
        other => panic!("unexpected plan {:?}", other),
    };
    assert_eq!(window, PageWindow { start_page: 3, end_page: 1 });
    let mut pages = HashMap::new();
    pages.insert(3, Page::Rows(vec![row(31, "a"), row(32, "b")]));
    pages.insert(2, Page::Status);
    pages.insert(1, Page::Rows(vec![row(11, "c"), row(0, "broken link"), row(12, "d")]));
    let mut crawl = Crawl::new(window, PACING, 0);
    let mut sink = Sink::default();
    let trace = drive(&mut crawl, &pages, &mut sink);
    assert_eq!(trace.fetched, vec![3, 2, 1]);
    assert_eq!(trace.read, vec![3, 1]);
    assert_eq!(trace.commits, vec![3, 1]);
    let failed = vec![FailureEntry { page: 2, reason: FailureReason::Status }];
    assert_eq!(trace.failures_logged, failed);
    assert_eq!(crawl.failures(), &failed);
    assert_eq!(crawl.checkpoint(), 1);
    assert_eq!(crawl.committed(), 2);
    assert_eq!(crawl.phase(), Phase::Finished);
    assert_eq!(ids(&sink), vec![31, 32, 11, 12]);
}

#[test]
fn rerun_of_committed_page_inserts_nothing() {
    let window = PageWindow { start_page: 4, end_page: 4 };
    let mut pages = HashMap::new();
    pages.insert(4, Page::Rows(vec![row(1, "x"), row(2, "y"), row(3, "z")]));
    let mut sink = Sink::default();
    let mut first = Crawl::new(window, PACING, 0);
    drive(&mut first, &pages, &mut sink);
    assert_eq!(ids(&sink), vec![1, 2, 3]);
    assert_eq!(first.checkpoint(), 4);
    let mut again = Crawl::new(window, PACING, 0);
    let trace = drive(&mut again, &pages, &mut sink);
    assert_eq!(trace.checks, 3);
    assert_eq!(ids(&sink), vec![1, 2, 3]);
    assert_eq!(again.checkpoint(), 4);
    assert_eq!(trace.commits, vec![4]);
}

#[test]
fn duplicate_ids_on_a_page_are_inserted_once() {
    let window = PageWindow { start_page: 1, end_page: 1 };
    let mut pages = HashMap::new();
    pages.insert(1, Page::Rows(vec![row(5, "x"), row(5, "x again"), row(6, "y")]));
    let mut sink = Sink::default();
    let mut crawl = Crawl::new(window, PACING, 9);
    drive(&mut crawl, &pages, &mut sink);
    assert_eq!(ids(&sink), vec![5, 6]);
    assert_eq!(crawl.checkpoint(), 1);
}

#[test]
fn transport_failure_keeps_checkpoint() {
    let window = PageWindow { start_page: 8, end_page: 7 };
    let mut pages = HashMap::new();
    pages.insert(8, Page::Transport);
    pages.insert(7, Page::Transport);
    let mut sink = Sink::default();
    let mut crawl = Crawl::new(window, PACING, 9);
    let trace = drive(&mut crawl, &pages, &mut sink);
    assert_eq!(crawl.checkpoint(), 9);
    assert_eq!(crawl.committed(), 0);
    assert!(trace.commits.is_empty());
    assert_eq!(
        crawl.failures(),
        &vec![
            FailureEntry { page: 8, reason: FailureReason::Transport },
            FailureEntry { page: 7, reason: FailureReason::Transport },
        ]
    );
}

#[test]
fn failed_page_between_commits_leaves_checkpoint_at_last_commit() {
    let mut crawl = Crawl::new(PageWindow { start_page: 5, end_page: 4 }, PACING, 6);
    assert!(matches!(crawl.action(), Action::Pause(_)));
    assert!(matches!(crawl.step(Event::Done), Action::Fetch(5)));
    assert!(matches!(crawl.step(Event::Answered(404)), Action::RecordFailure(_)));
    assert_eq!(crawl.checkpoint(), 6);
    assert!(matches!(crawl.step(Event::Done), Action::Pause(_)));
    assert_eq!(crawl.page(), 4);
    assert_eq!(crawl.checkpoint(), 6);
}

#[test]
fn empty_page_is_committed() {
    let mut crawl = Crawl::new(PageWindow { start_page: 2, end_page: 2 }, PACING, 0);
    crawl.step(Event::Done);
    assert!(matches!(crawl.step(Event::Answered(200)), Action::ReadBody(2)));
    assert!(matches!(crawl.step(Event::Fetched(vec![])), Action::Commit(2)));
    assert_eq!(crawl.checkpoint(), 2);
    assert!(matches!(crawl.step(Event::Done), Action::Finish));
}

#[test]
fn failed_insert_does_not_stop_the_page() {
    let window = PageWindow { start_page: 1, end_page: 1 };
    let mut pages = HashMap::new();
    pages.insert(1, Page::Rows(vec![row(1, "x"), row(2, "y"), row(3, "z")]));
    let mut sink = Sink::default();
    sink.fail_ids.insert(2);
    let mut crawl = Crawl::new(window, PACING, 0);
    let trace = drive(&mut crawl, &pages, &mut sink);
    assert_eq!(ids(&sink), vec![1, 3]);
    assert_eq!(trace.commits, vec![1]);
    assert_eq!(crawl.checkpoint(), 1);
}

#[test]
fn events_that_do_not_answer_are_ignored() {
    let mut crawl = Crawl::new(PageWindow { start_page: 3, end_page: 3 }, PACING, 0);
    assert!(matches!(crawl.step(Event::Present(true)), Action::Pause(_)));
    assert!(matches!(crawl.step(Event::Done), Action::Fetch(3)));
    assert!(matches!(crawl.step(Event::Done), Action::Fetch(3)));
    assert!(matches!(crawl.step(Event::Stored(true)), Action::Fetch(3)));
    assert!(matches!(crawl.step(Event::Fetched(vec![row(4, "t")])), Action::Fetch(3)));
    assert!(matches!(crawl.step(Event::Answered(299)), Action::ReadBody(3)));
    assert!(matches!(crawl.step(Event::Answered(200)), Action::ReadBody(3)));
    match crawl.step(Event::Fetched(vec![row(4, "t")])) {
        Action::CheckExists(4) => {}
        other => panic!("unexpected {:?}", other),
    }
    match crawl.step(Event::Present(false)) {
        Action::Insert(r) => assert_eq!((r.id, r.title.as_str()), (4, "t")),
        other => panic!("unexpected {:?}", other),
    }
    assert!(matches!(crawl.step(Event::Stored(true)), Action::Commit(3)));
    assert!(matches!(crawl.step(Event::Done), Action::Finish));
    assert!(matches!(crawl.step(Event::Done), Action::Finish));
}

#[test]
fn pacing_draws_within_bounds() {
    let pacing = Pacing { min_ms: 100, max_ms: 1900 };
    for _ in 0..200 {
        let ms = pacing.draw();
        assert!((100..=1900).contains(&ms));
    }
    assert_eq!(Pacing { min_ms: 5, max_ms: 5 }.draw(), 5);
}

#[test]
fn status_classes() {
    for (code, success) in [(199u16, false), (200, true), (204, true), (299, true), (300, false), (404, false), (503, false)] {
        let mut crawl = Crawl::new(PageWindow { start_page: 1, end_page: 1 }, PACING, 0);
        crawl.step(Event::Done);
        let next = crawl.step(Event::Answered(code));
        if success {
            assert!(matches!(next, Action::ReadBody(1)), "{}", code);
        } else {
            match next {
                Action::RecordFailure(f) => {
                    assert_eq!(f, FailureEntry { page: 1, reason: FailureReason::Status })
                }
                other => panic!("unexpected {:?} for {}", other, code),
            }
        }
    }
}

#[test]
fn body_read_failure_is_a_transport_failure() {
    let mut crawl = Crawl::new(PageWindow { start_page: 6, end_page: 6 }, PACING, 7);
    crawl.step(Event::Done);
    assert!(matches!(crawl.step(Event::Answered(200)), Action::ReadBody(6)));
    match crawl.step(Event::TransportFailed) {
        Action::RecordFailure(f) => {
            assert_eq!(f, FailureEntry { page: 6, reason: FailureReason::Transport })
        }
        other => panic!("unexpected {:?}", other),
    }
    assert!(matches!(crawl.step(Event::Done), Action::Finish));
    assert_eq!(crawl.checkpoint(), 7);
}

#[test]
fn unusable_records_are_counted() {
    assert_eq!(count_unusable(&vec![]), 0);
    assert_eq!(count_unusable(&vec![row(1, "a"), row(0, "b"), row(0, "c"), row(-5, "d")]), 2);
}
