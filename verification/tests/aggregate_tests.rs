use ackamoto::aggregate::{
    aggregate, build_signal, collect_signals, is_automated_author, run, sort_signals,
    ReportArtifact,
};
use ackamoto::classify::{MarkerKind, Mode};
use ackamoto::model::{Comment, RequestThread, ReviewRequest, Signal};
use ackamoto::render::generate_error_html;

const DAY15: i64 = 1705276800; // 2024-01-15T00:00:00Z
const DAY16: i64 = 1705363200; // 2024-01-16T00:00:00Z

fn request(n: u32) -> ReviewRequest {
    ReviewRequest {
        number: n,
        title: format!("title {}", n),
        url: format!("https://example.org/pr/{}", n),
    }
}

fn comment(body: &str, author: &str, ts: i64) -> Comment {
    Comment {
        body: body.to_string(),
        author: author.to_string(),
        author_url: format!("https://example.org/u/{}", author),
        url: "https://example.org/c/1".to_string(),
        timestamp: ts,
    }
}

fn signal(n: u32, ts: i64) -> Signal {
    Signal {
        number: n,
        title: format!("title {}", n),
        url: "u".to_string(),
        author: "a".to_string(),
        author_url: "au".to_string(),
        comment_url: "cu".to_string(),
        timestamp: ts,
        excerpt: "e".to_string(),
        kind: MarkerKind::BareAck,
    }
}

#[test]
fn bot_author_produces_no_signal() {
    let req = request(1);
    let c = comment("Concept ACK great work", "some-bot", DAY15);
    assert!(build_signal(&req, &c, Mode::Ack).is_none());
}

#[test]
fn automation_account_is_filtered() {
    assert!(is_automated_author("some-bot"));
    assert!(is_automated_author("RoBoT99"));
    assert!(is_automated_author("bitcoin-core-ci"));
    assert!(is_automated_author("BitCoin-Core-CI"));
    assert!(!is_automated_author("alice"));
}

#[test]
fn build_signal_copies_fields_and_classifies() {
    let req = request(7);
    let c = comment("utACK deadbeef", "alice", DAY15 + 60);
    let s = build_signal(&req, &c, Mode::Ack).unwrap();
    assert_eq!(s.number, 7);
    assert_eq!(s.title, "title 7");
    assert_eq!(s.url, "https://example.org/pr/7");
    assert_eq!(s.author, "alice");
    assert_eq!(s.author_url, "https://example.org/u/alice");
    assert_eq!(s.comment_url, "https://example.org/c/1");
    assert_eq!(s.timestamp, DAY15 + 60);
    assert_eq!(s.excerpt, "utACK deadbeef");
    assert_eq!(s.kind, MarkerKind::UtAck);
}

#[test]
fn unmatched_comment_produces_no_signal() {
    let req = request(1);
    let c = comment("thanks for the update", "alice", DAY15);
    assert!(build_signal(&req, &c, Mode::Ack).is_none());
}

#[test]
fn sort_orders_by_timestamp_descending() {
    let v = vec![signal(1, 5), signal(2, 3), signal(3, 9)];
    let out = sort_signals(v);
    let ts: Vec<i64> = out.iter().map(|s| s.timestamp).collect();
    assert_eq!(ts, vec![9, 5, 3]);
}

#[test]
fn sort_is_idempotent_on_sorted_input() {
    let v = vec![signal(1, 9), signal(2, 5), signal(3, 5), signal(4, 3)];
    let once = sort_signals(v);
    let nums: Vec<u32> = once.iter().map(|s| s.number).collect();
    let twice = sort_signals(once);
    let nums2: Vec<u32> = twice.iter().map(|s| s.number).collect();
    assert_eq!(nums, nums2);
    let ts: Vec<i64> = twice.iter().map(|s| s.timestamp).collect();
    assert_eq!(ts, vec![9, 5, 5, 3]);
}

#[test]
fn grouping_is_a_partition_with_correct_labels() {
    let v = vec![
        signal(1, DAY15 + 100),
        signal(2, DAY16 + 10),
        signal(3, DAY15 + 50),
    ];
    let groups = aggregate(v);
    assert_eq!(groups.len(), 2);
    assert_eq!(groups[0].label, "2024-01-16");
    assert_eq!(groups[1].label, "2024-01-15");
    assert!(groups[0].day > groups[1].day);
    let g0: Vec<u32> = groups[0].signals.iter().map(|s| s.number).collect();
    let g1: Vec<u32> = groups[1].signals.iter().map(|s| s.number).collect();
    assert_eq!(g0, vec![2]);
    assert_eq!(g1, vec![1, 3]);
    // Every signal appears in exactly one group.
    let mut all: Vec<u32> = g0.iter().chain(g1.iter()).cloned().collect();
    all.sort();
    assert_eq!(all, vec![1, 2, 3]);
}

#[test]
fn aggregate_of_nothing_is_empty() {
    let groups = aggregate(Vec::new());
    assert!(groups.is_empty());
}

#[test]
fn collect_preserves_fetch_order() {
    let threads = vec![
        RequestThread {
            request: request(1),
            comments: vec![
                comment("ACK", "alice", 10),
                comment("no opinion", "bob", 20),
                comment("Tested ACK", "carol", 5),
            ],
        },
        RequestThread {
            request: request(2),
            comments: vec![comment("Concept ACK", "dave", 99)],
        },
    ];
    let sigs = collect_signals(&threads, Mode::Ack);
    let got: Vec<(u32, i64)> = sigs.iter().map(|s| (s.number, s.timestamp)).collect();
    assert_eq!(got, vec![(1, 10), (1, 5), (2, 99)]);
}

#[test]
fn fetch_failure_yields_error_page() {
    match run(None, Mode::Ack) {
        ReportArtifact::ErrorPage(page) => {
            assert!(page.contains("Unable to fetch data from GitHub API"));
            assert!(page.contains("Bitcoin Core ACKs"));
        }
        ReportArtifact::Report(_) => panic!("fetch failure must not yield a report"),
    }
}

#[test]
fn no_matches_yields_empty_report_not_error() {
    let threads = vec![RequestThread {
        request: request(1),
        comments: vec![comment("nothing to see", "alice", DAY15)],
    }];
    match run(Some(threads), Mode::Ack) {
        ReportArtifact::Report(groups) => assert!(groups.is_empty()),
        ReportArtifact::ErrorPage(_) => panic!("an empty report is not an error"),
    }
}

#[test]
fn full_run_produces_grouped_report() {
    let threads = vec![RequestThread {
        request: request(42),
        comments: vec![
            comment("Concept ACK, nice", "alice", DAY16 + 30),
            comment("ACK", "some-bot", DAY16 + 40),
            comment("utACK abcd", "bob", DAY15 + 20),
        ],
    }];
    match run(Some(threads), Mode::Ack) {
        ReportArtifact::Report(groups) => {
            assert_eq!(groups.len(), 2);
            assert_eq!(groups[0].label, "2024-01-16");
            assert_eq!(groups[0].signals.len(), 1);
            assert_eq!(groups[0].signals[0].author, "alice");
            assert_eq!(groups[0].signals[0].kind, MarkerKind::ConceptAck);
            assert_eq!(groups[1].label, "2024-01-15");
            assert_eq!(groups[1].signals[0].author, "bob");
            assert_eq!(groups[1].signals[0].kind, MarkerKind::UtAck);
        }
        ReportArtifact::ErrorPage(_) => panic!("fetch succeeded"),
    }
}

#[test]
fn error_page_carries_message_and_branding() {
    let page = generate_error_html("the data could not be retrieved", Mode::Nack);
    assert!(page.contains("the data could not be retrieved"));
    assert!(page.contains("Bitcoin Core NACKs"));
    assert!(page.contains("regenerated on the next scheduled run"));
}
