use swiss_army_suite::config::DorkChecker as DorkCheckerConfig;
use swiss_army_suite::modules::DorkChecker;
use swiss_army_suite::outcome::FailureReason;
use swiss_army_suite::outcome::FetchOutcome;
use swiss_army_suite::ranking::rank;

fn checker(threshold: u32) -> DorkChecker {
    DorkChecker::new(DorkCheckerConfig { threads: 4, timeouts: 10, threshold })
}

fn stats_page(text: &str) -> String {
    format!("<html><body><div id=\"result-stats\">{}</div></body></html>", text)
}

fn fetched(dork: &str, body: String) -> (String, FetchOutcome<String>) {
    (dork.to_string(), FetchOutcome::Fetched(body))
}

#[test]
fn search_url_encodes_the_dork() {
    assert_eq!(
        DorkChecker::search_url("site:example.com filetype:pdf"),
        "https://www.google.com/search?q=site%3Aexample.com%20filetype%3Apdf"
    );
}

#[test]
fn search_url_keeps_unreserved_characters() {
    assert_eq!(
        DorkChecker::search_url("aZ09-._~"),
        "https://www.google.com/search?q=aZ09-._~"
    );
}

#[test]
fn search_url_encodes_utf8_bytes_in_upper_case_hex() {
    assert_eq!(DorkChecker::search_url("é/"), "https://www.google.com/search?q=%C3%A9%2F");
}

#[test]
fn count_is_read_from_the_statistics_element() {
    assert_eq!(DorkChecker::extract_result_count(&stats_page("About 1,234 results")), 1234);
}

#[test]
fn count_may_be_zero() {
    assert_eq!(DorkChecker::extract_result_count(&stats_page("0 results")), 0);
    assert_eq!(DorkChecker::extract_result_count("<html><body></body></html>"), 0);
}

#[test]
fn count_falls_back_to_result_blocks_when_nothing_is_stated() {
    let page = "<html><body><div class=\"g\">a</div><div class=\"g\">b</div><p class=\"g\">c</p></body></html>";
    assert_eq!(DorkChecker::extract_result_count(page), 3);
}

#[test]
fn count_falls_back_when_the_statistics_hold_no_digit() {
    let page = "<html><body><div id=\"result-stats\">many results</div><div class=\"g\">a</div></body></html>";
    assert_eq!(DorkChecker::extract_result_count(page), 1);
}

#[test]
fn count_falls_back_when_the_stated_number_is_too_large() {
    let page = "<html><body><div id=\"result-stats\">About 4,294,967,296 results</div><div class=\"g\">a</div><div class=\"g\">b</div></body></html>";
    assert_eq!(DorkChecker::extract_result_count(page), 2);
    assert_eq!(
        DorkChecker::extract_result_count(&stats_page("About 4,294,967,295 results")),
        4_294_967_295
    );
}

#[test]
fn count_leaves_out_every_character_that_is_no_digit() {
    let page = "<html><body><div id=\"result-stats\">About 12\u{0663} results</div><div class=\"g\">a</div></body></html>";
    assert_eq!(DorkChecker::extract_result_count(page), 12);
    assert_eq!(DorkChecker::extract_result_count(&stats_page("1\u{00bd}")), 1);
    assert_eq!(DorkChecker::extract_result_count(&stats_page("x\u{00b2} = 49")), 49);
}

#[test]
fn stated_count_reads_the_first_match_only() {
    let stats = Some(vec!["About 7 results".to_string(), "About 9 results".to_string()]);
    assert_eq!(DorkChecker::stated_count(&stats), Some(7));
    assert_eq!(DorkChecker::stated_count(&Some(vec![])), None);
    assert_eq!(DorkChecker::stated_count(&None), None);
}

#[test]
fn count_from_prefers_the_stated_count() {
    let stats = Some(vec!["15 results (0.3 s)".to_string()]);
    let blocks = Some(vec!["a".to_string(), "b".to_string()]);
    assert_eq!(DorkChecker::count_from(&stats, &blocks), 1503);
    assert_eq!(DorkChecker::count_from(&Some(vec!["none".to_string()]), &blocks), 2);
    assert_eq!(DorkChecker::count_from(&None, &None), 0);
}

#[test]
fn judge_keeps_a_count_at_the_threshold() {
    assert_eq!(DorkChecker::judge("a", 100, 100), Some(("a".to_string(), 100)));
    assert_eq!(DorkChecker::judge("a", 99, 100), None);
    assert_eq!(DorkChecker::judge("a", 0, 0), Some(("a".to_string(), 0)));
}

#[test]
fn check_dork_of_a_failed_fetch_is_nothing() {
    let config = DorkCheckerConfig { threads: 1, timeouts: 1, threshold: 0 };
    assert_eq!(
        DorkChecker::check_dork("a", &FetchOutcome::Failed(FailureReason::Timeout), &config),
        None
    );
    assert_eq!(
        DorkChecker::check_dork(
            "a",
            &FetchOutcome::Fetched(stats_page("About 5 results")),
            &config
        ),
        Some(("a".to_string(), 5))
    );
}

#[test]
fn run_keeps_the_dork_above_the_threshold() {
    let valid = checker(100).run(vec![
        fetched("site:example.com filetype:pdf", stats_page("About 150 results")),
        fetched("inurl:test", stats_page("About 40 results")),
    ]);
    assert_eq!(valid, vec![("site:example.com filetype:pdf".to_string(), 150)]);
}

#[test]
fn run_ranks_by_falling_count_and_keeps_ties_in_order() {
    let valid = checker(10).run(vec![
        fetched("a", stats_page("20")),
        fetched("b", stats_page("9")),
        fetched("c", stats_page("300")),
        (
            "d".to_string(),
            FetchOutcome::Failed(FailureReason::Transport),
        ),
        fetched("e", stats_page("20")),
        fetched("f", stats_page("10")),
    ]);
    assert_eq!(
        valid,
        vec![
            ("c".to_string(), 300),
            ("a".to_string(), 20),
            ("e".to_string(), 20),
            ("f".to_string(), 10)
        ]
    );
    for pair in valid.windows(2) {
        assert!(pair[0].1 >= pair[1].1);
    }
    for entry in &valid {
        assert!(entry.1 >= 10);
    }
}

#[test]
fn run_keeps_a_dork_given_twice_twice() {
    let valid =
        checker(1).run(vec![fetched("a", stats_page("5")), fetched("a", stats_page("5"))]);
    assert_eq!(valid, vec![("a".to_string(), 5), ("a".to_string(), 5)]);
}

#[test]
fn rank_is_stable() {
    let ranked = rank(vec![
        ("x".to_string(), 1),
        ("y".to_string(), 3),
        ("z".to_string(), 1),
        ("w".to_string(), 3),
    ]);
    assert_eq!(
        ranked,
        vec![
            ("y".to_string(), 3),
            ("w".to_string(), 3),
            ("x".to_string(), 1),
            ("z".to_string(), 1)
        ]
    );
}

#[test]
fn rank_of_nothing_is_nothing() {
    assert!(rank(vec![]).is_empty());
}

#[test]
fn collect_ranks_what_the_checks_kept() {
    let valid = DorkChecker::collect(vec![
        Some(("a".to_string(), 5)),
        None,
        Some(("b".to_string(), 50)),
        Some(("c".to_string(), 5)),
        None,
    ]);
    assert_eq!(
        valid,
        vec![("b".to_string(), 50), ("a".to_string(), 5), ("c".to_string(), 5)]
    );
    assert!(DorkChecker::collect(vec![None, None]).is_empty());
}

#[test]
fn a_page_beyond_the_limit_counts_nothing() {
    let mut page = stats_page("About 7 results");
    assert_eq!(DorkChecker::extract_result_count(&page), 7);
    page.push_str(&" ".repeat(swiss_army_suite::html::MAX_DOCUMENT_BYTES + 1 - page.len()));
    assert_eq!(DorkChecker::extract_result_count(&page), 0);
}
