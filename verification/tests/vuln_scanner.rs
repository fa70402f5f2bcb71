use swiss_army_suite::config::VulnScanner as VulnScannerConfig;
use swiss_army_suite::modules::vuln_scanner::is_success;
use swiss_army_suite::modules::vuln_scanner::probe_path;
use swiss_army_suite::modules::vuln_scanner::PROBE_COUNT;
use swiss_army_suite::modules::vuln_scanner::PROBE_DELAY_MILLIS;
use swiss_army_suite::modules::VulnScanner;
use swiss_army_suite::outcome::FailureReason;
use swiss_army_suite::outcome::FetchOutcome;

fn statuses(codes: &[u16]) -> Vec<FetchOutcome<u16>> {
    codes.iter().map(|c| FetchOutcome::Fetched(*c)).collect()
}

#[test]
fn the_paths_are_probed_in_their_fixed_order() {
    let paths: Vec<&str> = (0..PROBE_COUNT).map(|i| probe_path(i).unwrap()).collect();
    assert_eq!(
        paths,
        vec![
            "/admin",
            "/phpmyadmin",
            "/wp-admin",
            "/.git",
            "/.env",
            "/config.php",
            "/backup",
            "/sql",
            "/database"
        ]
    );
    assert_eq!(probe_path(PROBE_COUNT), None);
}

#[test]
fn probe_urls_append_the_path_to_the_target() {
    let urls = VulnScanner::probe_urls("http://t.example");
    assert_eq!(urls.len(), 9);
    assert_eq!(urls[0], "http://t.example/admin");
    assert_eq!(urls[3], "http://t.example/.git");
    assert_eq!(urls[8], "http://t.example/database");
}

#[test]
fn the_probe_delay_is_a_tenth_of_a_second() {
    assert_eq!(PROBE_DELAY_MILLIS, 100);
}

#[test]
fn success_is_any_status_from_200_to_299() {
    assert!(!is_success(199));
    assert!(is_success(200));
    assert!(is_success(204));
    assert!(is_success(299));
    assert!(!is_success(300));
    assert!(!is_success(404));
    assert!(!is_success(0));
}

#[test]
fn only_the_path_that_answers_with_success_is_a_finding() {
    let target = "http://t.example";
    let outcomes = statuses(&[404, 404, 404, 200, 404, 404, 404, 404, 404]);
    assert_eq!(
        VulnScanner::scan_target(target, &outcomes),
        vec![(format!("{}{}", target, "/.git"), 200)]
    );
}

#[test]
fn findings_keep_the_order_of_the_paths() {
    let mut outcomes = statuses(&[200, 301, 204, 500, 403, 200, 404, 404, 299]);
    outcomes[3] = FetchOutcome::Failed(FailureReason::Timeout);
    assert_eq!(
        VulnScanner::scan_target("https://x", &outcomes),
        vec![
            ("https://x/admin".to_string(), 200),
            ("https://x/wp-admin".to_string(), 204),
            ("https://x/config.php".to_string(), 200),
            ("https://x/database".to_string(), 299)
        ]
    );
}

#[test]
fn failed_probes_are_no_findings() {
    let outcomes: Vec<FetchOutcome<u16>> =
        (0..9).map(|_| FetchOutcome::Failed(FailureReason::Transport)).collect();
    assert!(VulnScanner::scan_target("http://t", &outcomes).is_empty());
}

#[test]
fn outcomes_beyond_the_last_path_do_not_count() {
    let outcomes = statuses(&[404, 404, 404, 404, 404, 404, 404, 404, 200, 200, 200]);
    assert_eq!(
        VulnScanner::scan_target("http://t", &outcomes),
        vec![("http://t/database".to_string(), 200)]
    );
    assert_eq!(
        VulnScanner::scan_target("http://t", &statuses(&[200])),
        vec![("http://t/admin".to_string(), 200)]
    );
}

#[test]
fn assess_reads_one_probe() {
    assert_eq!(
        VulnScanner::assess("http://t", 4, &FetchOutcome::Fetched(200)),
        Some(("http://t/.env".to_string(), 200))
    );
    assert_eq!(VulnScanner::assess("http://t", 4, &FetchOutcome::Fetched(403)), None);
    assert_eq!(VulnScanner::assess("http://t", 9, &FetchOutcome::Fetched(200)), None);
    assert_eq!(
        VulnScanner::assess("http://t", 0, &FetchOutcome::Failed(FailureReason::Timeout)),
        None
    );
}

#[test]
fn run_lists_the_findings_target_after_target() {
    let scanner = VulnScanner::new(VulnScannerConfig { threads: 2, timeouts: 5 });
    assert_eq!(scanner.threads(), 2);
    assert_eq!(scanner.timeouts(), 5);
    let found = scanner.run(vec![
        ("http://a".to_string(), statuses(&[404, 200, 404, 404, 404, 404, 404, 404, 404])),
        ("http://b".to_string(), statuses(&[404, 404, 404, 404, 404, 404, 404, 404, 404])),
        ("http://c".to_string(), statuses(&[201, 404, 404, 404, 404, 404, 404, 202, 404])),
    ]);
    assert_eq!(
        found,
        vec![
            ("http://a/phpmyadmin".to_string(), 200),
            ("http://c/admin".to_string(), 201),
            ("http://c/sql".to_string(), 202)
        ]
    );
}
