use swiss_army_suite::accumulator::Accumulator;
use swiss_army_suite::config::Parser as ParserConfig;
use swiss_army_suite::html::find_attr;
use swiss_army_suite::html::find_text;
use swiss_army_suite::html::MAX_DOCUMENT_BYTES;
use swiss_army_suite::links::web_link;
use swiss_army_suite::links::web_links;
use swiss_army_suite::links::AbsoluteUrl;
use swiss_army_suite::modules::parser::extract_links;
use swiss_army_suite::modules::parser::PaginationDriver;
use swiss_army_suite::modules::parser::SearchEngine;
use swiss_army_suite::modules::parser::PAGE_DELAY_MILLIS;
use swiss_army_suite::modules::WebParser;
use swiss_army_suite::outcome::FailureReason;
use swiss_army_suite::outcome::FetchOutcome;

fn config(pages: u32, google: bool, yahoo: bool, bing: bool, ask: bool, yandex: bool) -> ParserConfig {
    ParserConfig {
        threads: 4,
        pages,
        timeouts: 10,
        domain_dedupe: true,
        google,
        googleproto: false,
        googleknowldge: false,
        googleapi: false,
        googlemobile: false,
        ask,
        bing,
        yahoo,
        startpage: false,
        myway: false,
        tonline: false,
        yandex,
        use_antipub: false,
        auto_antipub: false,
    }
}

fn page(links: &[&str]) -> FetchOutcome<String> {
    let mut body = String::from("<html><body>");
    for link in links {
        body.push_str(&format!("<a href=\"{}\">x</a>", link));
    }
    body.push_str("</body></html>");
    FetchOutcome::Fetched(body)
}

fn sorted(mut items: Vec<String>) -> Vec<String> {
    items.sort();
    items
}

#[test]
fn page_urls_follow_each_engine_s_convention() {
    assert_eq!(
        SearchEngine::Google.page_url("rust lang", 0),
        "https://www.google.com/search?q=rust%20lang&start=0"
    );
    assert_eq!(
        SearchEngine::Google.page_url("rust lang", 3),
        "https://www.google.com/search?q=rust%20lang&start=30"
    );
    assert_eq!(
        SearchEngine::Yahoo.page_url("a&b", 2),
        "https://search.yahoo.com/search?p=a%26b&b=21"
    );
    assert_eq!(SearchEngine::Bing.page_url("q", 0), "https://www.bing.com/search?q=q&first=1");
    assert_eq!(SearchEngine::Bing.page_url("q", 12), "https://www.bing.com/search?q=q&first=121");
    assert_eq!(SearchEngine::Ask.page_url("q", 0), "https://www.ask.com/web?q=q&page=1");
    assert_eq!(SearchEngine::Ask.page_url("q", 4), "https://www.ask.com/web?q=q&page=5");
    assert_eq!(SearchEngine::Yandex.page_url("q", 0), "https://yandex.com/search/?text=q&p=0");
    assert_eq!(SearchEngine::Yandex.page_url("q", 9), "https://yandex.com/search/?text=q&p=9");
}

#[test]
fn page_url_of_the_last_page_does_not_overflow() {
    assert_eq!(
        SearchEngine::Google.page_url("q", u32::MAX),
        "https://www.google.com/search?q=q&start=42949672950"
    );
    assert_eq!(
        SearchEngine::Ask.page_url("q", u32::MAX),
        "https://www.ask.com/web?q=q&page=4294967296"
    );
}

#[test]
fn the_page_delay_is_one_second() {
    assert_eq!(PAGE_DELAY_MILLIS, 1000);
}

#[test]
fn links_are_the_absolute_web_urls_among_the_anchors() {
    let html = "<html><body>\
        <a href=\"https://a.example/\">a</a>\
        <a href=\"/relative\">r</a>\
        <a>none</a>\
        <a href=\"ftp://files.example/x\">f</a>\
        <a href=\"HTTP://B.example\">b</a>\
        <a href=\"mailto:someone@example.com\">m</a>\
        <a href=\"not a url\">n</a>\
        <p href=\"https://p.example/\">p</p>\
        </body></html>";
    assert_eq!(
        extract_links(html),
        vec!["https://a.example/".to_string(), "http://b.example/".to_string()]
    );
}

#[test]
fn web_link_keeps_http_and_https_only() {
    let url = |scheme: &str, text: &str| Some(AbsoluteUrl { scheme: scheme.to_string(), text: text.to_string() });
    assert_eq!(web_link(url("http", "http://a/")), Some("http://a/".to_string()));
    assert_eq!(web_link(url("https", "https://a/")), Some("https://a/".to_string()));
    assert_eq!(web_link(url("ftp", "ftp://a/")), None);
    assert_eq!(web_link(url("httpx", "httpx://a/")), None);
    assert_eq!(web_link(None), None);
}

#[test]
fn web_links_normalise_what_they_keep() {
    let hrefs = vec![
        Some("https://example.com".to_string()),
        None,
        Some("nothing".to_string()),
        Some("https://example.com/a b".to_string()),
    ];
    assert_eq!(
        web_links(hrefs),
        vec!["https://example.com/".to_string(), "https://example.com/a%20b".to_string()]
    );
}

#[test]
fn a_driver_asks_for_exactly_the_configured_pages() {
    let mut acc = Accumulator::new();
    let mut driver = PaginationDriver::new(SearchEngine::Google, "q", 3);
    let mut requests = Vec::new();
    while let Some(url) = driver.next_request() {
        requests.push(url);
        let outcome = if requests.len() == 2 {
            FetchOutcome::Failed(FailureReason::Timeout)
        } else {
            page(&["https://a.example/"])
        };
        driver.record(outcome, &mut acc, true);
    }
    assert_eq!(
        requests,
        vec![
            "https://www.google.com/search?q=q&start=0".to_string(),
            "https://www.google.com/search?q=q&start=10".to_string(),
            "https://www.google.com/search?q=q&start=20".to_string()
        ]
    );
    assert_eq!(driver.attempts(), 3);
    assert!(driver.is_done());
}

#[test]
fn a_driver_counts_failed_pages_like_any_other() {
    let mut acc = Accumulator::new();
    let mut driver = PaginationDriver::new(SearchEngine::Bing, "q", 4);
    let mut attempts = 0;
    while driver.next_request().is_some() {
        driver.record(FetchOutcome::Failed(FailureReason::Transport), &mut acc, true);
        attempts += 1;
    }
    assert_eq!(attempts, 4);
    assert_eq!(driver.attempts(), 4);
    assert!(acc.is_empty());
}

#[test]
fn a_driver_that_is_done_records_nothing() {
    let mut acc = Accumulator::new();
    let mut driver = PaginationDriver::new(SearchEngine::Ask, "q", 1);
    driver.record(page(&["https://a.example/"]), &mut acc, true);
    assert!(driver.is_done());
    driver.record(page(&["https://b.example/"]), &mut acc, true);
    assert_eq!(driver.attempts(), 1);
    assert_eq!(acc.snapshot(), vec!["https://a.example/".to_string()]);
}

#[test]
fn a_driver_of_no_pages_asks_for_nothing() {
    let driver = PaginationDriver::new(SearchEngine::Yandex, "q", 0);
    assert_eq!(driver.next_request(), None);
    assert!(driver.is_done());
}

#[test]
fn a_page_is_merged_as_soon_as_it_is_recorded() {
    let mut acc = Accumulator::new();
    let mut driver = PaginationDriver::new(SearchEngine::Google, "q", 2);
    driver.record(page(&["https://a.example/", "https://b.example/"]), &mut acc, false);
    assert_eq!(acc.len(), 2);
    driver.record(page(&["https://b.example/", "https://c.example/"]), &mut acc, false);
    assert_eq!(acc.len(), 3);
}

#[test]
fn engines_come_in_the_order_in_which_they_are_asked() {
    let parser = WebParser::new(config(1, true, true, true, true, true));
    assert_eq!(
        parser.engines(),
        vec![
            SearchEngine::Google,
            SearchEngine::Yahoo,
            SearchEngine::Bing,
            SearchEngine::Ask,
            SearchEngine::Yandex
        ]
    );
    let some = WebParser::new(config(1, false, true, false, false, true));
    assert_eq!(some.engines(), vec![SearchEngine::Yahoo, SearchEngine::Yandex]);
    assert_eq!(WebParser::new(config(1, false, false, false, false, false)).engines(), vec![]);
}

#[test]
fn a_url_that_two_sources_return_is_held_once() {
    let mut parser = WebParser::new(config(1, true, false, true, false, false));
    let urls = parser.run(
        "q",
        vec![
            vec![page(&["https://a.example/", "https://g.example/"])],
            vec![page(&["https://b.example/", "https://a.example/"])],
        ],
    );
    assert_eq!(urls.iter().filter(|u| u.as_str() == "https://a.example/").count(), 1);
    assert_eq!(
        sorted(urls),
        vec![
            "https://a.example/".to_string(),
            "https://b.example/".to_string(),
            "https://g.example/".to_string()
        ]
    );
}

#[test]
fn a_source_that_times_out_contributes_nothing_and_the_others_still_do() {
    let mut parser = WebParser::new(config(2, true, true, false, false, false));
    let urls = parser.run(
        "q",
        vec![
            vec![
                FetchOutcome::Failed(FailureReason::Timeout),
                FetchOutcome::Failed(FailureReason::Timeout),
            ],
            vec![page(&["https://y1.example/"]), page(&["https://y2.example/"])],
        ],
    );
    assert_eq!(urls, vec!["https://y1.example/".to_string(), "https://y2.example/".to_string()]);
}

#[test]
fn a_failed_page_does_not_stop_the_pages_after_it() {
    let mut parser = WebParser::new(config(3, true, false, false, false, false));
    let urls = parser.run(
        "q",
        vec![vec![
            page(&["https://one.example/"]),
            FetchOutcome::Failed(FailureReason::Decode),
            page(&["https://three.example/"]),
        ]],
    );
    assert_eq!(urls, vec!["https://one.example/".to_string(), "https://three.example/".to_string()]);
}

#[test]
fn pages_beyond_the_configured_number_do_not_count() {
    let mut parser = WebParser::new(config(1, true, false, false, false, false));
    let urls = parser.run(
        "q",
        vec![vec![page(&["https://one.example/"]), page(&["https://two.example/"])]],
    );
    assert_eq!(urls, vec!["https://one.example/".to_string()]);
}

#[test]
fn responses_beyond_the_enabled_engines_do_not_count() {
    let mut parser = WebParser::new(config(1, false, false, false, true, false));
    let urls = parser.run(
        "q",
        vec![vec![page(&["https://ask.example/"])], vec![page(&["https://nobody.example/"])]],
    );
    assert_eq!(urls, vec!["https://ask.example/".to_string()]);
}

#[test]
fn a_second_run_reports_only_its_own_urls() {
    let mut parser = WebParser::new(config(1, true, false, false, false, false));
    let first = parser.run("q", vec![vec![page(&["https://a.example/"])]]);
    assert_eq!(first, vec!["https://a.example/".to_string()]);
    let second = parser.run("r", vec![vec![page(&["https://b.example/", "https://c.example/"])]]);
    assert_eq!(second, vec!["https://b.example/".to_string(), "https://c.example/".to_string()]);
}

#[test]
fn a_run_keeps_nothing() {
    let mut parser = WebParser::new(config(1, true, false, false, false, false));
    parser.run("q", vec![vec![page(&["https://a.example/"])]]);
    assert_eq!(parser.urls(), Vec::<String>::new());
}

#[test]
fn a_run_starts_from_nothing() {
    let mut parser = WebParser::new(config(1, true, false, false, false, false));
    let mut driver = parser.driver(SearchEngine::Google, "q");
    parser.record(&mut driver, page(&["https://early.example/"]));
    assert_eq!(parser.urls(), vec!["https://early.example/".to_string()]);
    let urls = parser.run("q", vec![vec![page(&["https://late.example/"])]]);
    assert_eq!(urls, vec!["https://late.example/".to_string()]);
}

#[test]
fn finish_hands_out_the_urls_recorded_and_keeps_none() {
    let mut parser = WebParser::new(config(2, true, false, false, false, false));
    let mut driver = parser.driver(SearchEngine::Google, "q");
    parser.record(&mut driver, page(&["https://a.example/", "https://b.example/"]));
    parser.record(&mut driver, page(&["https://b.example/", "https://c.example/"]));
    assert_eq!(
        parser.finish(),
        vec![
            "https://a.example/".to_string(),
            "https://b.example/".to_string(),
            "https://c.example/".to_string()
        ]
    );
    assert_eq!(parser.finish(), Vec::<String>::new());
}

#[test]
fn find_text_and_find_attr_read_the_matches_in_order() {
    let html = "<p class=\"x\">one <b>two</b></p><a href=\"u\">l</a><p class=\"x\">three</p><a>n</a>";
    assert_eq!(find_text(html, ".x"), Some(vec!["one two".to_string(), "three".to_string()]));
    assert_eq!(find_attr(html, "a", "href"), Some(vec![Some("u".to_string()), None]));
    assert_eq!(find_text(html, ".none"), Some(vec![]));
    assert_eq!(find_text(html, "]["), None);
    assert_eq!(find_attr(html, "", "href"), None);
}

#[test]
fn a_document_beyond_the_limit_is_not_parsed() {
    let mut html = String::from("<a href=\"https://a.example/\">a</a>");
    assert_eq!(extract_links(&html), vec!["https://a.example/".to_string()]);
    html.push_str(&" ".repeat(MAX_DOCUMENT_BYTES + 1 - html.len()));
    assert_eq!(html.len(), MAX_DOCUMENT_BYTES + 1);
    assert_eq!(find_text(&html, "a"), None);
    assert_eq!(find_attr(&html, "a", "href"), None);
    assert_eq!(extract_links(&html), Vec::<String>::new());
}
