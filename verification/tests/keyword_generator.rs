use swiss_army_suite::config::KeywordGenerator as KeywordConfig;
use swiss_army_suite::json::Json;
use swiss_army_suite::modules::keyword_generator::extract_keywords;
use swiss_army_suite::modules::keyword_generator::SuggestSource;
use swiss_army_suite::modules::KeywordGenerator;
use swiss_army_suite::outcome::FailureReason;
use swiss_army_suite::outcome::FetchOutcome;

fn text(s: &str) -> Json {
    Json::Text(s.to_string())
}

fn list_response(seed: &str, suggestions: &[&str]) -> Json {
    Json::Array(vec![text(seed), Json::Array(suggestions.iter().map(|s| text(s)).collect())])
}

fn yahoo_response(suggestions: &[&str]) -> Json {
    Json::Object(vec![
        ("q".to_string(), text("seed")),
        (
            "r".to_string(),
            Json::Array(
                suggestions
                    .iter()
                    .map(|s| Json::Object(vec![("k".to_string(), text(s)), ("m".to_string(), Json::Number("6".to_string()))]))
                    .collect(),
            ),
        ),
    ])
}

fn config(google: bool, bing: bool, yahoo: bool, duckduckgo: bool, brave: bool) -> KeywordConfig {
    KeywordConfig { threads: 4, timeouts: 10, google, bing, ask: true, duckduckgo, yahoo, brave }
}

#[test]
fn suggest_urls_follow_each_source_s_template() {
    assert_eq!(
        SuggestSource::Google.suggest_url("rust lang"),
        "https://www.google.com/complete/search?q=rust%20lang&client=firefox"
    );
    assert_eq!(
        SuggestSource::Bing.suggest_url("rust lang"),
        "https://api.bing.com/osjson.aspx?query=rust%20lang"
    );
    assert_eq!(
        SuggestSource::Yahoo.suggest_url("a+b"),
        "https://search.yahoo.com/sugg/gossip/gossip-us-ura/?output=sd1&command=a%2Bb"
    );
    assert_eq!(
        SuggestSource::DuckDuckGo.suggest_url("q"),
        "https://ac.duckduckgo.com/ac/?q=q&type=list"
    );
    assert_eq!(SuggestSource::Brave.suggest_url("q"), SuggestSource::DuckDuckGo.suggest_url("q"));
}

#[test]
fn list_sources_read_the_strings_of_the_second_item() {
    let response = Json::Array(vec![
        text("seed"),
        Json::Array(vec![text("seed one"), Json::Number("3".to_string()), text("seed two"), Json::Null]),
        Json::Array(vec![text("ignored")]),
    ]);
    for source in [SuggestSource::Google, SuggestSource::Bing, SuggestSource::DuckDuckGo, SuggestSource::Brave] {
        assert_eq!(
            extract_keywords(source, &response),
            vec!["seed one".to_string(), "seed two".to_string()]
        );
    }
}

#[test]
fn yahoo_reads_the_k_fields_of_the_items_of_r() {
    assert_eq!(
        extract_keywords(SuggestSource::Yahoo, &yahoo_response(&["alpha", "beta"])),
        vec!["alpha".to_string(), "beta".to_string()]
    );
    let mixed = Json::Object(vec![(
        "r".to_string(),
        Json::Array(vec![
            Json::Object(vec![("k".to_string(), text("kept"))]),
            Json::Object(vec![("k".to_string(), Json::Bool(true))]),
            Json::Object(vec![("x".to_string(), text("other field"))]),
            text("no object"),
        ]),
    )]);
    assert_eq!(extract_keywords(SuggestSource::Yahoo, &mixed), vec!["kept".to_string()]);
}

#[test]
fn any_other_shape_holds_no_suggestion() {
    let shapes = vec![
        Json::Null,
        Json::Bool(false),
        text("plain"),
        Json::Array(vec![]),
        Json::Array(vec![text("only one item")]),
        Json::Array(vec![text("seed"), text("no list")]),
        Json::Object(vec![("r".to_string(), text("no list"))]),
        Json::Object(vec![("other".to_string(), Json::Array(vec![]))]),
    ];
    for shape in &shapes {
        assert!(extract_keywords(SuggestSource::Google, shape).is_empty());
        assert!(extract_keywords(SuggestSource::Yahoo, shape).is_empty());
    }
    assert!(extract_keywords(SuggestSource::Google, &yahoo_response(&["a"])).is_empty());
    assert!(extract_keywords(SuggestSource::Yahoo, &list_response("s", &["a"])).is_empty());
}

#[test]
fn the_last_field_of_a_repeated_key_counts() {
    let response = Json::Object(vec![
        ("r".to_string(), Json::Array(vec![Json::Object(vec![("k".to_string(), text("early"))])])),
        ("r".to_string(), Json::Array(vec![Json::Object(vec![("k".to_string(), text("late"))])])),
    ]);
    assert_eq!(extract_keywords(SuggestSource::Yahoo, &response), vec!["late".to_string()]);
}

#[test]
fn json_accessors_read_one_level() {
    let value = Json::Array(vec![text("a"), Json::Null]);
    assert_eq!(value.item(0), Some(&text("a")));
    assert_eq!(value.item(2), None);
    assert_eq!(value.as_text(), None);
    assert_eq!(text("a").as_text(), Some("a"));
    assert_eq!(text("a").as_array(), None);
    assert_eq!(text("a").item(0), None);
    let object = Json::Object(vec![("k".to_string(), Json::Bool(true))]);
    assert_eq!(object.member("k"), Some(&Json::Bool(true)));
    assert_eq!(object.member("K"), None);
    assert_eq!(value.member("k"), None);
}

#[test]
fn sources_come_in_the_order_in_which_they_are_asked() {
    assert_eq!(
        KeywordGenerator::new(config(true, true, true, true, true)).sources(),
        vec![
            SuggestSource::Google,
            SuggestSource::Bing,
            SuggestSource::Yahoo,
            SuggestSource::DuckDuckGo,
            SuggestSource::Brave
        ]
    );
    assert_eq!(
        KeywordGenerator::new(config(false, true, false, false, true)).sources(),
        vec![SuggestSource::Bing, SuggestSource::Brave]
    );
}

#[test]
fn run_holds_each_keyword_once() {
    let mut generator = KeywordGenerator::new(config(true, false, true, true, false));
    let keywords = generator.run(vec![
        FetchOutcome::Fetched(list_response("s", &["s one", "s two"])),
        FetchOutcome::Fetched(yahoo_response(&["s two", "s three"])),
        FetchOutcome::Fetched(list_response("s", &["s one", "s four"])),
    ]);
    assert_eq!(
        keywords,
        vec!["s one".to_string(), "s two".to_string(), "s three".to_string(), "s four".to_string()]
    );
}

#[test]
fn run_reads_each_response_in_its_source_s_shape() {
    let mut generator = KeywordGenerator::new(config(true, false, true, false, false));
    let keywords = generator.run(vec![
        FetchOutcome::Fetched(yahoo_response(&["wrong shape for google"])),
        FetchOutcome::Fetched(yahoo_response(&["right shape for yahoo"])),
    ]);
    assert_eq!(keywords, vec!["right shape for yahoo".to_string()]);
}

#[test]
fn a_source_that_fails_contributes_nothing_and_the_others_still_do() {
    let mut generator = KeywordGenerator::new(config(true, true, false, false, false));
    let keywords = generator.run(vec![
        FetchOutcome::Failed(FailureReason::Timeout),
        FetchOutcome::Fetched(list_response("s", &["from bing"])),
    ]);
    assert_eq!(keywords, vec!["from bing".to_string()]);
}

#[test]
fn a_second_run_reports_only_its_own_keywords() {
    let mut generator = KeywordGenerator::new(config(true, false, false, false, false));
    let first = generator.run(vec![FetchOutcome::Fetched(list_response("a", &["a one"]))]);
    assert_eq!(first, vec!["a one".to_string()]);
    let second = generator.run(vec![FetchOutcome::Fetched(list_response("b", &["b one", "b two"]))]);
    assert_eq!(second, vec!["b one".to_string(), "b two".to_string()]);
    assert_eq!(generator.found_keywords(), Vec::<String>::new());
}

#[test]
fn finish_hands_out_the_keywords_recorded_and_keeps_none() {
    let mut generator = KeywordGenerator::new(config(true, true, false, false, false));
    generator.record(SuggestSource::Google, FetchOutcome::Fetched(list_response("s", &["a", "b"])));
    generator.record(SuggestSource::Bing, FetchOutcome::Fetched(list_response("s", &["b", "c"])));
    assert_eq!(generator.finish(), vec!["a".to_string(), "b".to_string(), "c".to_string()]);
    assert_eq!(generator.finish(), Vec::<String>::new());
}

#[test]
fn record_merges_at_once() {
    let mut generator = KeywordGenerator::new(config(true, true, false, false, false));
    generator.record(SuggestSource::Google, FetchOutcome::Fetched(list_response("s", &["a"])));
    assert_eq!(generator.found_keywords(), vec!["a".to_string()]);
    generator.record(SuggestSource::Bing, FetchOutcome::Failed(FailureReason::Decode));
    assert_eq!(generator.found_keywords(), vec!["a".to_string()]);
}
