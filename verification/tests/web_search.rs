use napaxi_codex::browser_search::{BrowserSearch, BrowserTool, SearchStep};
use napaxi_codex::json::{Json, JsonNumber};
use napaxi_codex::search_cache::SearchCache;
use napaxi_codex::search_text::{
    clean_browser_text, find_next_result_snippet, find_next_result_title, looks_like_domain,
    looks_like_repeated_label, looks_like_search_navigation_title,
    looks_like_visible_result_metadata, visible_text_result_url,
};
use napaxi_codex::search_run::{finish_web_search, start_web_search, RunStart};
use napaxi_codex::search_tool::{
    answer_search, browser_search_type_attempts, cache_key, descriptor, read_search_request,
};
use napaxi_codex::search_url::{
    bing_target_from_bytes, browser_bing_home_url, browser_bing_search_page_url, decode_bing_u_param, is_search_engine_internal_url,
    normalize_browser_result_url, query_param,
};
use napaxi_codex::web_search::{
    browser_observation_diagnostics, clean_search_result_title, format_results_with_diagnostics,
    host_tool_error, parse_browser_search_results, SearchResult,
};

fn to_json(v: &serde_json::Value) -> Json {
    match v {
        serde_json::Value::Null => Json::Null,
        serde_json::Value::Bool(b) => Json::Bool(*b),
        serde_json::Value::Number(n) => {
            if let Some(u) = n.as_u64() {
                Json::Number(JsonNumber::PosInt(u))
            } else if let Some(i) = n.as_i64() {
                Json::Number(JsonNumber::NegInt(i))
            } else {
                Json::Number(JsonNumber::Float(n.to_string()))
            }
        }
        serde_json::Value::String(s) => Json::Str(s.clone()),
        serde_json::Value::Array(a) => Json::Array(a.iter().map(to_json).collect()),
        serde_json::Value::Object(m) => {
            Json::Object(m.iter().map(|(k, x)| (k.clone(), to_json(x))).collect())
        }
    }
}

fn parse(output: &str) -> Option<Json> {
    serde_json::from_str::<serde_json::Value>(output).ok().map(|v| to_json(&v))
}

fn results(output: &str, max: usize) -> Vec<SearchResult> {
    let parsed = parse(output);
    parse_browser_search_results(parsed.as_ref(), max)
}

fn value(j: &Json) -> serde_json::Value {
    serde_json::from_str(&j.to_text()).unwrap()
}

#[test]
fn descriptor_exposes_web_search() {
    let descriptor = descriptor();
    assert_eq!(descriptor.name, "web_search");
    assert!(
        value(&descriptor.parameters)["required"]
            .as_array()
            .unwrap()
            .iter()
            .any(|value| value.as_str() == Some("query"))
    );
}

#[test]
fn browser_bing_home_url_avoids_direct_query_search() {
    assert_eq!(
        browser_bing_home_url("zh-Hans"),
        "https://cn.bing.com/?setlang=zh-Hans&cc="
    );
}

#[test]
fn browser_search_type_attempts_submit_visible_search_field() {
    let attempts: Vec<serde_json::Value> =
        browser_search_type_attempts("重庆 近期 活动 2026年8月").iter().map(value).collect();
    assert_eq!(attempts[0]["selector"], "#sb_form_q");
    assert_eq!(attempts[0]["text"], "重庆 近期 活动 2026年8月");
    assert_eq!(attempts[0]["submit"], true);
    assert_eq!(attempts[0]["submit_selector"], "#sb_form");
    assert_eq!(attempts[0]["clear_first"], true);
    assert!(attempts.iter().any(|attempt| attempt["selector"] == "input[name='q']"));
    assert!(attempts.iter().any(|attempt| attempt["label"] == "搜索网页"));
}

#[test]
fn parses_browser_snapshot_results() {
    let output = r#"{"success": true, "elements": [{"role": "link", "tag": "a", "href": "https://example.com/event", "text": "重庆活动", "nearby_text": "重庆活动 近期展览和演出安排"}]}"#;
    let results = results(output, 5);
    assert_eq!(results.len(), 1);
    assert_eq!(results[0].title, "重庆活动");
    assert_eq!(results[0].url, "https://example.com/event");
    assert_eq!(results[0].snippet, "近期展览和演出安排");
}

#[test]
fn parses_browser_snapshot_page_state_results_and_dedupes() {
    let output = r#"{"success": true, "page_state": {"elements": [
        {"role": "link", "tag": "a", "href": "https://example.com/same", "text": "First"},
        {"role": "link", "tag": "a", "href": "https://example.com/same", "text": "Duplicate"},
        {"role": "link", "tag": "a", "href": "https://example.com/other", "text": "Second"}
    ]}}"#;
    let results = results(output, 5);
    assert_eq!(results.len(), 2);
    assert_eq!(results[0].title, "First");
    assert_eq!(results[1].title, "Second");
}

#[test]
fn parses_mobile_bing_viewport_text_results_before_element_links() {
    let output = r#"{"success": true, "viewport_map": {"visible_text_blocks": [
        {"text": "网页"},
        {"text": "goodexpos.com"},
        {"text": "https://www.goodexpos.com › coming-article"},
        {"text": "2026年7月北京展会排期-2026年7月展会 - 优展网"},
        {"text": "2026年7月北京展会排期-2026年7月展会,优展网平台是专业展会服务网站"},
        {"text": "zhanxun.cn"},
        {"text": "https://www.zhanxun.cn › news"},
        {"text": "2026年7月北京展会一览表-展讯网会展平台"},
        {"text": "2026年7月将有100+场展会"}
    ]}, "elements": [
        {"role": "link", "tag": "a", "href": "https://baike.baidu.com/item/beijing", "text": "北京市_百度百科"}
    ]}"#;
    let results = results(output, 5);
    assert_eq!(results.len(), 3);
    assert_eq!(results[0].url, "https://www.goodexpos.com");
    assert_eq!(results[0].title, "2026年7月北京展会排期-2026年7月展会 - 优展网");
    assert_eq!(results[1].url, "https://www.zhanxun.cn");
    assert_eq!(results[1].title, "2026年7月北京展会一览表-展讯网会展平台");
    assert_eq!(results[2].url, "https://baike.baidu.com/item/beijing");
}

#[test]
fn normalizes_bing_redirect_links() {
    let output = r#"{"success": true, "elements": [{"role": "link", "tag": "a", "href": "https://www.bing.com/ck/a?u=a1aHR0cHM6Ly9leGFtcGxlLmNvbS9iaW5nLXJlc3VsdA", "text": "Redirected"}]}"#;
    let results = results(output, 5);
    assert_eq!(results.len(), 1);
    assert_eq!(results[0].url, "https://example.com/bing-result");
}

#[test]
fn filters_browser_search_engine_internal_links() {
    let output = r#"{"success": true, "elements": [
        {"role": "link", "tag": "a", "href": "https://www.bing.com/search?q=x", "text": "Search"},
        {"role": "link", "tag": "a", "href": "https://example.com/result", "text": "Result"}
    ]}"#;
    let results = results(output, 5);
    assert_eq!(results.len(), 1);
    assert_eq!(results[0].url, "https://example.com/result");
}

#[test]
fn browser_parser_returns_empty_for_invalid_output() {
    assert!(results("not json", 5).is_empty());
    assert!(results(r#"{"success":false}"#, 5).is_empty());
}

#[test]
fn cleans_structured_mobile_bing_titles() {
    let output = r#"{"success": true, "search_results": [
        {"title": "杭州7月活动汇总（持续更新） 杭州本地宝 https://hz.bendibao.com › xiuxian › date.php", "url": "https://hz.bendibao.com/xiuxian/date.php?type=4&y=2026&m=07&f=0", "snippet": "2026年7月杭州活动时间表"},
        {"title": "豆瓣 豆瓣 https://www.douban.com › location › hangzhou › events › future...", "url": "https://www.douban.com/location/hangzhou/events/future-exhibition", "snippet": "杭州展览活动"}
    ], "links": [
        {"role":"link","tag":"a","href":"https://baike.baidu.com/item/hangzhou","text":"杭州市_百度百科"}
    ]}"#;
    let results = results(output, 5);
    assert_eq!(results.len(), 2);
    assert_eq!(results[0].title, "杭州7月活动汇总（持续更新） 杭州本地宝");
    assert_eq!(
        results[0].url,
        "https://hz.bendibao.com/xiuxian/date.php?type=4&y=2026&m=07&f=0"
    );
    assert_eq!(results[1].title, "杭州市_百度百科");
}

#[test]
fn formats_search_results_as_json_with_explicit_count() {
    let body = format_results_with_diagnostics(
        "napaxi",
        &vec![SearchResult {
            title: "Napaxi result".to_string(),
            url: "https://example.com/napaxi".to_string(),
            snippet: "Useful snippet".to_string(),
        }],
        "source=browser; fallback=disabled",
    );
    let value: serde_json::Value = serde_json::from_str(&body).unwrap();
    assert_eq!(value["query"], "napaxi");
    assert_eq!(value["diagnostics"], "source=browser; fallback=disabled");
    assert_eq!(value["result_count"], 1);
    assert_eq!(value["results"][0]["index"], 1);
    assert_eq!(value["results"][0]["url"], "https://example.com/napaxi");
}

#[test]
fn formatted_results_are_pretty_json_as_serde_writes_it() {
    let body = format_results_with_diagnostics(
        "q \"x\"",
        &vec![
            SearchResult { title: "A\tb".to_string(), url: "https://a.example".to_string(), snippet: String::new() },
            SearchResult { title: "中文".to_string(), url: "https://b.example".to_string(), snippet: "s\n".to_string() },
        ],
        "d",
    );
    let value: serde_json::Value = serde_json::from_str(&body).unwrap();
    assert_eq!(body, serde_json::to_string_pretty(&value).unwrap());
    assert_eq!(value["results"][1]["index"], 2);
}

#[test]
fn result_limit_is_kept() {
    let output = r#"{"elements": [
        {"role": "link", "href": "https://a.example/1", "text": "One"},
        {"tag": "A", "href": "https://a.example/2", "text": "Two"},
        {"role": "button", "href": "https://a.example/3", "text": "Three"}
    ]}"#;
    assert_eq!(results(output, 1).len(), 1);
    let all = results(output, 5);
    assert_eq!(all.len(), 2);
    assert_eq!(all[1].title, "Two");
    assert!(results(output, 0).is_empty());
}

#[test]
fn structured_snippets_are_clipped_to_360_bytes() {
    let long = "字".repeat(130);
    let output = format!(
        r#"{{"search_results": [{{"title": "Title", "url": "https://a.example/x", "snippet": "{long}"}}]}}"#
    );
    let r = results(&output, 5);
    assert_eq!(r.len(), 1);
    assert_eq!(r[0].snippet.len(), 360);
    assert_eq!(r[0].snippet, "字".repeat(120));
}

#[test]
fn element_snippet_drops_repeated_title() {
    let output = r#"{"links": [{"role": "link", "href": "https://a.example/x", "text": "Title", "nearby_text": "Title — the body"}]}"#;
    let r = results(output, 5);
    assert_eq!(r[0].snippet, "the body");
}

#[test]
fn text_helpers() {
    assert_eq!(clean_browser_text("  a \n\t b  c "), "a b c");
    assert!(looks_like_repeated_label("豆瓣 豆瓣"));
    assert!(looks_like_repeated_label("a b a b"));
    assert!(!looks_like_repeated_label("a b c"));
    assert!(looks_like_domain("example.com/"));
    assert!(looks_like_domain("Sub-Domain.Example.ORG"));
    assert!(!looks_like_domain("a.b"));
    assert!(!looks_like_domain("user@example.com"));
    assert!(!looks_like_domain("example.c0m"));
    assert!(looks_like_search_navigation_title("Images"));
    assert!(looks_like_search_navigation_title("新闻"));
    assert!(!looks_like_search_navigation_title("Imagery"));
    assert!(looks_like_visible_result_metadata("HTTPS://x"));
    assert!(looks_like_visible_result_metadata("更多"));
    assert!(looks_like_visible_result_metadata("example.com › news"));
    assert_eq!(
        visible_text_result_url("see https://a.example/path/, then"),
        Some("https://a.example/path".to_string())
    );
    assert_eq!(visible_text_result_url("：zhanxun.cn，"), Some("https://zhanxun.cn".to_string()));
    assert_eq!(visible_text_result_url("   "), None);
}

#[test]
fn title_and_snippet_windows() {
    let blocks: Vec<String> = ["a.example", "ok", "Good title here", "short", "a long enough snippet"]
        .iter()
        .map(|s| s.to_string())
        .collect();
    assert_eq!(find_next_result_title(&blocks, 1), Some(2));
    assert_eq!(find_next_result_snippet(&blocks, 3), "a long enough snippet");
    assert_eq!(find_next_result_title(&blocks, 5), None);
    assert_eq!(find_next_result_snippet(&blocks, 0), "");
}

#[test]
fn titles_lose_engine_decorations() {
    assert_eq!(clean_search_result_title("网页 Some title", "https://x.example/"), "Some title");
    assert_eq!(clean_search_result_title("example.com Real title", "https://www.example.com/a"), "Real title");
    assert_eq!(clean_search_result_title("Real title example.com › a", "https://example.com/a"), "Real title");
    assert_eq!(clean_search_result_title("Same Same", "https://x.example"), "");
}

#[test]
fn url_helpers_decode_and_filter() {
    assert_eq!(query_param("https://x/?a=1&url=https%3A%2F%2Fy.example%2Fp#f", "url"), Some("https://y.example/p".to_string()));
    assert_eq!(query_param("https://x/?a&b=2", "a"), Some(String::new()));
    assert_eq!(query_param("https://x/path", "a"), None);
    assert_eq!(query_param("https://x/?a=%FF", "a"), None);
    assert_eq!(
        decode_bing_u_param("a1aHR0cHM6Ly9leGFtcGxlLmNvbS9iaW5nLXJlc3VsdA"),
        Some("https://example.com/bing-result".to_string())
    );
    assert_eq!(decode_bing_u_param("aHR0cHM6Ly9hLmI="), Some("https://a.b".to_string()));
    assert_eq!(decode_bing_u_param("!!"), None);
    assert_eq!(
        decode_bing_u_param("aHR0cHM6Ly9hLmV4YW1wbGUvP3g9Pj4+"),
        Some("https://a.example/?x=>>>".to_string())
    );
    assert_eq!(
        decode_bing_u_param("aHR0cHM6Ly9hLmV4YW1wbGUvfn5+Pw=="),
        Some("https://a.example/~~~?".to_string())
    );
    assert_eq!(decode_bing_u_param("//79"), None);
    assert!(is_search_engine_internal_url("https://WWW.BING.COM/x"));
    assert!(is_search_engine_internal_url("https://other.example/maps/place"));
    assert!(!is_search_engine_internal_url("https://example.com/"));
    assert_eq!(
        normalize_browser_result_url("  https://r.example/?url=ftp%3A%2F%2Fz  "),
        Some("https://r.example/?url=ftp%3A%2F%2Fz".to_string())
    );
    assert_eq!(normalize_browser_result_url("javascript:void(0)"), None);
    assert_eq!(browser_bing_home_url("zh Hans/中"), "https://cn.bing.com/?setlang=zh%20Hans%2F%E4%B8%AD&cc=");
}

#[test]
fn tool_errors_and_diagnostics() {
    let failed = parse(r#"{"success": false, "failure_code": "E1"}"#);
    assert_eq!(host_tool_error(failed.as_ref()), Some("E1".to_string()));
    let failed = parse(r#"{"success": false, "error": 3}"#);
    assert_eq!(host_tool_error(failed.as_ref()), Some("browser tool returned success=false".to_string()));
    assert_eq!(host_tool_error(parse(r#"{"success": true}"#).as_ref()), None);
    assert_eq!(host_tool_error(None), None);
    assert_eq!(browser_observation_diagnostics(None), "unparseable browser output");
    let obs = parse(r#"{"page_state": {"url": "https://u", "title": "T", "text": " a  b "}}"#);
    assert_eq!(browser_observation_diagnostics(obs.as_ref()), "url=https://u; title=T; text=a b");
}

#[test]
fn search_requests_are_read_with_defaults() {
    let params = parse(r#"{"query": "  rust  ", "count": 50}"#).unwrap();
    let r = read_search_request(&params).ok().unwrap();
    assert_eq!(r.query, "rust");
    assert_eq!(r.count, 10);
    assert_eq!(r.language, "zh-Hans");
    assert_eq!(r.freshness, "");
    let r = read_search_request(&parse(r#"{"query": "x", "count": 0, "language": "en", "freshness": " week "}"#).unwrap()).ok().unwrap();
    assert_eq!((r.count, r.language.as_str(), r.freshness.as_str()), (1, "en", "week"));
    assert_eq!(read_search_request(&parse(r#"{"query": "x"}"#).unwrap()).ok().unwrap().count, 5);
    assert_eq!(read_search_request(&parse(r#"{"query": "  "}"#).unwrap()).err(), Some("web_search query is required".to_string()));
    assert_eq!(cache_key("q", 5, "en", "", "browser"), "browser\0q\05\0en\0");
}

#[test]
fn search_answers() {
    assert_eq!(
        answer_search("q", Err("boom".to_string())),
        Err("web_search browser path failed: boom".to_string())
    );
    assert_eq!(
        answer_search("q", Ok(Vec::new())),
        Err("web_search browser path returned no results; HTTP fallback is disabled".to_string())
    );
    let ok = answer_search(
        "q",
        Ok(vec![SearchResult { title: "t".to_string(), url: "https://u".to_string(), snippet: String::new() }]),
    )
    .unwrap();
    assert!(ok.contains("\"result_count\": 1"));
}

#[test]
fn cache_keeps_answers_fifteen_minutes_and_64_entries() {
    let mut cache = SearchCache::new();
    cache.cache_put("a".to_string(), "A".to_string(), 0);
    assert_eq!(cache.cache_get("a", 900_000), Some("A".to_string()));
    assert_eq!(cache.cache_get("a", 900_001), None);
    assert_eq!(cache.cache_get("a", 0), None);
    for i in 0..70u64 {
        cache.cache_put(format!("k{i}"), format!("v{i}"), 1_000);
    }
    assert_eq!(cache.cache_get("k0", 1_000), None);
    assert_eq!(cache.cache_get("k5", 1_000), None);
    assert_eq!(cache.cache_get("k6", 1_000), Some("v6".to_string()));
    assert_eq!(cache.cache_get("k69", 1_000), Some("v69".to_string()));
    cache.cache_put("k6".to_string(), "new".to_string(), 2_000);
    assert_eq!(cache.cache_get("k6", 2_000), Some("new".to_string()));
}

#[test]
fn browser_search_flow() {
    let (mut search, open) = BrowserSearch::start("rust", 5, "en", "");
    assert!(matches!(open.tool, BrowserTool::Open));
    assert_eq!(value(&open.params)["url"], "https://cn.bing.com/?setlang=en&cc=");
    let settle = match search.on_output(None) {
        SearchStep::Call(c) => c,
        _ => panic!("settle"),
    };
    assert!(matches!(settle.tool, BrowserTool::Wait));
    assert_eq!(value(&settle.params)["milliseconds"], 1500);
    let typed = match search.on_output(None) {
        SearchStep::Call(c) => c,
        _ => panic!("type"),
    };
    assert!(matches!(typed.tool, BrowserTool::Type));
    assert_eq!(value(&typed.params)["selector"], "#sb_form_q");
    let failed = parse(r#"{"success": false, "error": "no field"}"#);
    let next = match search.on_output(failed.as_ref()) {
        SearchStep::Call(c) => c,
        _ => panic!("next attempt"),
    };
    assert_eq!(value(&next.params)["selector"], "input#sb_form_q[name='q']");
    let empty = parse(r#"{"success": true}"#);
    let mut waits = Vec::new();
    let mut step = search.on_output(empty.as_ref());
    loop {
        match step {
            SearchStep::Call(c) => match c.tool {
                BrowserTool::Wait => {
                    waits.push(value(&c.params)["milliseconds"].as_u64().unwrap());
                    step = search.on_output(empty.as_ref());
                }
                BrowserTool::Snapshot => break,
                _ => panic!("unexpected call"),
            },
            SearchStep::Done(_) => panic!("not done yet"),
        }
    }
    assert_eq!(waits, vec![800, 1500, 2500, 3500]);
    let found = parse(r#"{"elements": [{"role": "link", "href": "https://a.example/", "text": "Answer"}]}"#);
    match search.on_output(found.as_ref()) {
        SearchStep::Done(Ok(rs)) => assert_eq!(rs[0].title, "Answer"),
        _ => panic!("results"),
    }
}

#[test]
fn browser_search_gives_up_after_all_attempts() {
    let (mut search, _) = BrowserSearch::start("rust", 5, "en", "");
    search.on_output(None);
    search.on_output(None);
    let failed = parse(r#"{"success": false, "error": "no field"}"#);
    let mut last = None;
    for _ in 0..6 {
        match search.on_output(failed.as_ref()) {
            SearchStep::Call(_) => {}
            SearchStep::Done(r) => {
                last = Some(r.err().unwrap());
                break;
            }
        }
    }
    assert_eq!(last, Some("no field".to_string()));
    assert!(matches!(search.on_call_failed("bridge down".to_string()), SearchStep::Done(Err(e)) if e == "bridge down"));
}

#[test]
fn freshness_becomes_bing_time_filter() {
    assert_eq!(
        browser_bing_search_page_url("en", "day"),
        "https://cn.bing.com/?setlang=en&cc=&filters=ex1%3a%22ez1%22"
    );
    assert_eq!(
        browser_bing_search_page_url("en", "week"),
        "https://cn.bing.com/?setlang=en&cc=&filters=ex1%3a%22ez2%22"
    );
    assert_eq!(
        browser_bing_search_page_url("zh-Hans", "month"),
        "https://cn.bing.com/?setlang=zh-Hans&cc=&filters=ex1%3a%22ez3%22"
    );
    assert_eq!(browser_bing_search_page_url("en", ""), "https://cn.bing.com/?setlang=en&cc=");
    assert_eq!(browser_bing_search_page_url("en", "year"), "https://cn.bing.com/?setlang=en&cc=");
    let (_, open) = BrowserSearch::start("rust", 5, "en", "week");
    assert_eq!(value(&open.params)["url"], "https://cn.bing.com/?setlang=en&cc=&filters=ex1%3a%22ez2%22");
}

#[test]
fn redirect_target_from_decoded_bytes() {
    assert_eq!(bing_target_from_bytes(Some(b"https://a.b".to_vec())), Some("https://a.b".to_string()));
    assert_eq!(bing_target_from_bytes(Some(vec![0xff, 0xfe])), None);
    assert_eq!(bing_target_from_bytes(None), None);
}

fn one_result() -> Vec<SearchResult> {
    vec![SearchResult { title: "Rust".to_string(), url: "https://rust-lang.org/".to_string(), snippet: String::new() }]
}

#[test]
fn web_search_run_refuses_missing_query_and_missing_browser() {
    let mut cache = SearchCache::new();
    let params = parse(r#"{"query": "   "}"#).unwrap();
    match start_web_search(&mut cache, &params, true, 0) {
        RunStart::Answered(Err(e)) => assert_eq!(e, "web_search query is required"),
        _ => panic!("refused"),
    }
    let params = parse(r#"{"query": "rust"}"#).unwrap();
    match start_web_search(&mut cache, &params, false, 0) {
        RunStart::Answered(Err(e)) => {
            assert_eq!(e, "web_search requires a browser host bridge; HTTP fallback is disabled")
        }
        _ => panic!("no bridge"),
    }
}

#[test]
fn web_search_run_reuses_answer_after_other_stores() {
    let mut cache = SearchCache::new();
    let params = parse(r#"{"query": " rust ", "count": 3, "freshness": "day"}"#).unwrap();
    let (key, query, open) = match start_web_search(&mut cache, &params, true, 1_000) {
        RunStart::Search { key, query, call, .. } => (key, query, call),
        _ => panic!("search"),
    };
    assert_eq!(query, "rust");
    assert_eq!(
        value(&open.params)["url"],
        "https://cn.bing.com/?setlang=zh-Hans&cc=&filters=ex1%3a%22ez1%22"
    );
    let body = finish_web_search(&mut cache, key, &query, Ok(one_result()), 2_000).unwrap();
    for i in 0..63u64 {
        cache.cache_put(format!("other{i}"), "x".to_string(), 3_000);
    }
    let again = parse(r#"{"query": "rust", "count": 3, "freshness": "day"}"#).unwrap();
    match start_web_search(&mut cache, &again, false, 2_000 + 900_000) {
        RunStart::Answered(Ok(b)) => assert_eq!(b, body),
        _ => panic!("cached answer"),
    }
    let other_freshness = parse(r#"{"query": "rust", "count": 3, "freshness": "week"}"#).unwrap();
    assert!(matches!(start_web_search(&mut cache, &other_freshness, true, 3_000), RunStart::Search { .. }));
}

#[test]
fn web_search_run_does_not_cache_failures() {
    let mut cache = SearchCache::new();
    let params = parse(r#"{"query": "rust"}"#).unwrap();
    let key = match start_web_search(&mut cache, &params, true, 0) {
        RunStart::Search { key, .. } => key,
        _ => panic!("search"),
    };
    let r = finish_web_search(&mut cache, key.clone(), "rust", Ok(Vec::new()), 0);
    assert_eq!(r, Err("web_search browser path returned no results; HTTP fallback is disabled".to_string()));
    assert_eq!(cache.cache_get(&key, 0), None);
    let r = finish_web_search(&mut cache, key.clone(), "rust", Err("down".to_string()), 0);
    assert_eq!(r, Err("web_search browser path failed: down".to_string()));
}
