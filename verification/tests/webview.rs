use omniget::webview::{
    begin_request, ensure_api_webview, handle_result, on_navigation, still_receiving, webview_get,
    PollAction, WebviewError, WebviewPlan, FIRST_INTERVAL_MS,
};
use url::Url;

fn navigate(store: &mut Option<String>, url: &str) -> bool {
    on_navigation(&Url::parse(url).unwrap(), store)
}

#[test]
fn other_hosts_are_followed() {
    let mut store = Some("kept".to_string());
    assert!(navigate(&mut store, "https://www.udemy.com/?single=x"));
    assert!(navigate(&mut store, "https://sub.omniget-api-result.local/?single=x"));
    assert!(navigate(&mut store, "data:text/plain,x"));
    assert_eq!(store.as_deref(), Some("kept"));
}

#[test]
fn single_results_are_stored() {
    let mut store = None;
    assert!(!navigate(&mut store, "https://omniget-api-result.local/?single=%7B%22a%22%3A1%7D+b"));
    assert_eq!(store.as_deref(), Some("{\"a\":1} b"));
    assert!(!still_receiving(&store));
    let mut interval = FIRST_INTERVAL_MS;
    match webview_get(&mut store, 0, &mut interval) {
        PollAction::Answer(text) => assert_eq!(text, "{\"a\":1} b"),
        _ => panic!("no answer"),
    }
    assert!(store.is_none());
}

#[test]
fn chunks_add_up() {
    let mut store = None;
    for (i, part) in ["ab", "", "cd"].iter().enumerate() {
        assert!(!navigate(
            &mut store,
            &format!("https://omniget-api-result.local/?chunk={i}&d={part}")
        ));
        assert!(still_receiving(&store));
    }
    assert_eq!(store.as_deref(), Some("__CHUNKS__abcd"));
    let mut interval = 100;
    assert!(matches!(webview_get(&mut store, u128::MAX, &mut interval), PollAction::Sleep(100)));
    assert_eq!(interval, 100);
    assert!(!navigate(&mut store, "https://omniget-api-result.local/?done=1"));
    assert_eq!(store.as_deref(), Some("abcd"));
    assert!(!still_receiving(&store));
}

#[test]
fn odd_results_change_nothing_more() {
    let mut store = Some("whole".to_string());
    assert!(!navigate(&mut store, "https://omniget-api-result.local/?chunk=0&d=x"));
    assert_eq!(store.as_deref(), Some("whole"));
    assert!(!navigate(&mut store, "https://omniget-api-result.local/?done=1"));
    assert_eq!(store.as_deref(), Some("whole"));
    assert!(!navigate(&mut store, "https://omniget-api-result.local/?chunk=0"));
    assert!(!navigate(&mut store, "https://omniget-api-result.local/?other=1"));
    assert!(!navigate(&mut store, "https://omniget-api-result.local/"));
    assert_eq!(store.as_deref(), Some("whole"));
    let mut store = None;
    assert!(!navigate(&mut store, "https://omniget-api-result.local/?done=1"));
    assert!(store.is_none());
    let mut store = Some(String::new());
    assert!(!navigate(&mut store, "https://omniget-api-result.local/?d=x&chunk=0&d=y"));
    assert_eq!(store.as_deref(), Some("__CHUNKS__x"));
    let pairs = vec![
        ("x".to_string(), "1".to_string()),
        ("single".to_string(), "first".to_string()),
        ("error".to_string(), "second".to_string()),
    ];
    handle_result(&pairs, &mut store);
    assert_eq!(store.as_deref(), Some("first"));
}

#[test]
fn errors_are_reported() {
    let mut store = None;
    assert!(!navigate(&mut store, "https://omniget-api-result.local/?error=Failed%20to%20fetch"));
    assert_eq!(store.as_deref(), Some("{\"__fetch_error\":\"Failed to fetch\"}"));
    let mut interval = 100;
    match webview_get(&mut store, 0, &mut interval) {
        PollAction::Fail(e) => assert_eq!(e.message(), "Fetch error: Failed to fetch"),
        _ => panic!("no error"),
    }
    let mut store = Some("{\"__fetch_error\":\"a\"}\"}".to_string());
    match webview_get(&mut store, 0, &mut interval) {
        PollAction::Fail(WebviewError::Fetch(m)) => assert_eq!(m, "a"),
        _ => panic!("no error"),
    }
}

#[test]
fn looks_get_rarer_until_time_is_over() {
    let mut store = None;
    let mut interval = FIRST_INTERVAL_MS;
    for expected in [100, 150, 225, 337, 500, 500] {
        match webview_get(&mut store, 0, &mut interval) {
            PollAction::Sleep(ms) => assert_eq!(ms, expected),
            _ => panic!("no sleep"),
        }
    }
    assert!(matches!(
        webview_get(&mut store, 180_000_000_000, &mut interval),
        PollAction::Sleep(500)
    ));
    match webview_get(&mut store, 180_000_000_001, &mut interval) {
        PollAction::Fail(e) => assert_eq!(
            e.message(),
            "Timeout waiting for API response (180s). The page may be blocked by Cloudflare or the server is slow."
        ),
        _ => panic!("no timeout"),
    }
}

#[test]
fn webview_is_reused_or_opened_at_the_portal() {
    assert!(matches!(ensure_api_webview(true, "www"), WebviewPlan::Reuse));
    assert_eq!(ensure_api_webview(true, "www").settle_ms(), 0);
    assert_eq!(ensure_api_webview(false, "www").settle_ms(), 15_000);
    match ensure_api_webview(false, "acme") {
        WebviewPlan::Create(url) => assert_eq!(url.as_str(), "https://acme.udemy.com/"),
        _ => panic!("not opened"),
    }
    assert!(matches!(ensure_api_webview(false, "a b<"), WebviewPlan::BadPortal));
}

#[test]
fn request_drops_what_an_earlier_one_left() {
    for left in [None, Some("old".to_string()), Some("__CHUNKS__old".to_string())] {
        let mut store = left;
        assert_eq!(
            begin_request(&mut store, "https://www.udemy.com/api-2.0/x"),
            "window.__omniget_fetch('https://www.udemy.com/api-2.0/x')"
        );
        assert!(store.is_none());
        assert!(!navigate(&mut store, "https://omniget-api-result.local/?single=new"));
        let mut interval = FIRST_INTERVAL_MS;
        assert!(matches!(
            webview_get(&mut store, 0, &mut interval),
            PollAction::Answer(text) if text == "new"
        ));
        assert!(store.is_none());
    }
}

#[test]
fn partial_results_are_never_taken() {
    let mut store = None;
    let mut interval = FIRST_INTERVAL_MS;
    // Nothing yet, then a chunk before each further look.
    assert!(matches!(webview_get(&mut store, 0, &mut interval), PollAction::Sleep(100)));
    for (i, part) in ["ab", "cd", "ef"].iter().enumerate() {
        navigate(&mut store, &format!("https://omniget-api-result.local/?chunk={i}&d={part}"));
        assert!(matches!(webview_get(&mut store, u128::MAX, &mut interval), PollAction::Sleep(150)));
        assert_eq!(interval, 150);
    }
    assert_eq!(store.as_deref(), Some("__CHUNKS__abcdef"));
    navigate(&mut store, "https://omniget-api-result.local/?done=1");
    assert!(matches!(
        webview_get(&mut store, 0, &mut interval),
        PollAction::Answer(text) if text == "abcdef"
    ));
}

#[test]
fn webview_errors_have_their_texts() {
    let create = WebviewError::Create("no display".to_string());
    assert_eq!(create.message(), "Failed to create API webview: no display");
    assert_eq!(WebviewError::Eval("closed".to_string()).message(), "eval failed: closed");
}
