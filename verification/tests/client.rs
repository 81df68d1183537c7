use azure_mcp::client::{
    answer, cache_key, cache_name, configured, digest, exhausted, failure, fresh, grant, hint, limits, page, parse_number,
    pause, save, saved, told, url,
};
use azure_mcp::json::Json;

fn convert(value: &serde_json::Value) -> Json {
    match value {
        serde_json::Value::Null => Json::Null,
        serde_json::Value::Bool(b) => Json::Bool(*b),
        serde_json::Value::Number(n) => Json::Number { text: n.to_string(), integer: n.as_i64() },
        serde_json::Value::String(s) => Json::Str(s.clone()),
        serde_json::Value::Array(items) => Json::Array(items.iter().map(convert).collect()),
        serde_json::Value::Object(members) => {
            Json::Object(members.iter().map(|(key, item)| (key.clone(), convert(item))).collect())
        }
    }
}

fn json(text: &str) -> Json {
    convert(&serde_json::from_str::<serde_json::Value>(text).unwrap())
}

fn jsons(text: &str) -> Vec<Json> {
    match json(text) {
        Json::Array(items) => items,
        _ => panic!("not an array"),
    }
}

#[test]
fn failure_adds_hint() {
    let missing = failure(404, "https://x", "нема");
    assert!(missing.starts_with("Azure відповів 404 Not Found для https://x: нема\n"));
    assert!(missing.contains("az group list"));

    assert!(failure(401, "u", "b").contains("az login"));
    assert!(failure(403, "u", "b").contains("Reader"));
    assert_eq!(failure(400, "u", "b"), "Azure відповів 400 Bad Request для u: b");
}

#[test]
fn digest_is_stable() {
    assert_eq!(digest(""), 0xcbf29ce484222325);
    assert_eq!(digest("a"), 0xaf63dc4c8601ec8c);
    assert_ne!(digest("a"), digest("b"));
}

#[test]
fn digest_of_joined_text_continues_the_fold() {
    let folded = "ї!".bytes().fold(digest("ab"), |hash, byte| (hash ^ byte as u64).wrapping_mul(0x100000001b3));
    assert_eq!(digest("abї!"), folded);
}

#[test]
fn status_text_comes_from_the_status_code() {
    assert_eq!(failure(429, "u", "b"), "Azure відповів 429 Too Many Requests для u: b");
    assert_eq!(failure(599, "u", "b"), "Azure відповів 599 <unknown status code> для u: b");
}

#[test]
fn hint_only_for_auth_and_missing() {
    assert!(hint(401).contains("az login"));
    assert!(hint(403).contains("Cost Management Reader"));
    assert!(hint(404).contains("404"));
    assert_eq!(hint(500), "");
    assert_eq!(hint(200), "");
}

#[test]
fn answer_passes_success_through() {
    assert_eq!(answer(200, "u", "{}".to_string()), Ok("{}".to_string()));
    assert_eq!(answer(204, "u", String::new()), Ok(String::new()));
    assert_eq!(answer(500, "u", "boom".to_string()), Err("Azure відповів 500 Internal Server Error для u: boom".to_string()));
}

#[test]
fn url_prefixes_arm() {
    assert_eq!(url("/subscriptions/s"), "https://management.azure.com/subscriptions/s");
}

#[test]
fn configured_subscription_must_not_be_empty() {
    assert_eq!(configured(Some("abc")), Some("abc"));
    assert_eq!(configured(Some("")), None);
    assert_eq!(configured(None), None);
}

#[test]
fn token_kept_until_a_minute_before_expiry() {
    let token = save("secret", 1_000, 400, 7);
    assert_eq!(token.value, "secret");
    assert_eq!(token.until, 7 + 540 * 1_000_000_000);
    let kept = Some(token);
    assert_eq!(saved(&kept, 7), Some("secret".to_string()));
    assert_eq!(saved(&kept, 7 + 540 * 1_000_000_000 - 1), Some("secret".to_string()));
    assert_eq!(saved(&kept, 7 + 540 * 1_000_000_000), None);
    assert_eq!(saved(&None, 0), None);
}

#[test]
fn token_near_expiry_is_not_kept() {
    let token = save("t", 1_030, 1_000, 5);
    assert_eq!(token.until, 5);
    assert_eq!(saved(&Some(token), 5), None);
    assert_eq!(save("t", 10, 1_000, 0).until, 0);
}

#[test]
fn token_far_in_the_future_runs_to_the_clock_end() {
    assert_eq!(save("t", u64::MAX, 0, 5).until, u64::MAX);
    assert_eq!(save("t", 20_000_000_000, 0, u64::MAX - 1).until, u64::MAX);
    assert_eq!(saved(&Some(save("t", u64::MAX, 0, 5)), u64::MAX - 1), Some("t".to_string()));
}

#[test]
fn cache_names_are_digests() {
    assert_eq!(cache_name(""), "cbf29ce484222325.json");
    assert_eq!(cache_name("a"), "af63dc4c8601ec8c.json");
    assert_eq!(cache_key("https://x/q", "{\"a\":1}"), "https://x/q\n{\"a\":1}");
}

#[test]
fn cache_fresh_for_an_hour() {
    assert_eq!(fresh(0, 0), Some(0));
    assert_eq!(fresh(719, 5), Some(11));
    assert_eq!(fresh(3600, 0), Some(60));
    assert_eq!(fresh(3600, 1), None);
    assert_eq!(fresh(7200, 0), None);
}

#[test]
fn retries_pause_then_give_up() {
    assert_eq!(pause(0, None), Some(5));
    assert_eq!(pause(1, None), Some(15));
    assert_eq!(pause(2, None), Some(30));
    assert_eq!(pause(3, None), None);
    assert_eq!(pause(0, Some(42)), Some(42));
    assert_eq!(pause(1, Some(60)), Some(60));
    assert_eq!(pause(1, Some(61)), None);
}

#[test]
fn told_takes_largest_retry_after() {
    let headers = vec![
        ("x-ms-ratelimit-microsoft.costmanagement-qpu-retry-after".to_string(), Some("12".to_string())),
        ("retry-after".to_string(), Some("30".to_string())),
        ("x-other-retry-after".to_string(), Some("soon".to_string())),
        ("content-type".to_string(), Some("45".to_string())),
        ("x-ms-ratelimit-remaining".to_string(), None),
    ];
    assert_eq!(told(&headers), Some(30));
    assert_eq!(told(&vec![("content-type".to_string(), Some("1".to_string()))]), None);
    assert_eq!(parse_number("+7"), Some(7));
    assert_eq!(parse_number("18446744073709551616"), None);
}

#[test]
fn limits_lists_rate_headers() {
    let headers = vec![
        ("x-ms-ratelimit-remaining-qpu".to_string(), Some("0".to_string())),
        ("content-type".to_string(), Some("application/json".to_string())),
        ("retry-after".to_string(), Some("30".to_string())),
    ];
    assert_eq!(limits(&headers), "x-ms-ratelimit-remaining-qpu: 0; retry-after: 30");
    assert_eq!(limits(&vec![]), "");
}

#[test]
fn exhausted_names_url_and_headers() {
    assert_eq!(
        exhausted("https://x", "retry-after: 90"),
        "Ліміт Azure вичерпано (429) для https://x: повторіть пізніше. Заголовки ліміту: retry-after: 90."
    );
}

#[test]
fn page_gives_items_and_next_link() {
    let (items, next) = page(json(r#"{ "value": [1, "two"], "nextLink": "https://next" }"#));
    assert_eq!(items.len(), 2);
    assert!(matches!(&items[1], Json::Str(s) if s == "two"));
    assert_eq!(next, Some("https://next".to_string()));
    let (items, next) = page(json(r#"{ "value": [] }"#));
    assert!(items.is_empty());
    assert_eq!(next, None);
}

#[test]
fn grant_reads_token_and_expiry() {
    let answer = json(r#"{ "token": "eyJ0", "until": 1767225600 }"#);
    assert_eq!(grant(&answer), Some(("eyJ0", 1767225600)));
    assert_eq!(grant(&json(r#"{ "token": "eyJ0", "until": "1767225600" }"#)), None);
    assert_eq!(grant(&json(r#"{ "until": 1 }"#)), None);
    assert_eq!(grant(&json(r#"{ "token": "t", "until": -1 }"#)), None);
}
