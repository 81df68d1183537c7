use azure_mcp::json::Json;
use azure_mcp::tools::catalog::{about, list, name, tool, unknown, Tool};
use azure_mcp::tools::{last, member_text, part, refresh, reply, same, scope, shown, sorted, subscription, text};

fn convert(value: &serde_json::Value) -> Json {
    match value {
        serde_json::Value::Null => Json::Null,
        serde_json::Value::Bool(b) => Json::Bool(*b),
        serde_json::Value::Number(n) => Json::Number { text: n.to_string(), integer: n.as_i64() },
        serde_json::Value::String(s) => Json::Str(s.clone()),
        serde_json::Value::Array(items) => Json::Array(items.iter().map(convert).collect()),
        serde_json::Value::Object(members) => {
            Json::Object(members.iter().map(|(key, item)| (key.clone(), convert(item))).collect())
        }
    }
}

fn json(text: &str) -> Json {
    convert(&serde_json::from_str::<serde_json::Value>(text).unwrap())
}

fn jsons(text: &str) -> Vec<Json> {
    match json(text) {
        Json::Array(items) => items,
        _ => panic!("not an array"),
    }
}

fn member<'a>(value: &'a Json, key: &str) -> Option<&'a Json> {
    match value {
        Json::Object(members) => members.iter().find(|(k, _)| k == key).map(|(_, v)| v),
        _ => None,
    }
}

fn string(value: Option<&Json>) -> Option<&str> {
    match value {
        Some(Json::Str(s)) => Some(s.as_str()),
        _ => None,
    }
}

#[test]
fn reply_marks_errors() {
    assert!(matches!(member(&reply(Ok("є".to_string())), "isError"), Some(Json::Bool(false))));
    let failed = reply(Err("немає".to_string()));
    assert!(matches!(member(&failed, "isError"), Some(Json::Bool(true))));
    match member(&failed, "content") {
        Some(Json::Array(items)) => assert_eq!(string(member(&items[0], "text")), Some("немає")),
        _ => panic!("no content"),
    }
}

#[test]
fn reply_is_text_content() {
    let ok = reply(Ok("рядок".to_string()));
    match member(&ok, "content") {
        Some(Json::Array(items)) => {
            assert_eq!(items.len(), 1);
            assert_eq!(string(member(&items[0], "type")), Some("text"));
            assert_eq!(string(member(&items[0], "text")), Some("рядок"));
        }
        _ => panic!("no content"),
    }
}

#[test]
fn part_ignores_case() {
    let id = "/subscriptions/s/resourcegroups/demo-rg/providers/Microsoft.Network/networkInterfaces/nic1/ipConfigurations/ipconfig1";

    assert_eq!(part(id, "resourceGroups"), "demo-rg");
    assert_eq!(part(id, "networkInterfaces"), "nic1");
    assert_eq!(part(id, "subnets"), "-");
    assert_eq!(last(id), "ipconfig1");
}

#[test]
fn part_of_last_segment_is_dash() {
    assert_eq!(part("/subscriptions/s/resourceGroups", "resourceGroups"), "-");
    assert_eq!(part("", "resourceGroups"), "-");
    assert_eq!(last(""), "");
    assert_eq!(last("/a/b/"), "");
}

#[test]
fn same_ignores_ascii_case_only() {
    assert!(same("Demo-RG", "demo-rg"));
    assert!(same("demo-rg", "Demo-RG"));
    assert!(!same("demo", "demo-rg"));
    assert!(!same("Ї", "ї"));
}

#[test]
fn sorted_by_group_then_name() {
    let items = jsons(
        r#"[
            { "name": "b", "id": "/subscriptions/s/resourceGroups/TRIAL/providers/p/b" },
            { "name": "Z", "id": "/subscriptions/s/resourceGroups/dev/providers/p/Z" },
            { "name": "a", "id": "/subscriptions/s/resourcegroups/dev/providers/p/a" }
        ]"#,
    );
    let names: Vec<&str> = sorted(&items).iter().map(|item| text(item, "/name")).collect();

    assert_eq!(names, vec!["a", "Z", "b"]);
}

#[test]
fn sorted_keeps_order_of_equal_keys() {
    let items = jsons(
        r#"[
            { "name": "x", "id": "/subscriptions/s/resourceGroups/g/providers/p/x", "n": 1 },
            { "name": "X", "id": "/subscriptions/s/resourceGroups/G/providers/p/X", "n": 2 },
            { "name": "x", "id": "/subscriptions/s/resourceGroups/g/providers/p/x", "n": 3 }
        ]"#,
    );
    let order: Vec<String> = sorted(&items).iter().map(|item| shown(item, "/n")).collect();

    assert_eq!(order, vec!["1", "2", "3"]);
}

#[test]
fn text_missing_is_dash() {
    let value = json(r#"{ "properties": { "ipAddress": "10.0.0.9" } }"#);

    assert_eq!(text(&value, "/properties/ipAddress"), "10.0.0.9");
    assert_eq!(text(&value, "/properties/ipConfiguration/id"), "-");
}

#[test]
fn shown_renders_values() {
    let value = json(r#"{ "a": { "b": [1, true, null, "x\"y"] }, "s": "text", "n": 128 }"#);

    assert_eq!(shown(&value, "/s"), "text");
    assert_eq!(shown(&value, "/n"), "128");
    assert_eq!(shown(&value, "/a/b/1"), "true");
    assert_eq!(shown(&value, "/a"), "{\"b\":[1,true,null,\"x\\\"y\"]}");
    assert_eq!(shown(&value, "/missing"), "-");
}

#[test]
fn refresh_defaults_to_false() {
    assert!(!refresh(&json("{}")));
    assert!(refresh(&json(r#"{ "refresh": true }"#)));
    assert!(!refresh(&json(r#"{ "refresh": "yes" }"#)));
}

#[test]
fn scope_adds_group() {
    let base = subscription("123");
    assert_eq!(base, "/subscriptions/123");
    assert_eq!(scope(&base, &json("{}")), "/subscriptions/123");
    assert_eq!(scope(&base, &json(r#"{ "group": "demo-rg" }"#)), "/subscriptions/123/resourceGroups/demo-rg");
    assert_eq!(member_text(&json(r#"{ "group": 5 }"#), "group"), None);
}

#[test]
fn list_names_every_tool_with_scope_arguments() {
    let listing = list();
    let tools = match &listing {
        Json::Array(items) => items,
        _ => panic!("not an array"),
    };
    let names: Vec<&str> = tools.iter().map(|t| string(member(t, "name")).unwrap()).collect();
    assert_eq!(names, vec!["costs", "pubips", "nics", "nsgrules", "firewall", "dnszones", "vms", "disks"]);
    for t in tools {
        let schema = member(t, "inputSchema").unwrap();
        assert_eq!(string(member(schema, "type")), Some("object"));
        assert!(matches!(member(schema, "additionalProperties"), Some(Json::Bool(false))));
        let properties = member(schema, "properties").unwrap();
        assert!(member(properties, "group").is_some());
        assert!(member(properties, "sbscrptn").is_some());
    }
    let costs = member(member(member(&tools[0], "inputSchema").unwrap(), "properties").unwrap(), "period").unwrap();
    match member(costs, "enum") {
        Some(Json::Array(values)) => assert_eq!(values.len(), 5),
        _ => panic!("no enum"),
    }
}

#[test]
fn tool_finds_listed_names() {
    assert!(matches!(tool("costs"), Some(Tool::Costs)));
    assert!(matches!(tool("disks"), Some(Tool::Disks)));
    assert!(tool("Costs").is_none());
    assert!(tool("storage").is_none());
    assert_eq!(name(Tool::Nsgrules), "nsgrules");
    assert!(about(Tool::Vms).starts_with("Віртуальні машини Azure"));
    assert_eq!(unknown("storage"), "Невідомий інструмент: storage");
}
