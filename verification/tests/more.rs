use azure_mcp::json::Json;
use azure_mcp::tools::{account, advisor, costs, pricing, quota, skus, snapshots, support, vnets};

fn convert(value: &serde_json::Value) -> Json {
    match value {
        serde_json::Value::Null => Json::Null,
        serde_json::Value::Bool(b) => Json::Bool(*b),
        serde_json::Value::Number(n) => Json::Number { text: n.to_string(), integer: n.as_i64() },
        serde_json::Value::String(s) => Json::Str(s.clone()),
        serde_json::Value::Array(items) => Json::Array(items.iter().map(convert).collect()),
        serde_json::Value::Object(members) => {
            Json::Object(members.iter().map(|(key, item)| (key.clone(), convert(item))).collect())
        }
    }
}

fn json(text: &str) -> Json {
    convert(&serde_json::from_str::<serde_json::Value>(text).unwrap())
}

fn jsons(text: &str) -> Vec<Json> {
    match json(text) {
        Json::Array(items) => items,
        _ => panic!("not an array"),
    }
}

fn member<'a>(value: &'a Json, key: &str) -> Option<&'a Json> {
    match value {
        Json::Object(members) => members.iter().find(|(k, _)| k == key).map(|(_, v)| v),
        _ => None,
    }
}

fn string(value: Option<&Json>) -> Option<&str> {
    match value {
        Some(Json::Str(s)) => Some(s.as_str()),
        _ => None,
    }
}

fn first(value: Option<&Json>) -> Option<&Json> {
    match value {
        Some(Json::Array(items)) => items.first(),
        _ => None,
    }
}

#[test]
fn request_shape() {
    let body = costs::request("TheLastMonth", None, "ServiceName", false);

    assert_eq!(string(member(&body, "timeframe")), Some("TheLastMonth"));
    let dataset = member(&body, "dataset").unwrap();
    assert_eq!(string(member(dataset, "granularity")), Some("None"));
    assert_eq!(string(member(first(member(dataset, "grouping")).unwrap(), "name")), Some("ServiceName"));
    assert!(member(&body, "timePeriod").is_none());
}

#[test]
fn request_custom_daily() {
    let body = costs::request("MonthToDate", Some(("2026-09-01", "2026-09-20")), "MeterCategory", true);

    assert_eq!(string(member(&body, "timeframe")), Some("Custom"));
    assert_eq!(string(member(member(&body, "dataset").unwrap(), "granularity")), Some("Daily"));
    let period = member(&body, "timePeriod").unwrap();
    assert_eq!(string(member(period, "from")), Some("2026-09-01T00:00:00+00:00"));
    assert_eq!(string(member(period, "to")), Some("2026-09-20T23:59:59+00:00"));
}

#[test]
fn dates_checked() {
    assert!(costs::date_ok("2026-09-01"));
    assert!(!costs::date_ok("2026-9-1"));
    assert!(!costs::date_ok("01.09.2026"));
    assert!(!costs::date_ok("2026-09-0a"));
}

#[test]
fn short_resource() {
    assert_eq!(
        costs::short("/subscriptions/s/resourcegroups/trial/providers/microsoft.compute/disks/win-server_osdisk_1_abc"),
        "trial  disks  win-server_osdisk_1_abc"
    );
    assert_eq!(
        costs::short("/subscriptions/s/resourcegroups/dev/providers/microsoft.compute/virtualmachines/vm1/extensions/ext"),
        "dev  virtualmachines/extensions  ext"
    );
    assert_eq!(costs::short("/subscriptions/s/resourcegroups/dev"), "/subscriptions/s/resourcegroups/dev");
}

#[test]
fn label_shortens_only_resource_ids() {
    let id = "/subscriptions/s/resourcegroups/trial/providers/microsoft.compute/disks/d1";
    assert_eq!(costs::label(id, "ResourceId"), "trial  disks  d1");
    assert_eq!(costs::label(id, "ResourceGroupName"), id);
}

#[test]
fn stamp_forms() {
    assert_eq!(costs::stamp(&json("20260901")), "2026-09-01");
    assert_eq!(costs::stamp(&json("\"2026-09-01T00:00:00\"")), "2026-09-01");
}

#[test]
fn cached_note() {
    assert_eq!(costs::cached(None), "");
    assert!(costs::cached(Some(12)).contains("12 хв тому"));
}

#[test]
fn column_finds_first_named() {
    let body = json(r#"{ "properties": { "columns": [{ "name": "Cost" }, { "name": "ResourceId" }, { "name": "Cost" }] } }"#);
    assert_eq!(costs::column(&body, "Cost"), 0);
    assert_eq!(costs::column(&body, "ResourceId"), 1);
}

#[test]
fn ask_checks_arguments() {
    let empty = json("{}");
    let asked = costs::ask(&empty).ok().unwrap();
    assert_eq!(asked.period, "MonthToDate");
    assert_eq!(asked.split, "ResourceGroupName");
    assert!(!asked.daily);
    assert!(asked.span.is_none());
    let dated = json(r#"{ "from": "2026-09-01", "to": "2026-09-20", "daily": true }"#);
    let span = costs::ask(&dated).ok().unwrap();
    assert_eq!(span.span, Some(("2026-09-01", "2026-09-20")));
    assert!(span.daily);
    assert_eq!(
        costs::ask(&json(r#"{ "from": "2026-09-01" }"#)).err().unwrap(),
        "Вкажіть from і to разом, у форматі РРРР-ММ-ДД (напр. 2026-09-01)."
    );
    assert_eq!(
        costs::ask(&json(r#"{ "period": "Yesterday" }"#)).err().unwrap(),
        "Невідомий period: Yesterday. Допустимо: MonthToDate, BillingMonthToDate, TheLastMonth, TheLastBillingMonth, WeekToDate."
    );
    assert_eq!(
        costs::ask(&json(r#"{ "by": "Tag" }"#)).err().unwrap(),
        "Невідоме by: Tag. Допустимо: ResourceGroupName, ResourceId, ResourceType, MeterCategory, ServiceName."
    );
    assert_eq!(costs::path("/subscriptions/s"), "/subscriptions/s/providers/Microsoft.CostManagement/query?api-version=2023-11-01");
}

#[test]
fn table_shows_fields() {
    let body = json(
        r#"{
            "displayName": "Demo Subscription",
            "subscriptionId": "11111111-1111-1111-1111-111111111111",
            "state": "Enabled",
            "tenantId": "22222222-2222-2222-2222-222222222222",
            "subscriptionPolicies": { "quotaId": "PayAsYouGo_2014-09-01", "spendingLimit": "Off" }
        }"#,
    );

    assert_eq!(
        account::table(&body),
        "displayName=Demo Subscription\n\
         subscriptionId=11111111-1111-1111-1111-111111111111\n\
         state=Enabled\n\
         tenantId=22222222-2222-2222-2222-222222222222\n\
         quotaId=PayAsYouGo_2014-09-01\n\
         spendingLimit=Off"
    );
}

fn recommendations() -> Vec<Json> {
    jsons(
        r#"[
            {
                "id": "/subscriptions/s/resourcegroups/demo-rg/providers/microsoft.compute/virtualmachines/web-vm/providers/Microsoft.Advisor/recommendations/h1",
                "name": "h1",
                "properties": {
                    "category": "Cost",
                    "impact": "High",
                    "shortDescription": { "problem": "Right-size or shutdown underutilized virtual machines" },
                    "resourceMetadata": { "resourceId": "/subscriptions/s/resourcegroups/demo-rg/providers/microsoft.compute/virtualmachines/web-vm" },
                    "extendedProperties": { "annualSavingsAmount": "324", "savingsCurrency": "USD" }
                }
            },
            {
                "id": "/subscriptions/s/providers/Microsoft.Advisor/recommendations/h2",
                "name": "h2",
                "properties": {
                    "category": "Cost",
                    "impact": "High",
                    "shortDescription": { "problem": "Consider virtual machine reserved instance" },
                    "resourceMetadata": { "resourceId": "/subscriptions/s" },
                    "extendedProperties": { "annualSavingsAmount": "204", "savingsCurrency": "USD" }
                }
            },
            {
                "id": "/subscriptions/s/resourcegroups/demo-rg/providers/microsoft.compute/virtualmachines/web-vm/providers/Microsoft.Advisor/recommendations/h3",
                "name": "h3",
                "properties": {
                    "category": "HighAvailability",
                    "impact": "Medium",
                    "shortDescription": { "problem": "Enable backup" },
                    "resourceMetadata": { "resourceId": "/subscriptions/s/resourcegroups/demo-rg/providers/microsoft.compute/virtualmachines/web-vm" },
                    "extendedProperties": {}
                }
            }
        ]"#,
    )
}

#[test]
fn table_shows_resource_and_economy() {
    let text = advisor::table(&recommendations(), None, None);

    assert!(text.contains("demo-rg  High  Cost  web-vm  324 USD/рік  Right-size"));
    assert!(text.contains("-  High  Cost  підписка  204 USD/рік  Consider"));
    assert!(text.contains("demo-rg  Medium  HighAvailability  web-vm  -  Enable backup"));
}

#[test]
fn table_filters_by_category_and_group() {
    let text = advisor::table(&recommendations(), Some("cost"), None);
    assert!(text.contains("Right-size"));
    assert!(text.contains("Consider"));
    assert!(!text.contains("Enable backup"));

    assert_eq!(advisor::table(&recommendations(), None, Some("other")), "Рекомендацій не знайдено.");
}

#[test]
fn advisor_names_subscription_level_resources() {
    assert_eq!(advisor::resource("/subscriptions/s"), "підписка");
    assert_eq!(advisor::resource("/subscriptions/s/resourceGroups/g/providers/p/t/vm"), "vm");
    assert!(advisor::table(&recommendations(), None, Some("DEMO-RG")).contains("Enable backup"));
}

fn price_items() -> Vec<Json> {
    jsons(
        r#"[
            { "currencyCode": "USD", "retailPrice": 0.05, "meterName": "LRS Snapshots" },
            { "currencyCode": "USD", "retailPrice": 0.05, "meterName": "ZRS Snapshots" },
            { "currencyCode": "USD", "retailPrice": 1.536, "meterName": "S4 LRS Disk" },
            { "currencyCode": "USD", "retailPrice": 0.0005, "meterName": "S4 LRS Disk Operations" },
            { "currencyCode": "USD", "retailPrice": 3.008, "meterName": "S6 LRS Disk" }
        ]"#,
    )
}

fn formatted(prices: &[f64]) -> Vec<String> {
    prices.iter().map(|price| format!("{:>8.3}", price)).collect()
}

#[test]
fn table_separates_snapshots_and_tiers() {
    let text = pricing::table(&price_items(), &formatted(&[0.05, 0.05, 1.536, 0.0005, 3.008]));

    assert!(text.contains("0.050  LRS"));
    assert!(text.contains("0.050  ZRS"));
    assert!(text.contains("1.536  S4  32 ГБ"));
    assert!(text.contains("3.008  S6  64 ГБ"));
    assert!(!text.contains("Operations"));
}

#[test]
fn pricing_table_empty_is_a_hint() {
    assert_eq!(pricing::table(&vec![], &vec![]), "Цін не знайдено (перевірте код регіону).");
}

#[test]
fn pricing_table_layout() {
    let text = pricing::table(&price_items(), &formatted(&[0.05, 0.05, 1.536, 0.0005, 3.008]));

    assert!(text.starts_with(
        "Снепшоти (за фактично використаний ГБ, USD на місяць):\n   0.050  LRS\n   0.050  ZRS\n\n\
         Рівні дисків (за виділений розмір, округлення вгору, USD на місяць):\n   1.536  S4  32 ГБ\n   3.008  S6  64 ГБ\n\nОбраз"
    ));
    assert_eq!(pricing::trim_end("A Snapshots Snapshots", " Snapshots"), "A");
}

fn compute_usages() -> Vec<Json> {
    jsons(
        r#"[
            { "name": { "value": "standardBSFamily", "localizedValue": "Standard BS Family vCPUs" }, "currentValue": 10, "limit": 10, "unit": "Count" },
            { "name": { "value": "standardDLSv5Family", "localizedValue": "Standard DLSv5 Family vCPUs" }, "currentValue": 4, "limit": 20, "unit": "Count" }
        ]"#,
    )
}

fn network_usages() -> Vec<Json> {
    jsons(
        r#"[{ "name": { "value": "PublicIPAddresses", "localizedValue": "Public IP Addresses" }, "currentValue": 11, "limit": 20, "unit": "Count" }]"#,
    )
}

#[test]
fn table_marks_exhausted_and_sorts() {
    assert_eq!(
        quota::table(&compute_usages(), &network_usages(), None),
        "compute  Standard BS Family vCPUs  10/10 Count  (вичерпано)\n\
         compute  Standard DLSv5 Family vCPUs  4/20 Count\n\
         network  Public IP Addresses  11/20 Count"
    );
}

#[test]
fn table_filters_by_kind() {
    assert_eq!(
        quota::table(&compute_usages(), &network_usages(), Some("network")),
        "network  Public IP Addresses  11/20 Count"
    );
    assert_eq!(quota::table(&vec![], &vec![], None), "Квот не знайдено.".to_string());
}

#[test]
fn quota_zero_limit_is_not_exhausted() {
    let usage = json(r#"{ "name": { "localizedValue": "Zero" }, "currentValue": 0, "limit": 0, "unit": "Count" }"#);
    assert_eq!(quota::line("compute", &usage), "compute  Zero  0/0 Count");
    assert!(quota::wants(None, "network"));
    assert!(quota::wants(Some("COMPUTE"), "compute"));
    assert!(!quota::wants(Some("network"), "compute"));
    assert_eq!(
        quota::usages("/subscriptions/s", "Microsoft.Compute", "eastus", "2024-11-01"),
        "/subscriptions/s/providers/Microsoft.Compute/locations/eastus/usages?api-version=2024-11-01"
    );
}

fn sku_items() -> Vec<Json> {
    jsons(
        r#"[
            {
                "name": "Standard_D4als_v6",
                "family": "standardDalv6Family",
                "resourceType": "virtualMachines",
                "capabilities": [{ "name": "vCPUs", "value": "4" }, { "name": "MemoryGB", "value": "8" }]
            },
            {
                "name": "Standard_LRS",
                "resourceType": "disks",
                "capabilities": []
            }
        ]"#,
    )
}

#[test]
fn table_keeps_only_virtual_machines() {
    assert_eq!(skus::table(&sku_items(), None), "Standard_D4als_v6  family=standardDalv6Family  vcpu=4  ram=8 ГБ");
}

#[test]
fn table_filters_by_size() {
    assert!(skus::table(&sku_items(), Some("standard_d4als_v6")).starts_with("Standard_D4als_v6"));
    assert_eq!(skus::table(&sku_items(), Some("other")), "Типів VM не знайдено.".to_string());
}

#[test]
fn skus_sorted_by_lowercased_name() {
    let items = jsons(
        r#"[
            { "name": "b", "resourceType": "virtualMachines" },
            { "name": "A", "resourceType": "virtualMachines" }
        ]"#,
    );
    assert_eq!(skus::table(&items, None), "A  family=-  vcpu=-  ram=- ГБ\nb  family=-  vcpu=-  ram=- ГБ");
}

fn snapshot_items() -> Vec<Json> {
    jsons(
        r#"[{
            "name": "web-vm-snapshot",
            "id": "/subscriptions/s/resourceGroups/TRIAL/providers/Microsoft.Compute/snapshots/web-vm-snapshot",
            "sku": { "name": "Standard_LRS" },
            "properties": {
                "diskSizeGB": 128,
                "hyperVGeneration": "V2",
                "securityProfile": { "securityType": "TrustedLaunch" },
                "osType": "Windows",
                "incremental": false,
                "creationData": { "sourceResourceId": "/subscriptions/s/resourceGroups/trial/providers/Microsoft.Compute/disks/web-vm_OsDisk_1_abc" }
            }
        }]"#,
    )
}

#[test]
fn table_shows_source_and_security() {
    assert_eq!(
        snapshots::table(&snapshot_items(), None),
        "web-vm-snapshot  trial  Standard_LRS  128 ГБ  V2  TrustedLaunch  Windows  source=web-vm_OsDisk_1_abc  incremental=false"
    );
}

#[test]
fn snapshots_table_filters_by_name() {
    assert!(snapshots::table(&snapshot_items(), Some("WEB-VM-SNAPSHOT")).starts_with("web-vm-snapshot"));
    assert_eq!(snapshots::table(&snapshot_items(), Some("other")), "Снепшотів не знайдено.".to_string());
}

fn tickets() -> Vec<Json> {
    jsons(
        r#"[
            {
                "properties": {
                    "supportTicketId": "0000000000001",
                    "status": "Open",
                    "severity": "Minimal",
                    "createdDate": "2026-09-20T10:00:00Z",
                    "serviceDisplayName": "Service and subscription limits (quotas)",
                    "problemClassificationDisplayName": "Compute-VM (cores-vCPUs) subscription limit increases",
                    "title": "Quota request for Compute-VM",
                    "contactDetails": { "firstName": "Тест", "lastName": "Тестовий", "primaryEmailAddress": "test@example.com" }
                }
            },
            {
                "properties": {
                    "supportTicketId": "0000000000002",
                    "status": "Closed",
                    "severity": "Moderate",
                    "createdDate": "2026-09-25T10:00:00Z",
                    "serviceDisplayName": "Virtual machine running Windows",
                    "problemClassificationDisplayName": "Performance",
                    "title": "VM slow"
                }
            }
        ]"#,
    )
}

#[test]
fn table_sorts_newest_first_and_hides_contact() {
    let text = support::table(&tickets());

    assert!(text.starts_with("0000000000002"));
    assert!(!text.contains("Тест"));
    assert!(!text.contains("example.com"));
}

#[test]
fn support_table_empty_is_a_hint() {
    assert_eq!(support::table(&vec![]), "Запитів підтримки не знайдено.".to_string());
}

#[test]
fn support_line_layout() {
    assert_eq!(
        support::table(&tickets()),
        "0000000000002  Closed  Moderate  2026-09-25T10:00:00Z  Virtual machine running Windows: Performance  VM slow\n\
         0000000000001  Open  Minimal  2026-09-20T10:00:00Z  Service and subscription limits (quotas): Compute-VM (cores-vCPUs) subscription limit increases  Quota request for Compute-VM"
    );
}

fn vnet_items() -> Vec<Json> {
    jsons(
        r#"[{
            "name": "demo-vnet",
            "id": "/subscriptions/s/resourceGroups/DEMO-RG/providers/Microsoft.Network/virtualNetworks/demo-vnet",
            "properties": {
                "addressSpace": { "addressPrefixes": ["10.0.0.0/16"] },
                "subnets": [
                    {
                        "name": "default",
                        "properties": { "addressPrefix": "10.0.0.0/24" }
                    },
                    {
                        "name": "snet-1",
                        "properties": {
                            "addressPrefixes": ["10.0.1.0/24"],
                            "networkSecurityGroup": { "id": "/subscriptions/s/resourceGroups/demo-rg/providers/Microsoft.Network/networkSecurityGroups/demo-nsg" }
                        }
                    }
                ]
            }
        }]"#,
    )
}

#[test]
fn table_shows_subnets_and_nsg() {
    assert_eq!(
        vnets::table(&vnet_items(), None),
        "demo-vnet  demo-rg  10.0.0.0/16  subnet=default  prefix=10.0.0.0/24  nsg=-\n\
         demo-vnet  demo-rg  10.0.0.0/16  subnet=snet-1  prefix=10.0.1.0/24  nsg=demo-nsg"
    );
}

#[test]
fn vnets_table_filters_by_name() {
    assert!(vnets::table(&vnet_items(), Some("DEMO-VNET")).starts_with("demo-vnet"));
    assert_eq!(vnets::table(&vnet_items(), Some("other")), "Мереж не знайдено.".to_string());
}

#[test]
fn vnet_without_subnets_has_one_line() {
    let items = jsons(r#"[{ "name": "bare", "id": "/subscriptions/s/resourceGroups/g/providers/p/bare", "properties": {} }]"#);
    assert_eq!(vnets::table(&items, None), "bare  g  -  subnet=-  prefix=-  nsg=-");
}

#[test]
fn last_day_is_the_latest() {
    let days = vec!["2026-09-02".to_string(), "2026-09-10".to_string(), "2026-09-09".to_string()];
    assert_eq!(costs::last_day(&days), Some("2026-09-10".to_string()));
    assert_eq!(costs::last_day(&vec![]), None);
}

#[test]
fn more_pages_when_next_link_is_set() {
    assert!(costs::more_pages(&json(r#"{ "properties": { "nextLink": "https://next" } }"#)));
    assert!(!costs::more_pages(&json(r#"{ "properties": { "nextLink": null } }"#)));
    assert!(!costs::more_pages(&json(r#"{ "properties": {} }"#)));
    assert!(!costs::more_pages(&json("{}")));
}

#[test]
fn quota_region_is_required() {
    let asked = json(r#"{ "region": "eastus" }"#);
    assert_eq!(quota::region(&asked), Ok("eastus"));
    assert_eq!(quota::region(&json("{}")), Err("Аргумент region обов'язковий, напр. eastus.".to_string()));
    assert!(quota::region(&json(r#"{ "region": 1 }"#)).is_err());
}
