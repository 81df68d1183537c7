use azure_mcp::json::Json;
use azure_mcp::tools::{blocks_of, disks, dnszones, firewall, flag, nics, nsgrules, pubips, vms};

fn convert(value: &serde_json::Value) -> Json {
    match value {
        serde_json::Value::Null => Json::Null,
        serde_json::Value::Bool(b) => Json::Bool(*b),
        serde_json::Value::Number(n) => Json::Number { text: n.to_string(), integer: n.as_i64() },
        serde_json::Value::String(s) => Json::Str(s.clone()),
        serde_json::Value::Array(items) => Json::Array(items.iter().map(convert).collect()),
        serde_json::Value::Object(members) => {
            Json::Object(members.iter().map(|(key, item)| (key.clone(), convert(item))).collect())
        }
    }
}

fn json(text: &str) -> Json {
    convert(&serde_json::from_str::<serde_json::Value>(text).unwrap())
}

fn jsons(text: &str) -> Vec<Json> {
    match json(text) {
        Json::Array(items) => items,
        _ => panic!("not an array"),
    }
}

fn disk_items() -> Vec<Json> {
    jsons(
        r#"[
            {
                "name": "win-server_osdisk_1",
                "id": "/subscriptions/s/resourceGroups/TRIAL/providers/Microsoft.Compute/disks/win-server_osdisk_1",
                "sku": { "name": "Premium_LRS" },
                "managedBy": "/subscriptions/s/resourceGroups/TRIAL/providers/Microsoft.Compute/virtualMachines/win-server",
                "properties": { "diskSizeGB": 127, "diskState": "Attached", "hyperVGeneration": "V2", "securityProfile": { "securityType": "TrustedLaunch" } }
            },
            {
                "name": "old-data",
                "id": "/subscriptions/s/resourceGroups/demo-rg/providers/Microsoft.Compute/disks/old-data",
                "sku": { "name": "Standard_LRS" },
                "properties": { "diskSizeGB": 32, "diskState": "Unattached" }
            }
        ]"#,
    )
}

#[test]
fn table_marks_unattached() {
    assert_eq!(
        disks::table(&disk_items(), None),
        "old-data  demo-rg  Standard_LRS  32 ГБ  -  -  Unattached  vm=-  (не прив'язаний)\n\
         win-server_osdisk_1  trial  Premium_LRS  127 ГБ  V2  TrustedLaunch  Attached  vm=win-server"
    );
}

#[test]
fn disks_table_filters_by_name() {
    assert!(disks::table(&disk_items(), Some("OLD-DATA")).starts_with("old-data"));
    assert_eq!(disks::table(&disk_items(), Some("other")), "Дисків не знайдено.");
}

fn nic_items() -> Vec<Json> {
    jsons(
        r#"[{
            "name": "web-vm548_z1",
            "id": "/subscriptions/s/resourceGroups/demo-rg/providers/Microsoft.Network/networkInterfaces/web-vm548_z1",
            "properties": {
                "enableIPForwarding": false,
                "virtualMachine": { "id": "/subscriptions/s/resourceGroups/demo-rg/providers/Microsoft.Compute/virtualMachines/web-vm" },
                "ipConfigurations": [{
                    "properties": {
                        "privateIPAddress": "10.0.0.9",
                        "subnet": { "id": "/subscriptions/s/resourceGroups/demo-rg/providers/Microsoft.Network/virtualNetworks/demo-vnet/subnets/default" },
                        "publicIPAddress": { "id": "/subscriptions/s/resourceGroups/demo-rg/providers/Microsoft.Network/publicIPAddresses/web-vm-ip" }
                    }
                }]
            }
        }]"#,
    )
}

#[test]
fn table_shows_configuration() {
    assert_eq!(
        nics::table(&nic_items(), None),
        "web-vm548_z1  demo-rg  vm=web-vm  nsg=-  forwarding=false\n  10.0.0.9  demo-vnet/default  public=web-vm-ip"
    );
}

#[test]
fn nics_table_filters_by_name() {
    assert!(nics::table(&nic_items(), Some("WEB-VM548_Z1")).starts_with("web-vm548_z1"));
    assert_eq!(nics::table(&nic_items(), Some("other")), "Інтерфейсів не знайдено.");
}

#[test]
fn block_shows_links_and_records() {
    let zone = json(
        r#"{
            "name": "privatelink.mysql.database.azure.com",
            "id": "/subscriptions/s/resourceGroups/prod-rg/providers/Microsoft.Network/privateDnsZones/privatelink.mysql.database.azure.com"
        }"#,
    );
    let links = jsons(
        r#"[{
            "name": "prod-link",
            "properties": {
                "registrationEnabled": false,
                "virtualNetwork": { "id": "/subscriptions/s/resourceGroups/prod-west-rg/providers/Microsoft.Network/virtualNetworks/prod-vnet" }
            }
        }]"#,
    );
    let records = jsons(r#"[{ "name": "prod-db", "properties": { "ttl": 10, "aRecords": [{ "ipv4Address": "10.1.0.6" }] } }]"#);

    assert_eq!(
        dnszones::block(&zone, &links, &records),
        "privatelink.mysql.database.azure.com  prod-rg\n  зв'язок prod-link -> prod-vnet  registration=false\n  A prod-db  10.1.0.6  ttl=10"
    );
}

#[test]
fn block_empty_zone() {
    let zone = json(r#"{ "name": "z", "id": "/subscriptions/s/resourceGroups/g/providers/p/z" }"#);

    assert_eq!(dnszones::block(&zone, &vec![], &vec![]), "z  g");
}

#[test]
fn block_joins_several_addresses() {
    let zone = json(r#"{ "name": "z", "id": "/subscriptions/s/resourceGroups/g/providers/p/z" }"#);
    let records = jsons(
        r#"[{ "name": "db", "properties": { "ttl": 300, "aRecords": [{ "ipv4Address": "10.0.0.1" }, { "ipv4Address": "10.0.0.2" }] } }]"#,
    );

    assert_eq!(dnszones::block(&zone, &vec![], &records), "z  g\n  A db  10.0.0.1,10.0.0.2  ttl=300");
}

#[test]
fn block_shows_network_and_rules() {
    let server = json(
        r#"{
            "name": "demo-db",
            "id": "/subscriptions/s/resourceGroups/demo-rg/providers/Microsoft.DBforMySQL/flexibleServers/demo-db",
            "properties": {
                "network": { "publicNetworkAccess": "Enabled" },
                "privateEndpointConnections": [{
                    "properties": { "privateEndpoint": { "id": "/subscriptions/s/resourceGroups/demo-rg/providers/Microsoft.Network/privateEndpoints/demo-dbep" } }
                }]
            }
        }"#,
    );
    let rules = jsons(r#"[{ "name": "local", "properties": { "startIpAddress": "10.0.0.1", "endIpAddress": "10.0.0.255" } }]"#);

    assert_eq!(
        firewall::block(&server, &rules, &vec![]),
        "demo-db  demo-rg  publicNetworkAccess=Enabled\n  приватні ендпоінти: demo-dbep\n  local  10.0.0.1-10.0.0.255  приватна мережа"
    );
}

#[test]
fn block_without_endpoints() {
    let server = json(r#"{ "name": "s", "id": "/subscriptions/x/resourceGroups/g/providers/p/s", "properties": {} }"#);

    assert_eq!(
        firewall::block(&server, &vec![], &vec![]),
        "s  g  publicNetworkAccess=-\n  приватні ендпоінти: -\n  правил немає: стан публічного доступу невідомий"
    );
}

fn server(access: &str) -> Json {
    json(&format!(
        r#"{{ "name": "s", "id": "/subscriptions/x/resourceGroups/g/providers/p/s", "properties": {{ "network": {{ "publicNetworkAccess": "{}" }} }} }}"#,
        access
    ))
}

#[test]
fn block_without_rules_says_what_it_means() {
    assert!(firewall::block(&server("Enabled"), &vec![], &vec![])
        .ends_with("правил немає: публічні підключення заборонені, жодне правило їх не дозволяє"));
    assert!(firewall::block(&server("Disabled"), &vec![], &vec![]).ends_with("правил немає: публічний доступ вимкнено"));
}

fn rule(start: &str, end: &str) -> Json {
    json(&format!(r#"{{ "name": "r", "properties": {{ "startIpAddress": "{}", "endIpAddress": "{}" }} }}"#, start, end))
}

fn ip_items() -> Vec<Json> {
    jsons(
        r#"[
            { "name": "web-vm-ip", "properties": { "ipAddress": "203.0.113.20" } },
            { "name": "api-ip", "properties": { "ipAddress": "203.0.113.29" } },
            { "name": "no-address-ip", "properties": {} }
        ]"#,
    )
}

#[test]
fn mark_azure_services() {
    assert_eq!(firewall::mark(&rule("0.0.0.0", "0.0.0.0"), &ip_items()), "усі служби Azure");
}

#[test]
fn mark_private_network() {
    assert_eq!(firewall::mark(&rule("10.0.0.1", "10.0.0.255"), &ip_items()), "приватна мережа");
    assert_eq!(firewall::mark(&rule("192.168.1.1", "192.168.1.1"), &ip_items()), "приватна мережа");
}

#[test]
fn mark_wide_range_is_not_private() {
    assert_eq!(
        firewall::mark(&rule("10.0.0.1", "192.168.1.1"), &ip_items()),
        "не збігається з жодною публічною IP підписки"
    );
    assert_eq!(firewall::mark(&rule("10.0.0.1", "203.0.113.25"), &ip_items()), "= web-vm-ip");
    assert_eq!(
        firewall::mark(&rule("172.16.0.1", "172.32.0.1"), &ip_items()),
        "не збігається з жодною публічною IP підписки"
    );
    assert_eq!(firewall::mark(&rule("172.16.0.1", "172.31.255.255"), &ip_items()), "приватна мережа");
}

#[test]
fn mark_matches_public_addresses() {
    assert_eq!(firewall::mark(&rule("203.0.113.20", "203.0.113.20"), &ip_items()), "= web-vm-ip");
    assert_eq!(firewall::mark(&rule("203.0.113.19", "203.0.113.30"), &ip_items()), "= web-vm-ip, api-ip");
}

#[test]
fn mark_unknown_address() {
    assert_eq!(
        firewall::mark(&rule("198.51.100.7", "198.51.100.7"), &ip_items()),
        "не збігається з жодною публічною IP підписки"
    );
    assert_eq!(firewall::mark(&rule("bad", "198.51.100.7"), &ip_items()), "-");
}

#[test]
fn addresses_parse_strictly() {
    assert_eq!(firewall::ipv4_of("203.0.113.20"), Some((203, 0, 113, 20)));
    assert_eq!(firewall::ipv4_of("256.0.0.1"), None);
    assert_eq!(firewall::ipv4_of("1.2.3"), None);
    assert_eq!(firewall::ipv4_of("1.2.3.4.5"), None);
    assert_eq!(firewall::ipv4_of("01.2.3.4"), None);
    assert_eq!(firewall::silence("Other"), "стан публічного доступу невідомий");
}

fn nsg_items() -> Vec<Json> {
    jsons(
        r#"[{
            "name": "demo-nsg",
            "id": "/subscriptions/s/resourceGroups/demo-rg/providers/Microsoft.Network/networkSecurityGroups/demo-nsg",
            "properties": {
                "subnets": [{ "id": "/subscriptions/s/resourceGroups/demo-rg/providers/Microsoft.Network/virtualNetworks/demo-vnet/subnets/default" }],
                "securityRules": [{
                    "name": "ssh-web",
                    "properties": {
                        "priority": 300, "direction": "Inbound", "access": "Allow", "protocol": "Tcp",
                        "sourceAddressPrefix": "*", "sourcePortRange": "*",
                        "destinationAddressPrefix": "*", "destinationPortRanges": ["22", "443"]
                    }
                }],
                "defaultSecurityRules": [{
                    "name": "DenyAllInBound",
                    "properties": {
                        "priority": 65500, "direction": "Inbound", "access": "Deny", "protocol": "*",
                        "sourceAddressPrefix": "*", "sourcePortRange": "*",
                        "destinationAddressPrefix": "*", "destinationPortRange": "*"
                    }
                }]
            }
        }]"#,
    )
}

#[test]
fn table_lists_rules_by_priority() {
    assert_eq!(
        nsgrules::table(&nsg_items(), None, false),
        "demo-nsg  demo-rg  підмережі: demo-vnet/default  NIC: -\n  відкрито ззовні: 22,443/TCP\n    300 Inbound  Allow TCP  *:* -> *:22,443  ssh-web\n  65500 Inbound  Deny  *    *:* -> *:*  DenyAllInBound (типове)"
    );
}

#[test]
fn table_hides_default_rules() {
    assert_eq!(
        nsgrules::table(&nsg_items(), None, true),
        "demo-nsg  demo-rg  підмережі: demo-vnet/default  NIC: -\n  відкрито ззовні: 22,443/TCP\n    300 Inbound  Allow TCP  *:* -> *:22,443  ssh-web"
    );
}

#[test]
fn open_ignores_restricted_sources() {
    let nsg = json(
        r#"{
            "properties": { "securityRules": [
                { "name": "vnet", "properties": { "priority": 100, "direction": "Inbound", "access": "Allow", "protocol": "Tcp", "sourceAddressPrefix": "10.0.0.0/24", "destinationPortRange": "3306" } },
                { "name": "any", "properties": { "priority": 110, "direction": "Inbound", "access": "Allow", "protocol": "ICMP", "sourceAddressPrefix": "*", "destinationPortRange": "*" } },
                { "name": "out", "properties": { "priority": 120, "direction": "Outbound", "access": "Allow", "protocol": "Tcp", "sourceAddressPrefix": "*", "destinationPortRange": "443" } }
            ] }
        }"#,
    );

    assert_eq!(nsgrules::open(&nsg), "*/ICMP");
    assert_eq!(
        nsgrules::open(&json(
            r#"{ "properties": { "securityRules": [
                { "name": "low", "properties": { "priority": 100, "direction": "Inbound", "access": "Allow", "protocol": "tcp", "sourceAddressPrefix": "*", "destinationPortRange": "22" } }
            ] } }"#
        )),
        "22/TCP"
    );
    assert_eq!(nsgrules::open(&json(r#"{ "properties": {} }"#)), "-");
}

#[test]
fn nsgrules_table_filters_by_name() {
    assert_eq!(nsgrules::table(&nsg_items(), Some("other"), false), "Груп безпеки не знайдено.");
}

#[test]
fn short_names_subnets_by_network() {
    assert_eq!(
        nsgrules::short("/subscriptions/s/resourceGroups/g/providers/Microsoft.Network/virtualNetworks/v/subnets/a"),
        "v/a"
    );
    assert_eq!(nsgrules::short("/subscriptions/s/resourceGroups/g/providers/Microsoft.Network/networkInterfaces/nic"), "nic");
}

fn public_ips() -> Vec<Json> {
    jsons(
        r#"[
            {
                "name": "web-vm-ip",
                "id": "/subscriptions/s/resourceGroups/demo-rg/providers/Microsoft.Network/publicIPAddresses/web-vm-ip",
                "sku": { "name": "Standard" },
                "properties": {
                    "ipAddress": "203.0.113.10",
                    "publicIPAllocationMethod": "Static",
                    "ipConfiguration": { "id": "/subscriptions/s/resourceGroups/demo-rg/providers/Microsoft.Network/networkInterfaces/web-vm548_z1/ipConfigurations/ipconfig1" }
                }
            },
            {
                "name": "free-ip",
                "id": "/subscriptions/s/resourceGroups/trial/providers/Microsoft.Network/publicIPAddresses/free-ip",
                "sku": { "name": "Basic" },
                "properties": { "publicIPAllocationMethod": "Dynamic" }
            },
            {
                "name": "nat-ip",
                "id": "/subscriptions/s/resourceGroups/demo-rg/providers/Microsoft.Network/publicIPAddresses/nat-ip",
                "sku": { "name": "Standard" },
                "properties": {
                    "ipAddress": "203.0.113.50",
                    "publicIPAllocationMethod": "Static",
                    "natGateway": { "id": "/subscriptions/s/resourceGroups/demo-rg/providers/Microsoft.Network/natGateways/ng1" }
                }
            }
        ]"#,
    )
}

fn ip_nics() -> Vec<Json> {
    jsons(
        r#"[{
            "id": "/subscriptions/s/resourcegroups/demo-rg/providers/microsoft.network/networkinterfaces/web-vm548_z1",
            "properties": { "virtualMachine": { "id": "/subscriptions/s/resourceGroups/demo-rg/providers/Microsoft.Compute/virtualMachines/web-vm" } }
        }]"#,
    )
}

#[test]
fn table_shows_owner_and_machine() {
    assert_eq!(
        pubips::table(&public_ips(), &pubips::machines(&ip_nics()), None),
        "nat-ip  demo-rg  203.0.113.50  Standard Static  natGateways/ng1\n\
         web-vm-ip  demo-rg  203.0.113.10  Standard Static  networkInterfaces/web-vm548_z1  vm=web-vm\n\
         free-ip  trial  -  Basic Dynamic  не прив'язана"
    );
}

#[test]
fn table_filters_by_address() {
    assert!(pubips::table(&public_ips(), &pubips::machines(&ip_nics()), Some("203.0.113.10")).ends_with("vm=web-vm"));
    assert_eq!(
        pubips::table(&public_ips(), &pubips::machines(&ip_nics()), Some("198.51.100.1")),
        "Публічних IP не знайдено."
    );
}

#[test]
fn owner_is_provider_path() {
    assert_eq!(
        pubips::owner("/subscriptions/s/resourceGroups/g/providers/Microsoft.Network/natGateways/ng1"),
        "natGateways/ng1"
    );
}

fn vm_items() -> Vec<Json> {
    jsons(
        r#"[
            {
                "name": "api-vm",
                "id": "/subscriptions/s/resourceGroups/DEMO-RG/providers/Microsoft.Compute/virtualMachines/api-vm",
                "properties": {
                    "hardwareProfile": { "vmSize": "Standard_B1ms" },
                    "storageProfile": { "osDisk": { "osType": "Linux" } },
                    "networkProfile": { "networkInterfaces": [{ "id": "/subscriptions/s/resourceGroups/demo-rg/providers/Microsoft.Network/networkInterfaces/nic1" }] }
                }
            },
            {
                "name": "win-server",
                "id": "/subscriptions/s/resourceGroups/TRIAL/providers/Microsoft.Compute/virtualMachines/win-server",
                "properties": {
                    "hardwareProfile": { "vmSize": "Standard_D2s_v3" },
                    "storageProfile": { "osDisk": { "osType": "Windows" } },
                    "networkProfile": { "networkInterfaces": [{ "id": "/subscriptions/s/resourceGroups/trial/providers/Microsoft.Network/networkInterfaces/missing" }] }
                }
            }
        ]"#,
    )
}

fn vm_status() -> Vec<Json> {
    jsons(
        r#"[
            {
                "id": "/subscriptions/s/resourceGroups/DEMO-RG/providers/Microsoft.Compute/virtualMachines/api-vm",
                "properties": { "instanceView": { "statuses": [{ "code": "ProvisioningState/succeeded" }, { "code": "PowerState/running" }] } }
            },
            {
                "id": "/subscriptions/s/resourceGroups/TRIAL/providers/Microsoft.Compute/virtualMachines/win-server",
                "properties": { "instanceView": { "statuses": [{ "code": "PowerState/deallocated" }] } }
            }
        ]"#,
    )
}

fn vm_nics() -> Vec<Json> {
    jsons(
        r#"[{
            "id": "/subscriptions/s/resourceGroups/demo-rg/providers/Microsoft.Network/networkInterfaces/nic1",
            "properties": { "ipConfigurations": [{
                "properties": {
                    "privateIPAddress": "10.0.0.5",
                    "publicIPAddress": { "id": "/subscriptions/s/resourcegroups/demo-rg/providers/microsoft.network/publicipaddresses/ip1" }
                }
            }] }
        }]"#,
    )
}

fn vm_ips() -> Vec<Json> {
    jsons(
        r#"[{
            "id": "/subscriptions/s/resourceGroups/demo-rg/providers/Microsoft.Network/publicIPAddresses/ip1",
            "properties": { "ipAddress": "203.0.113.40" }
        }]"#,
    )
}

#[test]
fn table_joins_status_and_addresses() {
    assert_eq!(
        vms::table(&vm_items(), &vm_status(), &vm_nics(), &vm_ips(), None),
        "api-vm  demo-rg  Standard_B1ms  Linux  running  private=10.0.0.5  public=203.0.113.40\n\
         win-server  trial  Standard_D2s_v3  Windows  deallocated  private=-  public=-"
    );
}

#[test]
fn vms_table_filters_by_name() {
    assert!(vms::table(&vm_items(), &vm_status(), &vm_nics(), &vm_ips(), Some("API-VM")).starts_with("api-vm"));
    assert_eq!(
        vms::table(&vm_items(), &vm_status(), &vm_nics(), &vm_ips(), Some("other")),
        "Віртуальних машин не знайдено."
    );
}

#[test]
fn power_missing_is_dash() {
    assert_eq!(vms::power(None), "-");
    assert_eq!(
        vms::table(&vm_items(), &vec![], &vm_nics(), &vm_ips(), Some("win-server")),
        "win-server  trial  Standard_D2s_v3  Windows  -  private=-  public=-"
    );
}

#[test]
fn joined_is_dash_when_empty() {
    assert_eq!(vms::joined(&vec![]), "-");
    assert_eq!(vms::joined(&vec!["a".to_string(), "b".to_string()]), "a,b");
}

#[test]
fn listing_paths() {
    let scope = "/subscriptions/s/resourceGroups/g";
    assert_eq!(disks::path(scope), "/subscriptions/s/resourceGroups/g/providers/Microsoft.Compute/disks?api-version=2023-04-02");
    assert_eq!(nics::path(scope), "/subscriptions/s/resourceGroups/g/providers/Microsoft.Network/networkInterfaces?api-version=2023-11-01");
    assert_eq!(pubips::nics_path(scope), nics::path(scope));
    assert_eq!(pubips::path(scope), "/subscriptions/s/resourceGroups/g/providers/Microsoft.Network/publicIPAddresses?api-version=2024-07-01");
    assert_eq!(
        nsgrules::path(scope),
        "/subscriptions/s/resourceGroups/g/providers/Microsoft.Network/networkSecurityGroups?api-version=2022-01-01"
    );
    assert_eq!(
        firewall::path(scope),
        "/subscriptions/s/resourceGroups/g/providers/Microsoft.DBforMySQL/flexibleServers?api-version=2024-10-01-preview"
    );
    assert_eq!(firewall::rules_path("/x/s"), "/x/s/firewallRules?api-version=2023-12-30");
    assert_eq!(dnszones::path(scope), "/subscriptions/s/resourceGroups/g/providers/Microsoft.Network/privateDnsZones?api-version=2018-09-01");
    assert_eq!(dnszones::links_path("/z"), "/z/virtualNetworkLinks?api-version=2024-06-01");
    assert_eq!(dnszones::records_path("/z"), "/z/A?api-version=2018-09-01");
    assert_eq!(vms::path(scope), "/subscriptions/s/resourceGroups/g/providers/Microsoft.Compute/virtualMachines?api-version=2024-11-01");
    assert_eq!(
        vms::status_path(scope),
        "/subscriptions/s/resourceGroups/g/providers/Microsoft.Compute/virtualMachines?statusOnly=true&api-version=2024-11-01"
    );
}

#[test]
fn readiness_checks_what_reports_read() {
    assert!(nsgrules::all_ready(&nsg_items(), None, false));
    let broken = jsons(r#"[{ "name": "n", "properties": { "securityRules": [{ "name": "r", "properties": { "priority": "high" } }] } }]"#);
    assert!(!nsgrules::all_ready(&broken, None, false));
    assert!(nsgrules::all_ready(&broken, Some("other"), false));
    assert!(!nsgrules::ready(&broken[0], true));
    let bad_subnet = json(r#"{ "properties": { "subnets": [{ "id": 5 }] } }"#);
    assert!(!nsgrules::ready(&bad_subnet, false));
    assert!(nics::ready(&nic_items(), None));
    assert!(!nics::ready(&jsons(r#"[{ "name": "n", "properties": {} }]"#), None));
    assert!(nics::ready(&jsons(r#"[{ "name": "n", "properties": {} }]"#), Some("other")));
    assert!(dnszones::ready(&jsons(r#"[{ "properties": { "aRecords": [{ "ipv4Address": "10.0.0.1" }] } }, { "properties": {} }]"#)));
    assert!(!dnszones::ready(&jsons(r#"[{ "properties": { "aRecords": [{ "ipv4Address": 1 }] } }]"#)));
}

#[test]
fn blocks_are_separated_by_empty_lines() {
    assert_eq!(blocks_of(&vec![], "none"), "none");
    assert_eq!(blocks_of(&vec!["a\nb".to_string(), "c".to_string()], "none"), "a\nb\n\nc");
    assert!(flag(&json(r#"{ "custom": true }"#), "custom"));
    assert!(!flag(&json(r#"{ "custom": 1 }"#), "custom"));
    assert!(!flag(&json("{}"), "custom"));
}
