# azure_mcp

The verified core of a read-only MCP server for Microsoft Azure: the reports its tools answer
with (costs, public IPs, network interfaces, security groups, MySQL firewall rules, private DNS
zones, virtual machines, disks, and a few more), the tool catalog, and the decisions of its Azure
Resource Manager client (token reuse, the cost cache's names and freshness, retries on `429`, how a
failure reads, paging). Every function under `src/` is proved by Verus against its contract,
except four small trusted wrappers around `String::push`, `str::to_lowercase`, `str::to_uppercase`
and `reqwest::StatusCode`, whose contracts are believed.

- `src/json.rs` — JSON values as plain data, JSON pointers, compact rendering.
- `src/text.rs` — splitting, joining, padding, decimal text, ASCII case folding.
- `src/order.rs` — the stable sort of report rows by text and number keys, and its laws.
- `src/client.rs` — the client's decisions: token, cache names and age, retries, failures, pages.
- `src/tools/` — one module per report; `catalog.rs` lists the tools and their arguments.
- `app/` — the I/O around it: the Azure CLI, HTTP, the disk cache, and the tools' runs; the cost
  tables, which add and format floating-point amounts, stay there too.
- `tests/` — the reports and decisions on concrete values.
