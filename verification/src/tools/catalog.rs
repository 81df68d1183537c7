//! The tools the server offers: their names, what each does, and the arguments each takes.
use vstd::prelude::*;
use crate::json::{str_of, Json};

verus! {

/// A tool of the server.
#[derive(Clone, Copy, PartialEq, Eq, Structural)]
pub enum Tool {
    Costs,
    Pubips,
    Nics,
    Nsgrules,
    Firewall,
    Dnszones,
    Vms,
    Disks,
}

/// An argument of a tool: its name, its JSON type, the values it may take (any where none are
/// listed) and what it means.
pub type Argument = (Seq<char>, Seq<char>, Seq<Seq<char>>, Seq<char>);

/// The tools, in the order they are listed.
pub open spec fn catalog() -> Seq<Tool> {
    seq![Tool::Costs, Tool::Pubips, Tool::Nics, Tool::Nsgrules, Tool::Firewall, Tool::Dnszones, Tool::Vms, Tool::Disks]
}

/// The name a tool is called by.
pub open spec fn name_of(t: Tool) -> Seq<char> {
    match t {
        Tool::Costs => "costs"@,
        Tool::Pubips => "pubips"@,
        Tool::Nics => "nics"@,
        Tool::Nsgrules => "nsgrules"@,
        Tool::Firewall => "firewall"@,
        Tool::Dnszones => "dnszones"@,
        Tool::Vms => "vms"@,
        Tool::Disks => "disks"@,
    }
}

/// What a tool does, as its listing says.
pub open spec fn about_of(t: Tool) -> Seq<char> {
    match t {
        Tool::Costs => "Фактичні витрати (ActualCost) підписки Azure чи однієї групи ресурсів за період, з розбивкою за групами ресурсів, ресурсами (група, тип, ім'я), типами ресурсів, категоріями лічильників або службами; від більших до менших, з підсумком. Із daily=true — витрати за кожну добу й середня за повну добу. Остання доба в даних завжди неповна (Cost Management відстає приблизно на півдоби). Дані Cost Management мають спільний ліміт запитів: при 429 сервер повторює запит із паузами, відповідь кешується на годину (у відповіді вказано, коли вона з кешу)."@,
        Tool::Pubips => "Публічні IP-адреси Azure: ім'я, група, адреса, SKU і спосіб виділення (Static / Dynamic), власник (NIC чи NAT-шлюз) і ім'я VM. Непривʼязані адреси позначено «не прив'язана»: статична адреса без власника тарифікується. Необов'язковий addr лишає лише вказану адресу."@,
        Tool::Nics => "Мережеві інтерфейси Azure: VM, NSG інтерфейсу, enableIPForwarding, а для кожної IP-конфігурації — приватна адреса, мережа/підмережа і публічна IP. Необов'язковий name лишає один NIC."@,
        Tool::Nsgrules => "Групи безпеки мережі (NSG) Azure: до яких підмереж і NIC прив'язана, підсумок відкритих із будь-якого джерела портів (без урахування пріоритетів) та її правила за напрямком і пріоритетом. З custom=true типові правила (65000–65500) приховано. Необов'язковий nsg лишає одну групу."@,
        Tool::Firewall => "Сервери MySQL Flexible Server: publicNetworkAccess, приватні ендпоінти та правила firewall (ім'я, діапазон адрес) з позначкою для кожного: «усі служби Azure» (0.0.0.0), «приватна мережа», публічні IP підписки, які діапазон покриває, або «не збігається з жодною публічною IP підписки». Необов'язковий server лишає один сервер."@,
        Tool::Dnszones => "Приватні DNS-зони Azure: зв'язки з віртуальними мережами (virtualNetworkLinks) і A-записи. Необов'язковий zone лишає одну зону."@,
        Tool::Vms => "Віртуальні машини Azure: ім'я, група, розмір, ОС, стан живлення (running / deallocated тощо), приватні й публічні IP. Необов'язковий name лишає одну VM."@,
        Tool::Disks => "Керовані диски Azure: ім'я, група, SKU, розмір у ГБ, стан і VM, до якої диск прив'язано. Непривʼязані диски позначено «не прив'язаний»: вони тарифікуються. Необов'язковий name лишає один диск."@,
    }
}

/// The resource group argument that every tool takes.
pub open spec fn group_argument() -> Argument {
    ("group"@, "string"@, seq![], "Група ресурсів; без неї — уся підписка"@)
}

/// The subscription argument that every tool takes.
pub open spec fn subscription_argument() -> Argument {
    ("sbscrptn"@, "string"@, seq![], "Ідентифікатор підписки; без нього — AZURE_SBSCRPTN чи підписка за замовчуванням az"@)
}

/// The arguments of a tool, in the order they are listed.
pub open spec fn arguments_of(t: Tool) -> Seq<Argument> {
    match t {
        Tool::Costs => seq![
            group_argument(),
            subscription_argument(),
            ("period"@, "string"@, seq!["MonthToDate"@, "BillingMonthToDate"@, "TheLastMonth"@, "TheLastBillingMonth"@, "WeekToDate"@], "Період, за замовчуванням MonthToDate (з початку місяця)"@),
            ("from"@, "string"@, seq![], "Початок довільного періоду, РРРР-ММ-ДД (разом із to; перекриває period)"@),
            ("to"@, "string"@, seq![], "Кінець довільного періоду включно, РРРР-ММ-ДД (разом із from)"@),
            ("daily"@, "boolean"@, seq![], "Витрати за кожну добу й середня за повну добу для кожної групи"@),
            ("by"@, "string"@, seq!["ResourceGroupName"@, "ResourceId"@, "ResourceType"@, "MeterCategory"@, "ServiceName"@], "Розбивка, за замовчуванням ResourceGroupName; ResourceId показано як «група  тип  ім'я»"@),
            ("refresh"@, "boolean"@, seq![], "Пропустити кеш і запитати Azure наново"@),
        ],
        Tool::Pubips => seq![
            ("addr"@, "string"@, seq![], "Лише ця публічна адреса, напр. 203.0.113.10"@),
            group_argument(),
            subscription_argument(),
        ],
        Tool::Nics => seq![
            ("name"@, "string"@, seq![], "Лише NIC з цим іменем"@),
            group_argument(),
            subscription_argument(),
        ],
        Tool::Nsgrules => seq![
            ("nsg"@, "string"@, seq![], "Лише NSG з цим іменем"@),
            ("custom"@, "boolean"@, seq![], "Сховати типові правила (65000–65500), лишити власні"@),
            group_argument(),
            subscription_argument(),
        ],
        Tool::Firewall => seq![
            ("server"@, "string"@, seq![], "Лише сервер з цим іменем"@),
            group_argument(),
            subscription_argument(),
        ],
        Tool::Dnszones => seq![
            ("zone"@, "string"@, seq![], "Лише зона з цим іменем, напр. privatelink.mysql.database.azure.com"@),
            group_argument(),
            subscription_argument(),
        ],
        Tool::Vms => seq![
            ("name"@, "string"@, seq![], "Лише VM з цим іменем"@),
            group_argument(),
            subscription_argument(),
        ],
        Tool::Disks => seq![
            ("name"@, "string"@, seq![], "Лише диск з цим іменем"@),
            group_argument(),
            subscription_argument(),
        ],
    }
}

/// The values are the texts, one for one.
pub open spec fn texts_are(items: Seq<Json>, texts: Seq<Seq<char>>) -> bool {
    &&& items.len() == texts.len()
    &&& forall|i: int| 0 <= i < items.len() ==> str_of(Some(#[trigger] items[i])) == Some(texts[i])
}

/// A value describes an argument: its type, the values it may take where they are limited, and
/// its description, in that order.
pub open spec fn argument_is(v: Json, a: Argument) -> bool {
    &&& v matches Json::Object(m)
    &&& m@.len() == if a.2.len() == 0 { 2int } else { 3int }
    &&& m@[0].0@ == "type"@
    &&& str_of(Some(m@[0].1)) == Some(a.1)
    &&& if a.2.len() == 0 {
        &&& m@[1].0@ == "description"@
        &&& str_of(Some(m@[1].1)) == Some(a.3)
    } else {
        &&& m@[1].0@ == "enum"@
        &&& m@[1].1 matches Json::Array(es)
        &&& texts_are(es@, a.2)
        &&& m@[2].0@ == "description"@
        &&& str_of(Some(m@[2].1)) == Some(a.3)
    }
}

/// A value is the input schema of a tool with these arguments: an object with exactly these
/// properties and no others.
pub open spec fn schema_is(v: Json, args: Seq<Argument>) -> bool {
    &&& v matches Json::Object(m)
    &&& m@.len() == 3
    &&& m@[0].0@ == "type"@
    &&& str_of(Some(m@[0].1)) == Some("object"@)
    &&& m@[1].0@ == "properties"@
    &&& m@[1].1 matches Json::Object(ps)
    &&& ps@.len() == args.len()
    &&& forall|k: int| 0 <= k < args.len() ==> (#[trigger] ps@[k]).0@ == args[k].0 && argument_is(ps@[k].1, args[k])
    &&& m@[2].0@ == "additionalProperties"@
    &&& m@[2].1 == Json::Bool(false)
}

/// A value lists a tool: its name, what it does, and its input schema.
pub open spec fn tool_is(v: Json, t: Tool) -> bool {
    &&& v matches Json::Object(m)
    &&& m@.len() == 3
    &&& m@[0].0@ == "name"@
    &&& str_of(Some(m@[0].1)) == Some(name_of(t))
    &&& m@[1].0@ == "description"@
    &&& str_of(Some(m@[1].1)) == Some(about_of(t))
    &&& m@[2].0@ == "inputSchema"@
    &&& schema_is(m@[2].1, arguments_of(t))
}

/// An argument of a tool as plain texts.
pub open spec fn argument_view(a: (&str, &str, Vec<&str>, &str)) -> Argument {
    (a.0@, a.1@, a.2@.map_values(|c: &str| c@), a.3@)
}

/// Every tool takes an optional resource group and subscription.
pub proof fn lemma_every_tool_scoped(t: Tool)
    ensures
        arguments_of(t).contains(group_argument()),
        arguments_of(t).contains(subscription_argument()),
{
    let args = arguments_of(t);
    match t {
        Tool::Costs => {
            assert(args[0] == group_argument() && args[1] == subscription_argument());
        },
        Tool::Nsgrules => {
            assert(args[2] == group_argument() && args[3] == subscription_argument());
        },
        _ => {
            assert(args[1] == group_argument() && args[2] == subscription_argument());
        },
    }
}

/// No two tools share a name, so a name calls one tool.
pub proof fn lemma_names_distinct(i: int, j: int)
    requires
        0 <= i < catalog().len(),
        0 <= j < catalog().len(),
        i != j,
    ensures
        name_of(catalog()[i]) != name_of(catalog()[j]),
{
    reveal_strlit("costs");
    reveal_strlit("pubips");
    reveal_strlit("nics");
    reveal_strlit("nsgrules");
    reveal_strlit("firewall");
    reveal_strlit("dnszones");
    reveal_strlit("vms");
    reveal_strlit("disks");
    let a = name_of(catalog()[i]);
    let b = name_of(catalog()[j]);
    if a == b {
        assert(a.len() == b.len() && a[0] == b[0] && a[1] == b[1]);
    }
}

/// The tool of a position in the listing.
fn tool_at(k: usize) -> (t: Tool)
    requires
        k < 8,
    ensures
        t == catalog()[k as int],
{
    if k == 0 {
        Tool::Costs
    } else if k == 1 {
        Tool::Pubips
    } else if k == 2 {
        Tool::Nics
    } else if k == 3 {
        Tool::Nsgrules
    } else if k == 4 {
        Tool::Firewall
    } else if k == 5 {
        Tool::Dnszones
    } else if k == 6 {
        Tool::Vms
    } else {
        Tool::Disks
    }
}

/// The name a tool is called by.
pub fn name(t: Tool) -> (r: &'static str)
    ensures
        r@ == name_of(t),
{
    match t {
        Tool::Costs => "costs",
        Tool::Pubips => "pubips",
        Tool::Nics => "nics",
        Tool::Nsgrules => "nsgrules",
        Tool::Firewall => "firewall",
        Tool::Dnszones => "dnszones",
        Tool::Vms => "vms",
        Tool::Disks => "disks",
    }
}

/// What a tool does.
pub fn about(t: Tool) -> (r: &'static str)
    ensures
        r@ == about_of(t),
{
    match t {
        Tool::Costs => "Фактичні витрати (ActualCost) підписки Azure чи однієї групи ресурсів за період, з розбивкою за групами ресурсів, ресурсами (група, тип, ім'я), типами ресурсів, категоріями лічильників або службами; від більших до менших, з підсумком. Із daily=true — витрати за кожну добу й середня за повну добу. Остання доба в даних завжди неповна (Cost Management відстає приблизно на півдоби). Дані Cost Management мають спільний ліміт запитів: при 429 сервер повторює запит із паузами, відповідь кешується на годину (у відповіді вказано, коли вона з кешу).",
        Tool::Pubips => "Публічні IP-адреси Azure: ім'я, група, адреса, SKU і спосіб виділення (Static / Dynamic), власник (NIC чи NAT-шлюз) і ім'я VM. Непривʼязані адреси позначено «не прив'язана»: статична адреса без власника тарифікується. Необов'язковий addr лишає лише вказану адресу.",
        Tool::Nics => "Мережеві інтерфейси Azure: VM, NSG інтерфейсу, enableIPForwarding, а для кожної IP-конфігурації — приватна адреса, мережа/підмережа і публічна IP. Необов'язковий name лишає один NIC.",
        Tool::Nsgrules => "Групи безпеки мережі (NSG) Azure: до яких підмереж і NIC прив'язана, підсумок відкритих із будь-якого джерела портів (без урахування пріоритетів) та її правила за напрямком і пріоритетом. З custom=true типові правила (65000–65500) приховано. Необов'язковий nsg лишає одну групу.",
        Tool::Firewall => "Сервери MySQL Flexible Server: publicNetworkAccess, приватні ендпоінти та правила firewall (ім'я, діапазон адрес) з позначкою для кожного: «усі служби Azure» (0.0.0.0), «приватна мережа», публічні IP підписки, які діапазон покриває, або «не збігається з жодною публічною IP підписки». Необов'язковий server лишає один сервер.",
        Tool::Dnszones => "Приватні DNS-зони Azure: зв'язки з віртуальними мережами (virtualNetworkLinks) і A-записи. Необов'язковий zone лишає одну зону.",
        Tool::Vms => "Віртуальні машини Azure: ім'я, група, розмір, ОС, стан живлення (running / deallocated тощо), приватні й публічні IP. Необов'язковий name лишає одну VM.",
        Tool::Disks => "Керовані диски Azure: ім'я, група, SKU, розмір у ГБ, стан і VM, до якої диск прив'язано. Непривʼязані диски позначено «не прив'язаний»: вони тарифікуються. Необов'язковий name лишає один диск.",
    }
}

/// The arguments of a tool.
fn arguments(t: Tool) -> (r: Vec<(&'static str, &'static str, Vec<&'static str>, &'static str)>)
    ensures
        r@.map_values(|a: (&str, &str, Vec<&str>, &str)| argument_view(a)) == arguments_of(t),
{
    let group = ("group", "string", Vec::new(), "Група ресурсів; без неї — уся підписка");
    let subscription = ("sbscrptn", "string", Vec::new(), "Ідентифікатор підписки; без нього — AZURE_SBSCRPTN чи підписка за замовчуванням az");
    let r = match t {
        Tool::Costs => vec![
            group,
            subscription,
            ("period", "string", vec!["MonthToDate", "BillingMonthToDate", "TheLastMonth", "TheLastBillingMonth", "WeekToDate"], "Період, за замовчуванням MonthToDate (з початку місяця)"),
            ("from", "string", Vec::new(), "Початок довільного періоду, РРРР-ММ-ДД (разом із to; перекриває period)"),
            ("to", "string", Vec::new(), "Кінець довільного періоду включно, РРРР-ММ-ДД (разом із from)"),
            ("daily", "boolean", Vec::new(), "Витрати за кожну добу й середня за повну добу для кожної групи"),
            ("by", "string", vec!["ResourceGroupName", "ResourceId", "ResourceType", "MeterCategory", "ServiceName"], "Розбивка, за замовчуванням ResourceGroupName; ResourceId показано як «група  тип  ім'я»"),
            ("refresh", "boolean", Vec::new(), "Пропустити кеш і запитати Azure наново"),
        ],
        Tool::Pubips => vec![
            ("addr", "string", Vec::new(), "Лише ця публічна адреса, напр. 203.0.113.10"),
            group,
            subscription,
        ],
        Tool::Nics => vec![
            ("name", "string", Vec::new(), "Лише NIC з цим іменем"),
            group,
            subscription,
        ],
        Tool::Nsgrules => vec![
            ("nsg", "string", Vec::new(), "Лише NSG з цим іменем"),
            ("custom", "boolean", Vec::new(), "Сховати типові правила (65000–65500), лишити власні"),
            group,
            subscription,
        ],
        Tool::Firewall => vec![
            ("server", "string", Vec::new(), "Лише сервер з цим іменем"),
            group,
            subscription,
        ],
        Tool::Dnszones => vec![
            ("zone", "string", Vec::new(), "Лише зона з цим іменем, напр. privatelink.mysql.database.azure.com"),
            group,
            subscription,
        ],
        Tool::Vms => vec![
            ("name", "string", Vec::new(), "Лише VM з цим іменем"),
            group,
            subscription,
        ],
        Tool::Disks => vec![
            ("name", "string", Vec::new(), "Лише диск з цим іменем"),
            group,
            subscription,
        ],
    };
    assert(r@.map_values(|a: (&str, &str, Vec<&str>, &str)| argument_view(a)) =~~= arguments_of(t));
    r
}

/// The description of an argument.
fn argument(a: &(&str, &str, Vec<&str>, &str)) -> (r: Json)
    ensures
        argument_is(r, argument_view(*a)),
{
    let mut m: Vec<(String, Json)> = Vec::new();
    m.push((String::from_str("type"), Json::Str(String::from_str(a.1))));
    if a.2.len() > 0 {
        let mut es: Vec<Json> = Vec::new();
        let n = a.2.len();
        for i in 0..n
            invariant
                n == a.2@.len(),
                texts_are(es@, a.2@.take(i as int).map_values(|c: &str| c@)),
        {
            es.push(Json::Str(String::from_str(a.2[i])));
            assert(a.2@.take(i as int + 1).map_values(|c: &str| c@) == a.2@.take(i as int).map_values(
                |c: &str| c@,
            ).push(a.2@[i as int]@));
        }
        assert(a.2@.take(n as int) == a.2@);
        m.push((String::from_str("enum"), Json::Array(es)));
    }
    m.push((String::from_str("description"), Json::Str(String::from_str(a.3))));
    Json::Object(m)
}

/// The input schema of a tool.
fn schema(t: Tool) -> (r: Json)
    ensures
        schema_is(r, arguments_of(t)),
{
    let args = arguments(t);
    let ghost want = arguments_of(t);
    let mut ps: Vec<(String, Json)> = Vec::new();
    let n = args.len();
    for k in 0..n
        invariant
            n == args@.len(),
            want == args@.map_values(|a: (&str, &str, Vec<&str>, &str)| argument_view(a)),
            ps@.len() == k,
            forall|j: int| 0 <= j < k ==> (#[trigger] ps@[j]).0@ == want[j].0 && argument_is(ps@[j].1, want[j]),
    {
        let a = &args[k];
        let v = argument(a);
        ps.push((String::from_str(a.0), v));
        assert(want[k as int] == argument_view(args@[k as int]));
    }
    let mut m: Vec<(String, Json)> = Vec::new();
    m.push((String::from_str("type"), Json::Str(String::from_str("object"))));
    m.push((String::from_str("properties"), Json::Object(ps)));
    m.push((String::from_str("additionalProperties"), Json::Bool(false)));
    Json::Object(m)
}

/// The listing of the tools: for each its name, what it does and its input schema.
pub fn list() -> (r: Json)
    ensures
        r matches Json::Array(a) && a@.len() == catalog().len() && forall|i: int|
            0 <= i < a@.len() ==> tool_is(#[trigger] a@[i], catalog()[i]),
{
    let mut a: Vec<Json> = Vec::new();
    for k in 0..8
        invariant
            a@.len() == k,
            forall|j: int| 0 <= j < k ==> tool_is(#[trigger] a@[j], catalog()[j]),
    {
        let t = tool_at(k);
        let mut m: Vec<(String, Json)> = Vec::new();
        m.push((String::from_str("name"), Json::Str(String::from_str(name(t)))));
        m.push((String::from_str("description"), Json::Str(String::from_str(about(t)))));
        m.push((String::from_str("inputSchema"), schema(t)));
        a.push(Json::Object(m));
    }
    Json::Array(a)
}

/// The tool called `name`, if there is one.
pub fn tool(name: &str) -> (r: Option<Tool>)
    ensures
        match r {
            Some(t) => catalog().contains(t) && name_of(t) == name@,
            None => forall|i: int| 0 <= i < catalog().len() ==> name_of(#[trigger] catalog()[i]) != name@,
        },
{
    let wanted = String::from_str(name);
    for k in 0..8
        invariant
            wanted@ == name@,
            forall|j: int| 0 <= j < k ==> name_of(#[trigger] catalog()[j]) != name@,
    {
        let t = tool_at(k);
        if String::from_str(self::name(t)) == wanted {
            assert(catalog()[k as int] == t);
            return Some(t);
        }
    }
    None
}

/// The answer to a call of a tool that does not exist.
pub fn unknown(name: &str) -> (r: String)
    ensures
        r@ == "Невідомий інструмент: "@ + name@,
{
    let mut r = String::from_str("Невідомий інструмент: ");
    r.append(name);
    r
}

} // verus!
