//! The invoice module's database baseline, the size of its API assembly,
//! and the gateway's reading of its deployment environment.

use vstd::prelude::*;

use crate::text::{trim, trimmed, trim_start, trim_end, ascii_lower, lower_ascii_char};

verus! {

/// The tables that the invoice module owns, in the order they are created.
pub open spec fn invoice_table_names() -> Seq<Seq<char>> {
    seq!["commerce_invoice_title"@, "commerce_invoice"@, "commerce_invoice_item"@]
}

/// Tables that must exist after the invoice module baseline is applied.
pub fn invoice_module_table_names() -> (names: Vec<&'static str>)
    ensures
        names@.map_values(|n: &'static str| n@) == invoice_table_names(),
{
    let mut names: Vec<&'static str> = Vec::new();
    names.push("commerce_invoice_title");
    names.push("commerce_invoice");
    names.push("commerce_invoice_item");
    assert(names@.map_values(|n: &'static str| n@) =~= invoice_table_names());
    names
}

/// The number of route crates that the API assembly mounts: the invoice
/// application API.
pub fn assembly_route_count() -> (n: usize)
    ensures
        n == 1,
{
    1
}


/// The gateway runs in production when its environment name, trimmed and
/// in ASCII lower case, is `prod` or `production`.
pub open spec fn is_production_name(name: Seq<char>) -> bool {
    ascii_lower(trimmed(name)) == "prod"@ || ascii_lower(trimmed(name)) == "production"@
}

/// Only `prod` and `production`, in any ASCII case and with any
/// surrounding whitespace, name production; `development` does not.
pub proof fn lemma_production_names(name: Seq<char>)
    ensures
        is_production_name(name) <==> (ascii_lower(trimmed(name)) == "prod"@ || ascii_lower(
            trimmed(name),
        ) == "production"@),
        is_production_name("prod"@),
        is_production_name("PRODUCTION"@),
        !is_production_name("development"@),
        !is_production_name("staging"@),
{
    reveal_strlit("prod");
    reveal_strlit("production");
    reveal_strlit("PRODUCTION");
    reveal_strlit("development");
    reveal_strlit("staging");
    assert(trim_start("prod"@) == "prod"@);
    assert(trim_end("prod"@) == "prod"@);
    assert(ascii_lower("prod"@) =~= "prod"@);
    assert(trim_start("PRODUCTION"@) == "PRODUCTION"@);
    assert(trim_end("PRODUCTION"@) == "PRODUCTION"@);
    assert(ascii_lower("PRODUCTION"@) =~= "production"@);
    assert(trim_start("development"@) == "development"@);
    assert(trim_end("development"@) == "development"@);
    assert(ascii_lower("development"@)[0] == 'd');
    assert(trim_start("staging"@) == "staging"@);
    assert(trim_end("staging"@) == "staging"@);
    assert(ascii_lower("staging"@)[0] == 's');
}

pub fn is_production_environment(name: &str) -> (r: bool)
    ensures
        r == is_production_name(name@),
{
    let t = trim(name);
    let mut lower = String::new();
    for c in it: t.as_str().chars()
        invariant
            it.seq() == t@,
            lower@ == ascii_lower(t@.take(it.index() as int)),
    {
        lower.push(lower_ascii_char(c));
        assert(lower@ =~= ascii_lower(t@.take(it.index() + 1)));
    }
    assert(t@.take(t@.len() as int) =~= t@);
    crate::json::key_eq(&lower, "prod") || crate::json::key_eq(&lower, "production")
}

/// The statement that creates `commerce_invoice_title`.
pub open spec fn invoice_title_ddl() -> Seq<char> {
    "CREATE TABLE IF NOT EXISTS commerce_invoice_title (\n    id TEXT PRIMARY KEY,\n    tenant_id TEXT NOT NULL,\n    owner_user_id TEXT NOT NULL,\n    title_type TEXT NOT NULL,\n    name TEXT NOT NULL,\n    tax_no TEXT,\n    created_at TEXT NOT NULL,\n    updated_at TEXT NOT NULL\n);\n"@
}

/// The statement that creates `commerce_invoice`.
pub open spec fn invoice_ddl() -> Seq<char> {
    "CREATE TABLE IF NOT EXISTS commerce_invoice (\n    id TEXT PRIMARY KEY,\n    tenant_id TEXT NOT NULL,\n    organization_id TEXT,\n    owner_user_id TEXT NOT NULL,\n    order_id TEXT NOT NULL,\n    payment_id TEXT NOT NULL,\n    title_id TEXT NOT NULL,\n    status TEXT NOT NULL,\n    invoice_no TEXT,\n    invoice_code TEXT,\n    document_url TEXT,\n    created_at TEXT NOT NULL,\n    issued_at TEXT,\n    updated_at TEXT NOT NULL\n);\n"@
}

/// The statement that creates `commerce_invoice_item`.
pub open spec fn invoice_item_ddl() -> Seq<char> {
    "CREATE TABLE IF NOT EXISTS commerce_invoice_item (\n    id TEXT PRIMARY KEY,\n    tenant_id TEXT NOT NULL,\n    invoice_id TEXT NOT NULL,\n    order_item_id TEXT,\n    title TEXT NOT NULL,\n    amount TEXT NOT NULL,\n    tax_amount TEXT NOT NULL,\n    created_at TEXT NOT NULL\n);\n"@
}

/// The invoice module baseline: the three tables with the columns that the
/// invoice store reads and writes.
pub open spec fn invoice_baseline_ddl() -> Seq<char> {
    invoice_title_ddl() + invoice_ddl() + invoice_item_ddl()
}

/// The Postgres baseline of the invoice module: one `CREATE TABLE` for
/// each module table, with the columns that the invoice store reads and
/// writes.
pub fn invoice_foundation_migration_sql() -> (sql: &'static str)
    ensures
        sql@ == invoice_baseline_ddl(),
{
    let sql = "CREATE TABLE IF NOT EXISTS commerce_invoice_title (\n    id TEXT PRIMARY KEY,\n    tenant_id TEXT NOT NULL,\n    owner_user_id TEXT NOT NULL,\n    title_type TEXT NOT NULL,\n    name TEXT NOT NULL,\n    tax_no TEXT,\n    created_at TEXT NOT NULL,\n    updated_at TEXT NOT NULL\n);\nCREATE TABLE IF NOT EXISTS commerce_invoice (\n    id TEXT PRIMARY KEY,\n    tenant_id TEXT NOT NULL,\n    organization_id TEXT,\n    owner_user_id TEXT NOT NULL,\n    order_id TEXT NOT NULL,\n    payment_id TEXT NOT NULL,\n    title_id TEXT NOT NULL,\n    status TEXT NOT NULL,\n    invoice_no TEXT,\n    invoice_code TEXT,\n    document_url TEXT,\n    created_at TEXT NOT NULL,\n    issued_at TEXT,\n    updated_at TEXT NOT NULL\n);\nCREATE TABLE IF NOT EXISTS commerce_invoice_item (\n    id TEXT PRIMARY KEY,\n    tenant_id TEXT NOT NULL,\n    invoice_id TEXT NOT NULL,\n    order_item_id TEXT,\n    title TEXT NOT NULL,\n    amount TEXT NOT NULL,\n    tax_amount TEXT NOT NULL,\n    created_at TEXT NOT NULL\n);\n";
    proof {
        reveal_strlit("CREATE TABLE IF NOT EXISTS commerce_invoice_title (\n    id TEXT PRIMARY KEY,\n    tenant_id TEXT NOT NULL,\n    owner_user_id TEXT NOT NULL,\n    title_type TEXT NOT NULL,\n    name TEXT NOT NULL,\n    tax_no TEXT,\n    created_at TEXT NOT NULL,\n    updated_at TEXT NOT NULL\n);\nCREATE TABLE IF NOT EXISTS commerce_invoice (\n    id TEXT PRIMARY KEY,\n    tenant_id TEXT NOT NULL,\n    organization_id TEXT,\n    owner_user_id TEXT NOT NULL,\n    order_id TEXT NOT NULL,\n    payment_id TEXT NOT NULL,\n    title_id TEXT NOT NULL,\n    status TEXT NOT NULL,\n    invoice_no TEXT,\n    invoice_code TEXT,\n    document_url TEXT,\n    created_at TEXT NOT NULL,\n    issued_at TEXT,\n    updated_at TEXT NOT NULL\n);\nCREATE TABLE IF NOT EXISTS commerce_invoice_item (\n    id TEXT PRIMARY KEY,\n    tenant_id TEXT NOT NULL,\n    invoice_id TEXT NOT NULL,\n    order_item_id TEXT,\n    title TEXT NOT NULL,\n    amount TEXT NOT NULL,\n    tax_amount TEXT NOT NULL,\n    created_at TEXT NOT NULL\n);\n");
        reveal_strlit("CREATE TABLE IF NOT EXISTS commerce_invoice_title (\n    id TEXT PRIMARY KEY,\n    tenant_id TEXT NOT NULL,\n    owner_user_id TEXT NOT NULL,\n    title_type TEXT NOT NULL,\n    name TEXT NOT NULL,\n    tax_no TEXT,\n    created_at TEXT NOT NULL,\n    updated_at TEXT NOT NULL\n);\n");
        reveal_strlit("CREATE TABLE IF NOT EXISTS commerce_invoice (\n    id TEXT PRIMARY KEY,\n    tenant_id TEXT NOT NULL,\n    organization_id TEXT,\n    owner_user_id TEXT NOT NULL,\n    order_id TEXT NOT NULL,\n    payment_id TEXT NOT NULL,\n    title_id TEXT NOT NULL,\n    status TEXT NOT NULL,\n    invoice_no TEXT,\n    invoice_code TEXT,\n    document_url TEXT,\n    created_at TEXT NOT NULL,\n    issued_at TEXT,\n    updated_at TEXT NOT NULL\n);\n");
        reveal_strlit("CREATE TABLE IF NOT EXISTS commerce_invoice_item (\n    id TEXT PRIMARY KEY,\n    tenant_id TEXT NOT NULL,\n    invoice_id TEXT NOT NULL,\n    order_item_id TEXT,\n    title TEXT NOT NULL,\n    amount TEXT NOT NULL,\n    tax_amount TEXT NOT NULL,\n    created_at TEXT NOT NULL\n);\n");
        assert(sql@ =~= invoice_baseline_ddl());
    }
    sql
}


/// The SQLite mirror of the invoice module baseline, for host installers
/// and drift checks: the same statements as the Postgres baseline, which
/// both databases accept.
pub fn invoice_foundation_migration_sqlite() -> (sql: &'static str)
    ensures
        sql@ == invoice_baseline_ddl(),
{
    let sql = "CREATE TABLE IF NOT EXISTS commerce_invoice_title (\n    id TEXT PRIMARY KEY,\n    tenant_id TEXT NOT NULL,\n    owner_user_id TEXT NOT NULL,\n    title_type TEXT NOT NULL,\n    name TEXT NOT NULL,\n    tax_no TEXT,\n    created_at TEXT NOT NULL,\n    updated_at TEXT NOT NULL\n);\nCREATE TABLE IF NOT EXISTS commerce_invoice (\n    id TEXT PRIMARY KEY,\n    tenant_id TEXT NOT NULL,\n    organization_id TEXT,\n    owner_user_id TEXT NOT NULL,\n    order_id TEXT NOT NULL,\n    payment_id TEXT NOT NULL,\n    title_id TEXT NOT NULL,\n    status TEXT NOT NULL,\n    invoice_no TEXT,\n    invoice_code TEXT,\n    document_url TEXT,\n    created_at TEXT NOT NULL,\n    issued_at TEXT,\n    updated_at TEXT NOT NULL\n);\nCREATE TABLE IF NOT EXISTS commerce_invoice_item (\n    id TEXT PRIMARY KEY,\n    tenant_id TEXT NOT NULL,\n    invoice_id TEXT NOT NULL,\n    order_item_id TEXT,\n    title TEXT NOT NULL,\n    amount TEXT NOT NULL,\n    tax_amount TEXT NOT NULL,\n    created_at TEXT NOT NULL\n);\n";
    proof {
        reveal_strlit("CREATE TABLE IF NOT EXISTS commerce_invoice_title (
    id TEXT PRIMARY KEY,
    tenant_id TEXT NOT NULL,
    owner_user_id TEXT NOT NULL,
    title_type TEXT NOT NULL,
    name TEXT NOT NULL,
    tax_no TEXT,
    created_at TEXT NOT NULL,
    updated_at TEXT NOT NULL
);
CREATE TABLE IF NOT EXISTS commerce_invoice (
    id TEXT PRIMARY KEY,
    tenant_id TEXT NOT NULL,
    organization_id TEXT,
    owner_user_id TEXT NOT NULL,
    order_id TEXT NOT NULL,
    payment_id TEXT NOT NULL,
    title_id TEXT NOT NULL,
    status TEXT NOT NULL,
    invoice_no TEXT,
    invoice_code TEXT,
    document_url TEXT,
    created_at TEXT NOT NULL,
    issued_at TEXT,
    updated_at TEXT NOT NULL
);
CREATE TABLE IF NOT EXISTS commerce_invoice_item (
    id TEXT PRIMARY KEY,
    tenant_id TEXT NOT NULL,
    invoice_id TEXT NOT NULL,
    order_item_id TEXT,
    title TEXT NOT NULL,
    amount TEXT NOT NULL,
    tax_amount TEXT NOT NULL,
    created_at TEXT NOT NULL
);
");
        reveal_strlit("CREATE TABLE IF NOT EXISTS commerce_invoice_title (
    id TEXT PRIMARY KEY,
    tenant_id TEXT NOT NULL,
    owner_user_id TEXT NOT NULL,
    title_type TEXT NOT NULL,
    name TEXT NOT NULL,
    tax_no TEXT,
    created_at TEXT NOT NULL,
    updated_at TEXT NOT NULL
);
");
        reveal_strlit("CREATE TABLE IF NOT EXISTS commerce_invoice (
    id TEXT PRIMARY KEY,
    tenant_id TEXT NOT NULL,
    organization_id TEXT,
    owner_user_id TEXT NOT NULL,
    order_id TEXT NOT NULL,
    payment_id TEXT NOT NULL,
    title_id TEXT NOT NULL,
    status TEXT NOT NULL,
    invoice_no TEXT,
    invoice_code TEXT,
    document_url TEXT,
    created_at TEXT NOT NULL,
    issued_at TEXT,
    updated_at TEXT NOT NULL
);
");
        reveal_strlit("CREATE TABLE IF NOT EXISTS commerce_invoice_item (
    id TEXT PRIMARY KEY,
    tenant_id TEXT NOT NULL,
    invoice_id TEXT NOT NULL,
    order_item_id TEXT,
    title TEXT NOT NULL,
    amount TEXT NOT NULL,
    tax_amount TEXT NOT NULL,
    created_at TEXT NOT NULL
);
");
        assert(sql@ =~= invoice_baseline_ddl());
    }
    sql
}

/// `ddl` holds the statement that creates table `name`.
pub open spec fn creates_table(ddl: Seq<char>, name: Seq<char>) -> bool {
    exists|i: int|
        0 <= i && i + ("CREATE TABLE IF NOT EXISTS "@ + name + " ("@).len() <= ddl.len()
            && #[trigger] ddl.subrange(i, i + ("CREATE TABLE IF NOT EXISTS "@ + name + " ("@).len())
            == "CREATE TABLE IF NOT EXISTS "@ + name + " ("@
}

/// Every table that must exist after the baseline is applied is created by
/// the baseline (and so by its SQLite mirror).
pub proof fn lemma_baseline_creates_module_tables()
    ensures
        forall|i: int| 0 <= i < invoice_table_names().len() ==> creates_table(
            invoice_baseline_ddl(),
            #[trigger] invoice_table_names()[i],
        ),
{
    reveal_strlit("CREATE TABLE IF NOT EXISTS ");
    reveal_strlit(" (");
    reveal_strlit("commerce_invoice_title");
    reveal_strlit("commerce_invoice");
    reveal_strlit("commerce_invoice_item");
    reveal_strlit("CREATE TABLE IF NOT EXISTS commerce_invoice_title (\n    id TEXT PRIMARY KEY,\n    tenant_id TEXT NOT NULL,\n    owner_user_id TEXT NOT NULL,\n    title_type TEXT NOT NULL,\n    name TEXT NOT NULL,\n    tax_no TEXT,\n    created_at TEXT NOT NULL,\n    updated_at TEXT NOT NULL\n);\n");
    reveal_strlit("CREATE TABLE IF NOT EXISTS commerce_invoice (\n    id TEXT PRIMARY KEY,\n    tenant_id TEXT NOT NULL,\n    organization_id TEXT,\n    owner_user_id TEXT NOT NULL,\n    order_id TEXT NOT NULL,\n    payment_id TEXT NOT NULL,\n    title_id TEXT NOT NULL,\n    status TEXT NOT NULL,\n    invoice_no TEXT,\n    invoice_code TEXT,\n    document_url TEXT,\n    created_at TEXT NOT NULL,\n    issued_at TEXT,\n    updated_at TEXT NOT NULL\n);\n");
    reveal_strlit("CREATE TABLE IF NOT EXISTS commerce_invoice_item (\n    id TEXT PRIMARY KEY,\n    tenant_id TEXT NOT NULL,\n    invoice_id TEXT NOT NULL,\n    order_item_id TEXT,\n    title TEXT NOT NULL,\n    amount TEXT NOT NULL,\n    tax_amount TEXT NOT NULL,\n    created_at TEXT NOT NULL\n);\n");
    let ddl = invoice_baseline_ddl();
    let a = invoice_title_ddl().len() as int;
    let b = a + invoice_ddl().len();
    let n0 = "commerce_invoice_title"@;
    let n1 = "commerce_invoice"@;
    let n2 = "commerce_invoice_item"@;
    let p0 = "CREATE TABLE IF NOT EXISTS "@ + n0 + " ("@;
    let p1 = "CREATE TABLE IF NOT EXISTS "@ + n1 + " ("@;
    let p2 = "CREATE TABLE IF NOT EXISTS "@ + n2 + " ("@;
    let z: int = 0;
    assert(ddl.subrange(z, z + p0.len()) =~= p0);
    assert(ddl.subrange(a, a + p1.len()) =~= p1);
    assert(ddl.subrange(b, b + p2.len()) =~= p2);
    assert(creates_table(ddl, n0));
    assert(creates_table(ddl, n1));
    assert(creates_table(ddl, n2));
}

} // verus!
