use sdkwork_invoice::bootstrap::{
    assembly_route_count, invoice_foundation_migration_sql, invoice_foundation_migration_sqlite,
    invoice_module_table_names, is_production_environment,
};

#[test]
fn baseline_creates_every_module_table() {
    let names = invoice_module_table_names();
    assert_eq!(names, vec!["commerce_invoice_title", "commerce_invoice", "commerce_invoice_item"]);
    for name in names {
        let statement = format!("CREATE TABLE IF NOT EXISTS {name} (");
        assert!(invoice_foundation_migration_sql().contains(&statement));
        assert!(invoice_foundation_migration_sqlite().contains(&statement));
    }
}

#[test]
fn sqlite_mirror_matches_postgres_baseline() {
    assert_eq!(invoice_foundation_migration_sql(), invoice_foundation_migration_sqlite());
}

#[test]
fn assembly_mounts_one_route_crate() {
    assert_eq!(assembly_route_count(), 1);
}

#[test]
fn production_environment_names() {
    assert!(is_production_environment(" Production "));
    assert!(is_production_environment("PROD"));
    assert!(!is_production_environment("development"));
    assert!(!is_production_environment("pro d"));
}
